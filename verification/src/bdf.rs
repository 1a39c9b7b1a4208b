//! Reading glyph records from a bitmap font in the Glyph Bitmap Distribution
//! Format, line by line.
//!
//! Of each glyph the reader takes the code point (`ENCODING`), the size
//! (`BBX`) and the rows of the bitmap (`BITMAP` to `ENDCHAR`); lines with
//! other keywords are passed over.

use vstd::prelude::*;
use vstd::string::*;
use crate::error::ConversionError;
use crate::font::{glyph_models, Catalog, CatalogModel, Glyph, GlyphModel};

verus! {

/// Space, tab and carriage return separate the words of a line.
pub open spec fn is_blank(b: u8) -> bool {
    b == 32 || b == 9 || b == 13
}

/// Position of the first line feed in `src` from `pos` on, or the length of
/// `src` where there is none: where the line that holds `pos` ends.
pub open spec fn line_end(src: Seq<u8>, pos: int) -> int
    decreases src.len() - pos,
{
    if pos >= src.len() || src[pos] == 10 {
        pos
    } else {
        line_end(src, pos + 1)
    }
}

/// Position of the first byte from `pos` on that is not blank, or `end`.
pub open spec fn skip_blanks(src: Seq<u8>, pos: int, end: int) -> int
    decreases end - pos,
{
    if pos >= end || !is_blank(src[pos]) {
        pos
    } else {
        skip_blanks(src, pos + 1, end)
    }
}

/// Position of the first blank byte from `pos` on, or `end`.
pub open spec fn word_end(src: Seq<u8>, pos: int, end: int) -> int
    decreases end - pos,
{
    if pos >= end || is_blank(src[pos]) {
        pos
    } else {
        word_end(src, pos + 1, end)
    }
}

/// Where word number `k` of the line from `start` to `end` begins; `end`
/// where the line has fewer words.
pub open spec fn word_start(src: Seq<u8>, start: int, end: int, k: nat) -> int
    decreases k,
{
    if k == 0 {
        skip_blanks(src, start, end)
    } else {
        skip_blanks(src, word_end(src, word_start(src, start, end, (k - 1) as nat), end), end)
    }
}

/// The bytes from `lo` to `hi` as characters.
pub open spec fn text_of(src: Seq<u8>, lo: int, hi: int) -> Seq<char> {
    Seq::new((hi - lo) as nat, |i: int| src[lo + i] as char)
}

/// Whether the bytes from `lo` to `hi` are decimal digits.
pub open spec fn all_digits(src: Seq<u8>, lo: int, hi: int) -> bool {
    forall|i: int| lo <= i < hi ==> 48 <= #[trigger] src[i] <= 57
}

/// The number that the decimal digits from `lo` to `hi` write.
pub open spec fn digits_value(src: Seq<u8>, lo: int, hi: int) -> int
    decreases hi - lo,
{
    if hi <= lo {
        0
    } else {
        digits_value(src, lo, hi - 1) * 10 + (src[hi - 1] - 48)
    }
}

/// The largest magnitude of a number that the reader accepts.
pub const MAX_NUMBER: u64 = 0x7fff_ffff;

/// The number that the word from `lo` to `hi` writes: decimal digits, after
/// a minus sign for a negative number, of a magnitude up to `MAX_NUMBER`.
pub open spec fn number(src: Seq<u8>, lo: int, hi: int) -> Option<int> {
    if lo < hi && src[lo] == 45 {
        if lo + 1 < hi && all_digits(src, lo + 1, hi) && digits_value(src, lo + 1, hi)
            <= MAX_NUMBER {
            Some(-digits_value(src, lo + 1, hi))
        } else {
            None
        }
    } else if lo < hi && all_digits(src, lo, hi) && digits_value(src, lo, hi) <= MAX_NUMBER {
        Some(digits_value(src, lo, hi))
    } else {
        None
    }
}

/// The value of a hexadecimal digit.
pub open spec fn hex_value(b: u8) -> Option<int> {
    if 48 <= b <= 57 {
        Some(b - 48)
    } else if 65 <= b <= 70 {
        Some(b - 55)
    } else if 97 <= b <= 102 {
        Some(b - 87)
    } else {
        None
    }
}

/// Bit `k` of a hexadecimal digit's value, counted from the highest.
pub open spec fn nibble_bit(v: int, k: int) -> bool {
    if k == 0 {
        v >= 8
    } else if k == 1 {
        v % 8 >= 4
    } else if k == 2 {
        v % 4 >= 2
    } else {
        v % 2 == 1
    }
}

/// Whether the bytes from `lo` to `hi` are hexadecimal digits.
pub open spec fn all_hex(src: Seq<u8>, lo: int, hi: int) -> bool {
    forall|i: int| lo <= i < hi ==> (#[trigger] hex_value(src[i])) is Some
}

/// The first `width` pixels of the bitmap row that the hexadecimal digits
/// from `lo` to `hi` write, four pixels per digit, the leftmost in the highest
/// bit; `None` where a byte is no such digit or the digits are too few.
pub open spec fn row_bits(src: Seq<u8>, lo: int, hi: int, width: nat) -> Option<Seq<bool>> {
    if all_hex(src, lo, hi) && 4 * (hi - lo) >= width {
        Some(Seq::new(width, |x: int| nibble_bit(hex_value(src[lo + x / 4])->Some_0, x % 4)))
    } else {
        None
    }
}

/// Digits never write a negative number, and more digits never a smaller one.
pub proof fn lemma_digits_value_grows(src: Seq<u8>, lo: int, mid: int, hi: int)
    requires
        lo <= mid <= hi,
        all_digits(src, lo, hi),
    ensures
        0 <= digits_value(src, lo, mid) <= digits_value(src, lo, hi),
    decreases hi - lo,
{
    if hi > lo {
        if mid == hi {
            lemma_digits_value_grows(src, lo, hi - 1, hi - 1);
        } else {
            lemma_digits_value_grows(src, lo, mid, hi - 1);
        }
    }
}

/// Finds where the line that holds `pos` ends.
pub fn find_line_end(src: &[u8], pos: usize) -> (end: usize)
    requires
        pos <= src@.len(),
    ensures
        end as int == line_end(src@, pos as int),
        pos <= end <= src@.len(),
{
    let mut i: usize = pos;
    while i < src.len() && src[i] != 10
        invariant
            pos <= i <= src@.len(),
            line_end(src@, pos as int) == line_end(src@, i as int),
        decreases src@.len() - i,
    {
        i = i + 1;
    }
    i
}

/// Finds the first byte from `pos` on that is not blank.
pub fn find_word(src: &[u8], pos: usize, end: usize) -> (at: usize)
    requires
        pos <= end <= src@.len(),
    ensures
        at as int == skip_blanks(src@, pos as int, end as int),
        pos <= at <= end,
{
    let mut i: usize = pos;
    while i < end && (src[i] == 32 || src[i] == 9 || src[i] == 13)
        invariant
            pos <= i <= end <= src@.len(),
            skip_blanks(src@, pos as int, end as int) == skip_blanks(src@, i as int, end as int),
        decreases end - i,
    {
        i = i + 1;
    }
    i
}

/// Finds the first blank byte from `pos` on.
pub fn find_word_end(src: &[u8], pos: usize, end: usize) -> (at: usize)
    requires
        pos <= end <= src@.len(),
    ensures
        at as int == word_end(src@, pos as int, end as int),
        pos <= at <= end,
{
    let mut i: usize = pos;
    while i < end && !(src[i] == 32 || src[i] == 9 || src[i] == 13)
        invariant
            pos <= i <= end <= src@.len(),
            word_end(src@, pos as int, end as int) == word_end(src@, i as int, end as int),
        decreases end - i,
    {
        i = i + 1;
    }
    i
}

/// Finds word number `k` of the line from `start` to `end`: where it begins
/// and where it ends. A line with fewer words yields an empty stretch at its end.
pub fn find_nth_word(src: &[u8], start: usize, end: usize, k: usize) -> (span: (usize, usize))
    requires
        start <= end <= src@.len(),
    ensures
        span.0 as int == word_start(src@, start as int, end as int, k as nat),
        span.1 as int == word_end(src@, span.0 as int, end as int),
        start <= span.0 <= span.1 <= end,
{
    let mut at: usize = find_word(src, start, end);
    let mut i: usize = 0;
    while i < k
        invariant
            i <= k,
            start <= at <= end <= src@.len(),
            at as int == word_start(src@, start as int, end as int, i as nat),
        decreases k - i,
    {
        let stop: usize = find_word_end(src, at, end);
        at = find_word(src, stop, end);
        i = i + 1;
    }
    let stop: usize = find_word_end(src, at, end);
    (at, stop)
}

/// Whether the bytes from `lo` to `hi` spell `word`.
pub fn span_equals(src: &[u8], lo: usize, hi: usize, word: &str) -> (r: bool)
    requires
        lo <= hi <= src@.len(),
    ensures
        r == (text_of(src@, lo as int, hi as int) == word@),
{
    let n: usize = word.unicode_len();
    if hi - lo != n {
        return false;
    }
    let mut i: usize = 0;
    while i < n
        invariant
            i <= n,
            n == word@.len(),
            n == hi - lo,
            lo <= hi <= src@.len(),
            forall|j: int| 0 <= j < i ==> text_of(src@, lo as int, hi as int)[j] == word@[j],
        decreases n - i,
    {
        if src[lo + i] as char != word.get_char(i) {
            assert(text_of(src@, lo as int, hi as int)[i as int] != word@[i as int]);
            return false;
        }
        i = i + 1;
    }
    assert(text_of(src@, lo as int, hi as int) =~= word@);
    true
}

/// Reads the digits from `lo` to `hi`, if they are digits and write a number
/// up to `MAX_NUMBER`.
fn read_digits(src: &[u8], lo: usize, hi: usize) -> (r: Option<u64>)
    requires
        lo <= hi <= src@.len(),
    ensures
        r is Some <==> all_digits(src@, lo as int, hi as int) && digits_value(
            src@,
            lo as int,
            hi as int,
        ) <= MAX_NUMBER,
        r matches Some(v) ==> v as int == digits_value(src@, lo as int, hi as int),
{
    let mut value: u64 = 0;
    let mut i: usize = lo;
    while i < hi
        invariant
            lo <= i <= hi <= src@.len(),
            all_digits(src@, lo as int, i as int),
            value as int == digits_value(src@, lo as int, i as int),
            value <= MAX_NUMBER,
        decreases hi - i,
    {
        let b: u8 = src[i];
        if b < 48 || b > 57 {
            return None;
        }
        value = value * 10 + (b - 48) as u64;
        if value > MAX_NUMBER {
            proof {
                if all_digits(src@, lo as int, hi as int) {
                    lemma_digits_value_grows(src@, lo as int, i + 1, hi as int);
                }
            }
            return None;
        }
        i = i + 1;
    }
    Some(value)
}

/// Reads the number that the word from `lo` to `hi` writes.
pub fn read_number(src: &[u8], lo: usize, hi: usize) -> (r: Option<i64>)
    requires
        lo <= hi <= src@.len(),
    ensures
        match r {
            Some(v) => number(src@, lo as int, hi as int) == Some(v as int) && -MAX_NUMBER <= v
                <= MAX_NUMBER,
            None => number(src@, lo as int, hi as int) is None,
        },
{
    if lo < hi && src[lo] == 45 {
        if lo + 1 < hi {
            match read_digits(src, lo + 1, hi) {
                Some(v) => Some(-(v as i64)),
                None => None,
            }
        } else {
            None
        }
    } else if lo < hi {
        match read_digits(src, lo, hi) {
            Some(v) => Some(v as i64),
            None => None,
        }
    } else {
        None
    }
}

/// The value of a hexadecimal digit.
fn read_hex(b: u8) -> (r: Option<u8>)
    ensures
        match r {
            Some(v) => hex_value(b) == Some(v as int) && v < 16,
            None => hex_value(b) is None,
        },
{
    if 48 <= b && b <= 57 {
        Some(b - 48)
    } else if 65 <= b && b <= 70 {
        Some(b - 55)
    } else if 97 <= b && b <= 102 {
        Some(b - 87)
    } else {
        None
    }
}

/// Reads the first `width` pixels of a bitmap row from the hexadecimal digits
/// from `lo` to `hi`, and appends them to `bits`.
fn read_row(src: &[u8], lo: usize, hi: usize, width: u32, bits: &mut Vec<bool>) -> (ok: bool)
    requires
        lo <= hi <= src@.len(),
    ensures
        match row_bits(src@, lo as int, hi as int, width as nat) {
            Some(row) => ok && final(bits)@ == old(bits)@ + row,
            None => !ok,
        },
{
    let mut i: usize = lo;
    while i < hi
        invariant
            lo <= i <= hi <= src@.len(),
            all_hex(src@, lo as int, i as int),
        decreases hi - i,
    {
        if read_hex(src[i]).is_none() {
            assert(hex_value(src@[i as int]) is None);
            return false;
        }
        i = i + 1;
    }
    if ((hi - lo) as u128) * 4 < width as u128 {
        return false;
    }
    let ghost row = row_bits(src@, lo as int, hi as int, width as nat)->Some_0;
    let mut x: u32 = 0;
    while x < width
        invariant
            x <= width,
            lo <= hi <= src@.len(),
            4 * (hi - lo) >= width,
            all_hex(src@, lo as int, hi as int),
            row_bits(src@, lo as int, hi as int, width as nat) == Some(row),
            bits@ == old(bits)@ + row.take(x as int),
        decreases width - x,
    {
        let at: usize = lo + (x / 4) as usize;
        assert(hex_value(src@[at as int]) is Some);
        let v: u8 = match read_hex(src[at]) {
            Some(v) => v,
            None => 0,
        };
        let k: u32 = x % 4;
        let bit: bool = if k == 0 {
            v >= 8
        } else if k == 1 {
            v % 8 >= 4
        } else if k == 2 {
            v % 4 >= 2
        } else {
            v % 2 == 1
        };
        bits.push(bit);
        assert(row.take(x + 1) =~= row.take(x as int).push(row[x as int]));
        assert(bits@ =~= old(bits)@ + row.take(x + 1));
        x = x + 1;
    }
    assert(row.take(width as int) =~= row);
    true
}

/// The mathematical content of a glyph record: code point, size, and the
/// pixels row by row.
pub struct RecordModel {
    pub code: int,
    pub width: nat,
    pub height: nat,
    pub mask: Seq<bool>,
}

/// One glyph as the font source describes it.
#[derive(Debug, PartialEq, Eq)]
pub struct GlyphRecord {
    pub code: i64,
    pub width: u32,
    pub height: u32,
    pub mask: Vec<bool>,
}

impl View for GlyphRecord {
    type V = RecordModel;

    open spec fn view(&self) -> RecordModel {
        RecordModel {
            code: self.code as int,
            width: self.width as nat,
            height: self.height as nat,
            mask: self.mask@,
        }
    }
}

/// The models of a sequence of records.
pub open spec fn record_models(records: Seq<GlyphRecord>) -> Seq<RecordModel> {
    Seq::new(records.len(), |i: int| records[i]@)
}

/// What the reader knows between two lines: whether the font has begun,
/// whether a glyph is open and what has been read of it, and the glyphs that
/// are complete.
pub struct ScanModel {
    pub started: bool,
    pub open: bool,
    pub code: Option<int>,
    pub size: Option<(nat, nat)>,
    pub bits: Option<Seq<bool>>,
    pub rows_read: nat,
    pub records: Seq<RecordModel>,
}

/// The reader's state before the first line.
pub open spec fn scan_start() -> ScanModel {
    ScanModel {
        started: false,
        open: false,
        code: None,
        size: None,
        bits: None,
        rows_read: 0,
        records: Seq::empty(),
    }
}

/// Whether the next line is a row of the open glyph's bitmap.
pub open spec fn expects_row(s: ScanModel) -> bool {
    s.open && s.bits is Some && s.size is Some && s.rows_read < s.size->Some_0.1
}

/// The number that word number `k` of the line writes.
pub open spec fn number_word(src: Seq<u8>, start: int, end: int, k: nat) -> Option<int> {
    number(
        src,
        word_start(src, start, end, k),
        word_end(src, word_start(src, start, end, k), end),
    )
}

/// The reader's state after the line from `start` to `end`, or `None` where
/// the line is malformed or out of place.
///
/// While rows of a bitmap are due, the line's first word is such a row.
/// Otherwise the first word decides: `STARTFONT` begins the font; `STARTCHAR`
/// opens a glyph, inside a font and not inside a glyph; `ENCODING` gives the
/// open glyph's code point; `BBX` its width and height, neither negative,
/// before the bitmap; `BITMAP` begins its rows, after the size; `ENDCHAR`
/// completes it, once code point, size and all rows are there. Any other line
/// changes nothing.
pub open spec fn step(s: ScanModel, src: Seq<u8>, start: int, end: int) -> Option<ScanModel> {
    let w0 = word_start(src, start, end, 0);
    let e0 = word_end(src, w0, end);
    let key = text_of(src, w0, e0);
    let first = number_word(src, start, end, 1);
    let second = number_word(src, start, end, 2);
    if expects_row(s) {
        match row_bits(src, w0, e0, s.size->Some_0.0) {
            Some(row) => Some(
                ScanModel { bits: Some(s.bits->Some_0 + row), rows_read: s.rows_read + 1, ..s },
            ),
            None => None,
        }
    } else if key == "STARTFONT"@ {
        Some(ScanModel { started: true, ..s })
    } else if key == "STARTCHAR"@ {
        if s.started && !s.open {
            Some(ScanModel { open: true, code: None, size: None, bits: None, rows_read: 0, ..s })
        } else {
            None
        }
    } else if key == "ENCODING"@ {
        if s.open && first is Some {
            Some(ScanModel { code: first, ..s })
        } else {
            None
        }
    } else if key == "BBX"@ {
        if s.open && s.bits is None && first is Some && second is Some && first->Some_0 >= 0
            && second->Some_0 >= 0 {
            Some(ScanModel { size: Some((first->Some_0 as nat, second->Some_0 as nat)), ..s })
        } else {
            None
        }
    } else if key == "BITMAP"@ {
        if s.open && s.size is Some && s.bits is None {
            Some(ScanModel { bits: Some(Seq::empty()), rows_read: 0, ..s })
        } else {
            None
        }
    } else if key == "ENDCHAR"@ {
        if s.open && s.code is Some && s.size is Some && s.bits is Some {
            Some(
                ScanModel {
                    open: false,
                    code: None,
                    size: None,
                    bits: None,
                    rows_read: 0,
                    records: s.records.push(
                        RecordModel {
                            code: s.code->Some_0,
                            width: s.size->Some_0.0,
                            height: s.size->Some_0.1,
                            mask: s.bits->Some_0,
                        },
                    ),
                    ..s
                },
            )
        } else {
            None
        }
    } else {
        Some(s)
    }
}

/// Where the line after the one that holds `pos` begins; the end of the
/// source after its last line.
pub open spec fn next_line(src: Seq<u8>, pos: int) -> int {
    if line_end(src, pos) < src.len() {
        line_end(src, pos) + 1
    } else {
        src.len() as int
    }
}

/// The records of the source from `pos` on, for a reader in state `s`: the
/// lines are taken one by one; at the end the font must have begun and no
/// glyph may be open.
pub open spec fn scan(src: Seq<u8>, pos: int, s: ScanModel) -> Option<Seq<RecordModel>>
    decreases src.len() - pos,
{
    if pos >= src.len() {
        if s.started && !s.open {
            Some(s.records)
        } else {
            None
        }
    } else if pos < 0 || next_line(src, pos) <= pos {
        None
    } else {
        match step(s, src, pos, line_end(src, pos)) {
            Some(t) => scan(src, next_line(src, pos), t),
            None => None,
        }
    }
}

/// The glyph records of a font source, in the order of the source; `None`
/// for a malformed source.
pub open spec fn records_of(src: Seq<u8>) -> Option<Seq<RecordModel>> {
    scan(src, 0, scan_start())
}

/// The reader's state.
struct Scan {
    started: bool,
    open: bool,
    code: Option<i64>,
    size: Option<(u32, u32)>,
    bits: Option<Vec<bool>>,
    rows_read: u32,
    records: Vec<GlyphRecord>,
}

impl Scan {
    spec fn model(&self) -> ScanModel {
        ScanModel {
            started: self.started,
            open: self.open,
            code: match self.code {
                Some(c) => Some(c as int),
                None => None,
            },
            size: match self.size {
                Some(d) => Some((d.0 as nat, d.1 as nat)),
                None => None,
            },
            bits: match self.bits {
                Some(b) => Some(b@),
                None => None,
            },
            rows_read: self.rows_read as nat,
            records: record_models(self.records@),
        }
    }
}

/// Takes one line.
fn step_line(s: Scan, src: &[u8], start: usize, end: usize) -> (r: Option<Scan>)
    requires
        start <= end <= src@.len(),
    ensures
        match r {
            Some(t) => step(s.model(), src@, start as int, end as int) == Some(t.model()),
            None => step(s.model(), src@, start as int, end as int) is None,
        },
{
    let ghost before = s.model();
    let mut s = s;
    let (w0, e0) = find_nth_word(src, start, end, 0);
    if s.open && s.bits.is_some() && s.size.is_some() && s.rows_read < s.size.unwrap().1 {
        let width: u32 = s.size.unwrap().0;
        let mut bits: Vec<bool> = s.bits.unwrap();
        if read_row(src, w0, e0, width, &mut bits) {
            s.bits = Some(bits);
            s.rows_read = s.rows_read + 1;
            Some(s)
        } else {
            None
        }
    } else if span_equals(src, w0, e0, "STARTFONT") {
        s.started = true;
        Some(s)
    } else if span_equals(src, w0, e0, "STARTCHAR") {
        if s.started && !s.open {
            s.open = true;
            s.code = None;
            s.size = None;
            s.bits = None;
            s.rows_read = 0;
            Some(s)
        } else {
            None
        }
    } else if span_equals(src, w0, e0, "ENCODING") {
        let (w1, e1) = find_nth_word(src, start, end, 1);
        match read_number(src, w1, e1) {
            Some(n) => {
                if s.open {
                    s.code = Some(n);
                    Some(s)
                } else {
                    None
                }
            },
            None => None,
        }
    } else if span_equals(src, w0, e0, "BBX") {
        let (w1, e1) = find_nth_word(src, start, end, 1);
        let (w2, e2) = find_nth_word(src, start, end, 2);
        match (read_number(src, w1, e1), read_number(src, w2, e2)) {
            (Some(w), Some(h)) => {
                if s.open && s.bits.is_none() && w >= 0 && h >= 0 {
                    s.size = Some((w as u32, h as u32));
                    Some(s)
                } else {
                    None
                }
            },
            _ => None,
        }
    } else if span_equals(src, w0, e0, "BITMAP") {
        if s.open && s.size.is_some() && s.bits.is_none() {
            s.bits = Some(Vec::new());
            s.rows_read = 0;
            Some(s)
        } else {
            None
        }
    } else if span_equals(src, w0, e0, "ENDCHAR") {
        if s.open && s.code.is_some() && s.size.is_some() && s.bits.is_some() {
            let size = s.size.unwrap();
            let record = GlyphRecord {
                code: s.code.unwrap(),
                width: size.0,
                height: size.1,
                mask: s.bits.unwrap(),
            };
            let mut records = s.records;
            records.push(record);
            assert(record_models(records@) =~= before.records.push(record@));
            Some(
                Scan {
                    started: s.started,
                    open: false,
                    code: None,
                    size: None,
                    bits: None,
                    rows_read: 0,
                    records,
                },
            )
        } else {
            None
        }
    } else {
        Some(s)
    }
}

/// Reads the glyph records of a font source.
pub fn read_records(src: &[u8]) -> (r: Option<Vec<GlyphRecord>>)
    ensures
        match r {
            Some(records) => records_of(src@) == Some(record_models(records@)),
            None => records_of(src@) is None,
        },
{
    let mut s = Scan {
        started: false,
        open: false,
        code: None,
        size: None,
        bits: None,
        rows_read: 0,
        records: Vec::new(),
    };
    assert(s.model() == scan_start()) by {
        assert(record_models(s.records@) =~= Seq::<RecordModel>::empty());
    }
    let mut pos: usize = 0;
    while pos < src.len()
        invariant
            pos <= src@.len(),
            records_of(src@) == scan(src@, pos as int, s.model()),
        decreases src@.len() - pos,
    {
        let end: usize = find_line_end(src, pos);
        match step_line(s, src, pos, end) {
            Some(t) => {
                s = t;
            },
            None => {
                return None;
            },
        }
        pos = if end < src.len() {
            end + 1
        } else {
            end
        };
    }
    if s.started && !s.open {
        Some(s.records)
    } else {
        None
    }
}

/// Position of the first among the first `n` records that has the code
/// point `code`.
pub open spec fn first_record(records: Seq<RecordModel>, code: int, n: nat) -> Option<int>
    decreases n,
{
    if n == 0 {
        None
    } else {
        match first_record(records, code, (n - 1) as nat) {
            Some(i) => Some(i),
            None => if records[n - 1].code == code {
                Some(n - 1)
            } else {
                None
            },
        }
    }
}

/// The record that gives the glyph of a character: the first with the
/// character's code point.
pub open spec fn record_for(records: Seq<RecordModel>, c: char) -> Option<RecordModel> {
    match first_record(records, c as u32 as int, records.len()) {
        Some(i) => Some(records[i]),
        None => None,
    }
}

/// The glyphs for the first `n` characters of the alphabet, in the alphabet's
/// order, a character that occurred before being passed over; `None` where a
/// character has no record or its record is not `width` by `height` pixels.
pub open spec fn selected(
    records: Seq<RecordModel>,
    alphabet: Seq<char>,
    width: nat,
    height: nat,
    n: nat,
) -> Option<Seq<GlyphModel>>
    decreases n,
{
    if n == 0 {
        Some(Seq::empty())
    } else {
        match selected(records, alphabet, width, height, (n - 1) as nat) {
            None => None,
            Some(glyphs) => if alphabet.take(n - 1).contains(alphabet[n - 1]) {
                Some(glyphs)
            } else {
                match record_for(records, alphabet[n - 1]) {
                    Some(rec) => if rec.width == width && rec.height == height {
                        Some(glyphs.push(GlyphModel { ch: alphabet[n - 1], mask: rec.mask }))
                    } else {
                        None
                    },
                    None => None,
                }
            },
        }
    }
}

/// The catalog that a font source yields for an alphabet: one glyph for each
/// character of the alphabet, in the alphabet's order, all of the size of
/// the first character's glyph. `None` where the source is malformed, the
/// alphabet is empty, a character has no record, a record has another size,
/// or the catalog would not be well formed.
pub open spec fn loaded(src: Seq<u8>, alphabet: Seq<char>) -> Option<CatalogModel> {
    match records_of(src) {
        None => None,
        Some(records) => if alphabet.len() == 0 {
            None
        } else {
            match record_for(records, alphabet[0]) {
                None => None,
                Some(first) => match selected(
                    records,
                    alphabet,
                    first.width,
                    first.height,
                    alphabet.len(),
                ) {
                    None => None,
                    Some(glyphs) => {
                        let m = CatalogModel {
                            cell_width: first.width,
                            cell_height: first.height,
                            glyphs,
                        };
                        if m.wf() {
                            Some(m)
                        } else {
                            None
                        }
                    },
                },
            }
        },
    }
}

/// A record that is the first with its code point among some records is the
/// first among more.
pub proof fn lemma_first_record_found(records: Seq<RecordModel>, code: int, i: int, n: nat)
    requires
        0 <= i < n <= records.len(),
        first_record(records, code, i as nat) is None,
        records[i].code == code,
    ensures
        first_record(records, code, n) == Some(i),
    decreases n,
{
    if n > i + 1 {
        lemma_first_record_found(records, code, i, (n - 1) as nat);
    }
}

/// Glyphs that cannot be had for some characters cannot be had for more.
pub proof fn lemma_selected_fails_on(
    records: Seq<RecordModel>,
    alphabet: Seq<char>,
    width: nat,
    height: nat,
    n: nat,
    m: nat,
)
    requires
        n <= m,
        selected(records, alphabet, width, height, n) is None,
    ensures
        selected(records, alphabet, width, height, m) is None,
    decreases m,
{
    if m > n {
        lemma_selected_fails_on(records, alphabet, width, height, n, (m - 1) as nat);
    }
}

/// Finds the first record with the code point `code`.
fn find_record(records: &Vec<GlyphRecord>, code: i64) -> (r: Option<usize>)
    ensures
        match r {
            Some(i) => first_record(record_models(records@), code as int, records@.len()) == Some(
                i as int,
            ) && i < records@.len(),
            None => first_record(record_models(records@), code as int, records@.len()) is None,
        },
{
    let ghost models = record_models(records@);
    let mut i: usize = 0;
    while i < records.len()
        invariant
            i <= records@.len(),
            models == record_models(records@),
            first_record(models, code as int, i as nat) is None,
        decreases records@.len() - i,
    {
        if records[i].code == code {
            proof {
                lemma_first_record_found(models, code as int, i as int, records@.len());
            }
            return Some(i);
        }
        i = i + 1;
    }
    None
}

/// Whether `c` occurs among the first `n` characters.
fn occurs_before(alphabet: &[char], n: usize, c: char) -> (r: bool)
    requires
        n <= alphabet@.len(),
    ensures
        r == alphabet@.take(n as int).contains(c),
{
    let mut j: usize = 0;
    while j < n
        invariant
            j <= n <= alphabet@.len(),
            forall|k: int| 0 <= k < j ==> alphabet@[k] != c,
        decreases n - j,
    {
        if alphabet[j] == c {
            assert(alphabet@.take(n as int)[j as int] == c);
            return true;
        }
        j = j + 1;
    }
    assert(!alphabet@.take(n as int).contains(c)) by {
        if alphabet@.take(n as int).contains(c) {
            let k = choose|k: int|
                0 <= k < alphabet@.take(n as int).len() && alphabet@.take(n as int)[k] == c;
            assert(alphabet@[k] == c);
        }
    }
    false
}

/// Copies a mask.
fn copy_bits(bits: &Vec<bool>) -> (out: Vec<bool>)
    ensures
        out@ == bits@,
{
    let mut out: Vec<bool> = Vec::new();
    let mut i: usize = 0;
    while i < bits.len()
        invariant
            i <= bits@.len(),
            out@ == bits@.take(i as int),
        decreases bits@.len() - i,
    {
        out.push(bits[i]);
        assert(bits@.take(i + 1) =~= bits@.take(i as int).push(bits@[i as int]));
        i = i + 1;
    }
    assert(bits@.take(i as int) =~= bits@);
    out
}

/// Loads the catalog of an alphabet from a font source. Fails with
/// `FontLoad` where `loaded` yields none.
pub fn load_font(font_source: &[u8], alphabet: &[char]) -> (r: Result<Catalog, ConversionError>)
    ensures
        match r {
            Ok(c) => loaded(font_source@, alphabet@) == Some(c@) && c@.wf(),
            Err(e) => e == ConversionError::FontLoad && loaded(font_source@, alphabet@) is None,
        },
{
    let records = match read_records(font_source) {
        Some(records) => records,
        None => {
            return Err(ConversionError::FontLoad);
        },
    };
    let ghost models = record_models(records@);
    if alphabet.len() == 0 {
        return Err(ConversionError::FontLoad);
    }
    let first: usize = match find_record(&records, alphabet[0] as u32 as i64) {
        Some(i) => i,
        None => {
            return Err(ConversionError::FontLoad);
        },
    };
    let width: u32 = records[first].width;
    let height: u32 = records[first].height;
    assert(record_for(models, alphabet@[0]) == Some(models[first as int]));
    let mut glyphs: Vec<Glyph> = Vec::new();
    let mut i: usize = 0;
    assert(glyph_models(glyphs@) =~= Seq::<GlyphModel>::empty());
    while i < alphabet.len()
        invariant
            i <= alphabet@.len(),
            alphabet@.len() > 0,
            models == record_models(records@),
            records_of(font_source@) == Some(models),
            first < records@.len(),
            record_for(models, alphabet@[0]) == Some(models[first as int]),
            width == models[first as int].width,
            height == models[first as int].height,
            selected(models, alphabet@, width as nat, height as nat, i as nat) == Some(
                glyph_models(glyphs@),
            ),
        decreases alphabet@.len() - i,
    {
        let c: char = alphabet[i];
        proof {
            if selected(models, alphabet@, width as nat, height as nat, (i + 1) as nat) is None {
                lemma_selected_fails_on(
                    models,
                    alphabet@,
                    width as nat,
                    height as nat,
                    (i + 1) as nat,
                    alphabet@.len(),
                );
            }
        }
        if !occurs_before(alphabet, i, c) {
            match find_record(&records, c as u32 as i64) {
                Some(k) => {
                    if records[k].width != width || records[k].height != height {
                        return Err(ConversionError::FontLoad);
                    }
                    let ghost before = glyphs@;
                    let glyph = Glyph::new(c, copy_bits(&records[k].mask));
                    glyphs.push(glyph);
                    assert(glyph_models(glyphs@) =~= glyph_models(before).push(
                        GlyphModel { ch: c, mask: models[k as int].mask },
                    ));
                },
                None => {
                    return Err(ConversionError::FontLoad);
                },
            }
        }
        i = i + 1;
    }
    Catalog::new(width, height, glyphs)
}

} // verus!
