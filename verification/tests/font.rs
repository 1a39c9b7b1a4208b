use image_to_ascii::bdf::{
    find_line_end, find_nth_word, find_word, find_word_end, load_font, read_number, read_records,
    span_equals,
};
use image_to_ascii::error::ConversionError;
use image_to_ascii::font::{Catalog, Glyph};

const FONT: &str = "STARTFONT 2.1\nFONT -test-medium\nSIZE 4 75 75\nFONTBOUNDINGBOX 3 2 0 0\nSTARTPROPERTIES 1\nFONT_ASCENT 2\nENDPROPERTIES\nCHARS 3\nSTARTCHAR space\nENCODING 32\nSWIDTH 500 0\nDWIDTH 3 0\nBBX 3 2 0 0\nBITMAP\n00\n00\nENDCHAR\nSTARTCHAR numbersign\nENCODING 35\nSWIDTH 500 0\nDWIDTH 3 0\nBBX 3 2 0 0\nBITMAP\nE0\nA0\nENDCHAR\nSTARTCHAR bar\nENCODING 124\nBBX 1 2 1 0\nBITMAP\n80\n80\nENDCHAR\nENDFONT\n";

fn chars(s: &str) -> Vec<char> {
    s.chars().collect()
}

#[test]
fn glyph_counts_its_set_pixels() {
    let g = Glyph::new('x', vec![true, false, true, true]);
    assert_eq!(g.ch(), 'x');
    assert_eq!(g.mask(), &vec![true, false, true, true]);
    assert_eq!(g.coverage(), 3);
    assert_eq!(Glyph::new(' ', vec![]).coverage(), 0);
}

#[test]
fn catalog_keeps_glyphs_in_order() {
    let font = Catalog::new(
        2,
        1,
        vec![Glyph::new('a', vec![true, false]), Glyph::new('b', vec![false, true])],
    )
    .unwrap();
    assert_eq!(font.cell_dimensions(), (2, 1));
    assert_eq!(font.len(), 2);
    assert_eq!(font.glyph(1).ch(), 'b');
    assert_eq!(font.position('a'), Some(0));
    assert_eq!(font.position('b'), Some(1));
    assert_eq!(font.position('c'), None);
    assert_eq!(font.glyph_for('b').unwrap().mask(), &vec![false, true]);
    assert!(font.glyph_for('z').is_none());
}

#[test]
fn catalog_refuses_what_is_not_well_formed() {
    let one = || vec![Glyph::new('a', vec![true, false])];
    assert!(Catalog::new(2, 1, one()).is_ok());
    assert_eq!(Catalog::new(0, 1, one()), Err(ConversionError::FontLoad));
    assert_eq!(Catalog::new(2, 0, one()), Err(ConversionError::FontLoad));
    assert_eq!(Catalog::new(0x10000, 1, one()), Err(ConversionError::FontLoad));
    assert_eq!(Catalog::new(1, 1, one()), Err(ConversionError::FontLoad));
    assert_eq!(Catalog::new(2, 1, vec![]), Err(ConversionError::FontLoad));
    let twice = vec![Glyph::new('a', vec![true, false]), Glyph::new('a', vec![false, true])];
    assert_eq!(Catalog::new(2, 1, twice), Err(ConversionError::FontLoad));
}

#[test]
fn font_source_yields_the_glyphs_of_the_alphabet() {
    let font = Catalog::load(FONT.as_bytes(), &chars("# ")).unwrap();
    assert_eq!(font.cell_dimensions(), (3, 2));
    assert_eq!(font.len(), 2);
    assert_eq!(font.glyph(0).ch(), '#');
    assert_eq!(font.glyph(0).mask(), &vec![true, true, true, true, false, true]);
    assert_eq!(font.glyph(0).coverage(), 5);
    assert_eq!(font.glyph(1).ch(), ' ');
    assert_eq!(font.glyph(1).mask(), &vec![false; 6]);
    assert_eq!(load_font(FONT.as_bytes(), &chars("# ")), Ok(font));
}

#[test]
fn repeated_alphabet_characters_count_once() {
    let font = Catalog::load(FONT.as_bytes(), &chars(" # # ")).unwrap();
    assert_eq!(font.len(), 2);
    assert_eq!(font.glyph(0).ch(), ' ');
    assert_eq!(font.glyph(1).ch(), '#');
}

#[test]
fn font_with_carriage_returns_and_tabs_loads() {
    let text = FONT.replace("\n", "\r\n").replace("BBX 3 2", "BBX\t3  2");
    let font = Catalog::load(text.as_bytes(), &chars("#")).unwrap();
    assert_eq!(font.glyph(0).mask(), &vec![true, true, true, true, false, true]);
}

#[test]
fn font_load_fails_on_missing_glyph() {
    assert_eq!(Catalog::load(FONT.as_bytes(), &chars("#a")), Err(ConversionError::FontLoad));
    assert_eq!(Catalog::load(FONT.as_bytes(), &chars("")), Err(ConversionError::FontLoad));
}

#[test]
fn font_load_fails_on_inconsistent_cells() {
    assert_eq!(Catalog::load(FONT.as_bytes(), &chars("#|")), Err(ConversionError::FontLoad));
    assert_eq!(Catalog::load(FONT.as_bytes(), &chars("|#")), Err(ConversionError::FontLoad));
    let bar = Catalog::load(FONT.as_bytes(), &chars("|")).unwrap();
    assert_eq!(bar.cell_dimensions(), (1, 2));
    assert_eq!(bar.glyph(0).mask(), &vec![true, true]);
}

#[test]
fn font_load_fails_on_malformed_source() {
    let a = chars("#");
    assert_eq!(Catalog::load(b"", &a), Err(ConversionError::FontLoad));
    assert_eq!(Catalog::load(b"hello", &a), Err(ConversionError::FontLoad));
    let no_start = FONT.replace("STARTFONT 2.1\n", "");
    assert_eq!(Catalog::load(no_start.as_bytes(), &a), Err(ConversionError::FontLoad));
    let open = FONT.replace("ENDCHAR\nENDFONT\n", "ENDFONT\n");
    assert_eq!(Catalog::load(open.as_bytes(), &a), Err(ConversionError::FontLoad));
    let bad_hex = FONT.replace("E0", "G0");
    assert_eq!(Catalog::load(bad_hex.as_bytes(), &a), Err(ConversionError::FontLoad));
    let short_row = FONT.replace("BBX 3 2 0 0\nBITMAP\nE0", "BBX 9 2 0 0\nBITMAP\nE0");
    assert_eq!(Catalog::load(short_row.as_bytes(), &a), Err(ConversionError::FontLoad));
    let few_rows = FONT.replace("E0\nA0\n", "E0\n");
    assert_eq!(Catalog::load(few_rows.as_bytes(), &a), Err(ConversionError::FontLoad));
    let no_code = FONT.replace("ENCODING 35\n", "");
    assert_eq!(Catalog::load(no_code.as_bytes(), &a), Err(ConversionError::FontLoad));
    let bad_number = FONT.replace("ENCODING 35", "ENCODING 3x");
    assert_eq!(Catalog::load(bad_number.as_bytes(), &a), Err(ConversionError::FontLoad));
    let negative = FONT.replace("BBX 3 2 0 0\nBITMAP\nE0", "BBX -3 2 0 0\nBITMAP\nE0");
    assert_eq!(Catalog::load(negative.as_bytes(), &a), Err(ConversionError::FontLoad));
    let nested = FONT.replace("ENCODING 35", "STARTCHAR again");
    assert_eq!(Catalog::load(nested.as_bytes(), &a), Err(ConversionError::FontLoad));
    let huge = FONT.replace("ENCODING 35", "ENCODING 2147483648");
    assert_eq!(Catalog::load(huge.as_bytes(), &a), Err(ConversionError::FontLoad));
}

#[test]
fn records_come_in_source_order() {
    let records = read_records(FONT.as_bytes()).unwrap();
    assert_eq!(records.len(), 3);
    assert_eq!(records[0].code, 32);
    assert_eq!(records[1].code, 35);
    assert_eq!((records[1].width, records[1].height), (3, 2));
    assert_eq!(records[2].code, 124);
    assert_eq!(records[2].mask, vec![true, true]);
    let unencoded = FONT.replace("ENCODING 124", "ENCODING -1");
    assert_eq!(read_records(unencoded.as_bytes()).unwrap()[2].code, -1);
    assert!(read_records(b"STARTFONT 2.1").unwrap().is_empty());
    assert!(read_records(b"STARTCHAR a\nENDCHAR\n").is_none());
}

#[test]
fn first_record_of_a_code_point_wins() {
    let twice = FONT.replace("ENCODING 124", "ENCODING 35").replace("BBX 1 2 1 0", "BBX 3 2 0 0");
    let font = Catalog::load(twice.as_bytes(), &chars("#")).unwrap();
    assert_eq!(font.glyph(0).mask(), &vec![true, true, true, true, false, true]);
}

#[test]
fn lines_and_words_are_found() {
    let src = b"ab  cd\tef\r\n gh";
    assert_eq!(find_line_end(src, 0), 10);
    assert_eq!(find_line_end(src, 10), 10);
    assert_eq!(find_line_end(src, 11), 14);
    assert_eq!(find_word(src, 2, 10), 4);
    assert_eq!(find_word(src, 9, 10), 10);
    assert_eq!(find_word_end(src, 0, 10), 2);
    assert_eq!(find_word_end(src, 7, 10), 9);
    assert_eq!(find_nth_word(src, 0, 10, 0), (0, 2));
    assert_eq!(find_nth_word(src, 0, 10, 1), (4, 6));
    assert_eq!(find_nth_word(src, 0, 10, 2), (7, 9));
    assert_eq!(find_nth_word(src, 0, 10, 3), (10, 10));
    assert_eq!(find_nth_word(src, 11, 14, 0), (12, 14));
    assert!(span_equals(src, 4, 6, "cd"));
    assert!(!span_equals(src, 4, 6, "cdx"));
    assert!(!span_equals(src, 4, 6, "ce"));
    assert!(span_equals(src, 3, 3, ""));
}

#[test]
fn numbers_are_read_within_bounds() {
    assert_eq!(read_number(b"123", 0, 3), Some(123));
    assert_eq!(read_number(b"-45", 0, 3), Some(-45));
    assert_eq!(read_number(b"0007", 0, 4), Some(7));
    assert_eq!(read_number(b"2147483647", 0, 10), Some(2147483647));
    assert_eq!(read_number(b"-2147483647", 0, 11), Some(-2147483647));
    assert_eq!(read_number(b"2147483648", 0, 10), None);
    assert_eq!(read_number(b"99999999999999999999999", 0, 23), None);
    assert_eq!(read_number(b"", 0, 0), None);
    assert_eq!(read_number(b"-", 0, 1), None);
    assert_eq!(read_number(b"1a", 0, 2), None);
    assert_eq!(read_number(b"+1", 0, 2), None);
    assert_eq!(read_number(b"x12y", 1, 3), Some(12));
}
