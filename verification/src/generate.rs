//! From a request to an artifact: what a run is asked to do, what it reads
//! and writes, and the run itself on values in memory. Fetching the image,
//! reading font and alphabet files and writing the artifact are the caller's.

use vstd::prelude::*;
use vstd::string::*;
use crate::animation::{assemble, frame_models, frame_period, period_us, Animation, AnimationModel};
use crate::bdf::loaded;
use crate::codec::{
    animation_of, decode_frames, decode_image, frames_to_json, is_radiance, json_array,
};
use crate::convert::{
    conversion_outcome, img_to_char_rows, lemma_conversion_dimensions, Adjustment,
};
use crate::error::ConversionError;
use crate::font::{Catalog, CatalogModel};
use crate::frame::{Frame, FrameModel};
use crate::grid::{rectangular, CharGrid};
use crate::metrics::{get_converter, metric_named, Metric};
use crate::render::{
    bitmap_fits, char_rows_to_bitmap, char_rows_to_color_bitmap, char_rows_to_string,
    is_bitmap_of, marked_text, plain_text, render_marked, Markup,
};
use crate::text::{str_equals, str_starts_with, strings_view};

verus! {

/// What a run is asked to do.
#[derive(Debug)]
pub struct Params<'a> {
    /// Where the image is fetched from: an `http://` or `https://` address.
    pub image_url: &'a str,
    /// Name of a built-in font, or path of a font file.
    pub font: &'a str,
    /// Name of a built-in alphabet, or path of an alphabet file.
    pub alphabet: &'a str,
    /// Number of output columns.
    pub width: usize,
    /// Name of the similarity metric.
    pub metric: &'a str,
    /// Number of workers that share the rows of a frame.
    pub threads: usize,
    /// Whether the output is without colour.
    pub no_color: bool,
    /// Added to every luminance value, on the scale 0 to 255.
    pub brightness_offset: i32,
    /// Largest perturbation that noise adds to a luminance value.
    pub noise_scale: u8,
    /// Selects the noise pattern.
    pub noise_seed: u64,
    /// Where the artifact goes; without it, to the terminal.
    pub out_path: Option<&'a str>,
    /// Frame rate in thousandths of a frame per second.
    pub fps_millis: u64,
    /// Whether edge detection is switched off.
    pub no_edge_detection: bool,
}

/// Whether the address names a resource that is fetched over the network.
pub open spec fn remote(url: Seq<char>) -> bool {
    "http://"@.is_prefix_of(url) || "https://"@.is_prefix_of(url)
}

/// Tells whether the address begins with `http://` or `https://`.
pub fn is_remote_url(url: &str) -> (r: bool)
    ensures
        r == remote(url@),
{
    str_starts_with(url, "http://") || str_starts_with(url, "https://")
}

/// Position of the last `c` in `s`, or -1 where there is none.
pub open spec fn last_index_of(s: Seq<char>, c: char) -> int
    decreases s.len(),
{
    if s.len() == 0 {
        -1
    } else if s.last() == c {
        s.len() - 1
    } else {
        last_index_of(s.drop_last(), c)
    }
}

/// The path without the slashes at its end.
pub open spec fn trim_slashes(path: Seq<char>) -> Seq<char>
    decreases path.len(),
{
    if path.len() > 0 && path.last() == '/' {
        trim_slashes(path.drop_last())
    } else {
        path
    }
}

/// The last component of a path: what follows the last slash, slashes at
/// the end of the path being passed over.
pub open spec fn file_name(path: Seq<char>) -> Seq<char> {
    trim_slashes(path).subrange(
        last_index_of(trim_slashes(path), '/') + 1,
        trim_slashes(path).len() as int,
    )
}

/// The extension of a path: what follows the last dot of its last component.
/// A component without a dot, or with its only dot in front, has none, and
/// neither has the component `..`.
pub open spec fn extension_of(path: Seq<char>) -> Option<Seq<char>> {
    let name = file_name(path);
    let dot = last_index_of(name, '.');
    if dot <= 0 || name == seq!['.', '.'] {
        None
    } else {
        Some(name.subrange(dot + 1, name.len() as int))
    }
}

/// The last position of a character is inside the sequence.
pub proof fn lemma_last_index_of(s: Seq<char>, c: char)
    ensures
        -1 <= last_index_of(s, c) < s.len(),
        last_index_of(s, c) >= 0 ==> s[last_index_of(s, c)] == c,
    decreases s.len(),
{
    if s.len() > 0 && s.last() != c {
        lemma_last_index_of(s.drop_last(), c);
    }
}

/// Finds the last `c` among the characters of `s` from `lo` to `hi`.
fn find_last(s: &str, lo: usize, hi: usize, c: char) -> (r: Option<usize>)
    requires
        lo <= hi <= s@.len(),
    ensures
        match r {
            Some(i) => lo <= i < hi && last_index_of(s@.subrange(lo as int, hi as int), c) == i
                - lo,
            None => last_index_of(s@.subrange(lo as int, hi as int), c) == -1,
        },
{
    let ghost part = s@.subrange(lo as int, hi as int);
    let mut i: usize = hi;
    assert(part.take(hi - lo) =~= part);
    while i > lo
        invariant
            lo <= i <= hi <= s@.len(),
            part == s@.subrange(lo as int, hi as int),
            last_index_of(part, c) == last_index_of(part.take(i - lo), c),
        decreases i - lo,
    {
        proof {
            assert(part.take(i - lo).last() == s@[i - 1]);
            assert(part.take(i - lo).drop_last() =~= part.take(i - lo - 1));
        }
        if s.get_char(i - 1) == c {
            return Some(i - 1);
        }
        i = i - 1;
    }
    assert(part.take(0).len() == 0);
    None
}

/// Finds the extension of a path.
pub fn extension<'a>(path: &'a str) -> (r: Option<&'a str>)
    ensures
        match r {
            Some(e) => extension_of(path@) == Some(e@),
            None => extension_of(path@) is None,
        },
{
    let mut n: usize = path.unicode_len();
    assert(path@.take(n as int) =~= path@);
    while n > 0 && path.get_char(n - 1) == '/'
        invariant
            n <= path@.len(),
            trim_slashes(path@) == trim_slashes(path@.take(n as int)),
        decreases n,
    {
        assert(path@.take(n as int).drop_last() =~= path@.take(n - 1));
        n = n - 1;
    }
    assert(trim_slashes(path@) == path@.take(n as int)) by {
        if n > 0 {
            assert(path@.take(n as int).last() == path@[n - 1]);
        }
    }
    let start: usize = match find_last(path, 0, n, '/') {
        Some(i) => i + 1,
        None => 0,
    };
    assert(path@.subrange(0, n as int) =~= path@.take(n as int));
    let ghost name = file_name(path@);
    assert(name =~= path@.subrange(start as int, n as int));
    match find_last(path, start, n, '.') {
        Some(dot) => {
            if dot == start || (n - start == 2 && dot == start + 1 && path.get_char(start)
                == '.') {
                proof {
                    lemma_last_index_of(name, '.');
                    if dot != start {
                        assert(name.len() == 2);
                        assert(name[0] == '.');
                        assert(name[1] == '.');
                        assert(name =~= seq!['.', '.']);
                    }
                }
                None
            } else {
                assert(name != seq!['.', '.']) by {
                    if name == seq!['.', '.'] {
                        assert(name.len() == 2);
                        assert(name[0] == '.');
                        assert(name[1] == '.');
                    }
                }
                let e = path.substring_char(dot + 1, n);
                assert(e@ =~= name.subrange(dot - start + 1, name.len() as int));
                Some(e)
            }
        },
        None => None,
    }
}

/// What kind of image an address names.
#[derive(Clone, Copy, Debug, PartialEq, Eq, Structural)]
pub enum InputKind {
    /// A single picture.
    Still,
    /// An animation, which a terminal plays in a loop.
    Animated,
}

/// Where the artifact of a run goes, and in which form.
#[derive(Clone, Copy, Debug, PartialEq, Eq, Structural)]
pub enum OutputTarget {
    /// Text on the terminal.
    Terminal,
    /// A file that holds the frames' texts as an array of strings.
    Json,
    /// A file that holds an animation of bitmaps.
    AnimatedImage,
    /// A file that holds the bitmap of the first frame.
    StillImage,
}

/// The kind of image that an address names: animated for the extension
/// `gif`, still for any other, and none without an extension.
pub open spec fn input_kind_of(url: Seq<char>) -> Option<InputKind> {
    match extension_of(url) {
        Some(e) => if e == "gif"@ {
            Some(InputKind::Animated)
        } else {
            Some(InputKind::Still)
        },
        None => None,
    }
}

/// The target that an output path names: the terminal without a path;
/// with one, by its extension `json` or `gif`, a still image for any other
/// extension, and none without an extension.
pub open spec fn output_target_of(out_path: Option<Seq<char>>) -> Option<OutputTarget> {
    match out_path {
        None => Some(OutputTarget::Terminal),
        Some(p) => match extension_of(p) {
            Some(e) => if e == "json"@ {
                Some(OutputTarget::Json)
            } else if e == "gif"@ {
                Some(OutputTarget::AnimatedImage)
            } else {
                Some(OutputTarget::StillImage)
            },
            None => None,
        },
    }
}

/// Tells what kind of image an address names.
pub fn input_kind(url: &str) -> (r: Option<InputKind>)
    ensures
        r == input_kind_of(url@),
{
    match extension(url) {
        Some(e) => if str_equals(e, "gif") {
            Some(InputKind::Animated)
        } else {
            Some(InputKind::Still)
        },
        None => None,
    }
}

/// The characters of an optional string.
pub open spec fn opt_view(s: Option<&str>) -> Option<Seq<char>> {
    match s {
        Some(p) => Some(p@),
        None => None,
    }
}

/// Tells where the artifact goes.
pub fn output_target(out_path: Option<&str>) -> (r: Option<OutputTarget>)
    ensures
        r == output_target_of(opt_view(out_path)),
{
    match out_path {
        None => Some(OutputTarget::Terminal),
        Some(p) => match extension(p) {
            Some(e) => if str_equals(e, "json") {
                Some(OutputTarget::Json)
            } else if str_equals(e, "gif") {
                Some(OutputTarget::AnimatedImage)
            } else {
                Some(OutputTarget::StillImage)
            },
            None => None,
        },
    }
}

/// The alphabets that have a name.
#[derive(Clone, Copy, Debug, PartialEq, Eq, Structural)]
pub enum NamedAlphabet {
    Alphabet,
    Letters,
    Lowercase,
    Minimal,
    Symbols,
    Uppercase,
}

/// The fonts that have a name.
#[derive(Clone, Copy, Debug, PartialEq, Eq, Structural)]
pub enum NamedFont {
    Courier,
    Bitocra13,
}

/// The alphabet that a name denotes.
pub open spec fn alphabet_named(name: Seq<char>) -> Option<NamedAlphabet> {
    if name == "alphabet"@ {
        Some(NamedAlphabet::Alphabet)
    } else if name == "letters"@ {
        Some(NamedAlphabet::Letters)
    } else if name == "lowercase"@ {
        Some(NamedAlphabet::Lowercase)
    } else if name == "minimal"@ {
        Some(NamedAlphabet::Minimal)
    } else if name == "symbols"@ {
        Some(NamedAlphabet::Symbols)
    } else if name == "uppercase"@ {
        Some(NamedAlphabet::Uppercase)
    } else {
        None
    }
}

/// The font that a name denotes.
pub open spec fn font_named(name: Seq<char>) -> Option<NamedFont> {
    if name == "courier"@ {
        Some(NamedFont::Courier)
    } else if name == "bitocra-13"@ {
        Some(NamedFont::Bitocra13)
    } else {
        None
    }
}

/// Finds the alphabet of that name. Any other text is the path of a file.
pub fn named_alphabet(name: &str) -> (r: Option<NamedAlphabet>)
    ensures
        r == alphabet_named(name@),
{
    if str_equals(name, "alphabet") {
        Some(NamedAlphabet::Alphabet)
    } else if str_equals(name, "letters") {
        Some(NamedAlphabet::Letters)
    } else if str_equals(name, "lowercase") {
        Some(NamedAlphabet::Lowercase)
    } else if str_equals(name, "minimal") {
        Some(NamedAlphabet::Minimal)
    } else if str_equals(name, "symbols") {
        Some(NamedAlphabet::Symbols)
    } else if str_equals(name, "uppercase") {
        Some(NamedAlphabet::Uppercase)
    } else {
        None
    }
}

/// Finds the font of that name. Any other text is the path of a file.
pub fn named_font(name: &str) -> (r: Option<NamedFont>)
    ensures
        r == font_named(name@),
{
    if str_equals(name, "courier") {
        Some(NamedFont::Courier)
    } else if str_equals(name, "bitocra-13") {
        Some(NamedFont::Bitocra13)
    } else {
        None
    }
}

/// The characters of an alphabet file: each byte is one character.
pub open spec fn alphabet_of(bytes: Seq<u8>) -> Seq<char> {
    Seq::new(bytes.len(), |i: int| bytes[i] as char)
}

/// Reads an alphabet from the bytes of its file.
pub fn alphabet_from_bytes(bytes: &[u8]) -> (chars: Vec<char>)
    ensures
        chars@ == alphabet_of(bytes@),
{
    let mut chars: Vec<char> = Vec::new();
    let mut i: usize = 0;
    while i < bytes.len()
        invariant
            i <= bytes@.len(),
            chars@.len() == i,
            forall|k: int| 0 <= k < i ==> chars@[k] == bytes@[k] as char,
        decreases bytes@.len() - i,
    {
        chars.push(bytes[i] as char);
        i = i + 1;
    }
    assert(chars@ =~= alphabet_of(bytes@));
    chars
}

/// A request that has been found valid: what is to be done, in the
/// library's own terms.
#[derive(Clone, Copy, Debug)]
pub struct Job {
    pub input: InputKind,
    pub target: OutputTarget,
    pub metric: Metric,
    pub width: usize,
    pub adjustment: Adjustment,
    pub threads: usize,
    pub color: bool,
    pub fps_millis: u64,
}

/// The job that a request describes, or the reason for which it is refused:
/// `InvalidConfiguration` for an address that is not remote or has no
/// extension and for an output path without extension; else `UnknownMetric`
/// for an unknown metric; else `InvalidConfiguration` for a width or a frame
/// rate of zero; else `InvalidThreadCount` for no worker.
pub open spec fn planned(args: &Params) -> Result<Job, ConversionError> {
    if !remote(args.image_url@) || input_kind_of(args.image_url@) is None || output_target_of(
        opt_view(args.out_path),
    ) is None {
        Err(ConversionError::InvalidConfiguration)
    } else if metric_named(args.metric@) is None {
        Err(ConversionError::UnknownMetric)
    } else if args.width == 0 || args.fps_millis == 0 {
        Err(ConversionError::InvalidConfiguration)
    } else if args.threads == 0 {
        Err(ConversionError::InvalidThreadCount)
    } else {
        Ok(
            Job {
                input: input_kind_of(args.image_url@)->Some_0,
                target: output_target_of(opt_view(args.out_path))->Some_0,
                metric: metric_named(args.metric@)->Some_0,
                width: args.width,
                adjustment: Adjustment {
                    brightness_offset: args.brightness_offset,
                    noise_scale: args.noise_scale,
                    noise_seed: args.noise_seed,
                    edge_detection: !args.no_edge_detection,
                },
                threads: args.threads,
                color: !args.no_color,
                fps_millis: args.fps_millis,
            },
        )
    }
}

/// Validates a request.
pub fn plan(args: &Params) -> (r: Result<Job, ConversionError>)
    ensures
        r == planned(args),
{
    if !is_remote_url(args.image_url) {
        return Err(ConversionError::InvalidConfiguration);
    }
    let input = match input_kind(args.image_url) {
        Some(k) => k,
        None => {
            return Err(ConversionError::InvalidConfiguration);
        },
    };
    let target = match output_target(args.out_path) {
        Some(t) => t,
        None => {
            return Err(ConversionError::InvalidConfiguration);
        },
    };
    let metric = match get_converter(args.metric) {
        Ok(m) => m,
        Err(e) => {
            return Err(e);
        },
    };
    if args.width == 0 || args.fps_millis == 0 {
        return Err(ConversionError::InvalidConfiguration);
    }
    if args.threads == 0 {
        return Err(ConversionError::InvalidThreadCount);
    }
    Ok(
        Job {
            input,
            target,
            metric,
            width: args.width,
            adjustment: Adjustment {
                brightness_offset: args.brightness_offset,
                noise_scale: args.noise_scale,
                noise_seed: args.noise_seed,
                edge_detection: !args.no_edge_detection,
            },
            threads: args.threads,
            color: !args.no_color,
            fps_millis: args.fps_millis,
        },
    )
}

/// What a run hands to the one who writes it out.
#[derive(Debug, PartialEq, Eq)]
pub enum Artifact {
    /// Text that is printed once.
    Text(String),
    /// Texts that a terminal shows one after the other, again and again, and
    /// the time in microseconds from one to the next.
    Playback(Vec<String>, u64),
    /// The text of a JSON file.
    Json(String),
    /// The frames and the delay of an animated image file.
    Animation(Animation),
    /// The pixels of an image file.
    Image(Frame),
}

/// The mathematical content of an artifact.
pub enum ArtifactModel {
    Text(Seq<char>),
    Playback(Seq<Seq<char>>, nat),
    Json(Seq<char>),
    Animation(AnimationModel),
    Image(FrameModel),
}

impl View for Artifact {
    type V = ArtifactModel;

    open spec fn view(&self) -> ArtifactModel {
        match self {
            Artifact::Text(s) => ArtifactModel::Text(s@),
            Artifact::Playback(v, p) => ArtifactModel::Playback(strings_view(v@), *p as nat),
            Artifact::Json(s) => ArtifactModel::Json(s@),
            Artifact::Animation(a) => ArtifactModel::Animation(a@),
            Artifact::Image(f) => ArtifactModel::Image(f@),
        }
    }
}

/// The content of a run's result.
pub open spec fn result_view(r: Result<Artifact, ConversionError>) -> Result<
    ArtifactModel,
    ConversionError,
> {
    match r {
        Ok(a) => Ok(a@),
        Err(e) => Err(e),
    }
}

/// The text of a grid: in the colours of the frame, or plain.
pub open spec fn text_of_grid(color: bool, kind: Markup, grid: Seq<Seq<char>>, frame: FrameModel) -> Seq<
    char,
> {
    if color {
        marked_text(kind, grid, frame)
    } else {
        plain_text(grid)
    }
}

/// Whether the bitmap of a grid of the job's width can be held.
pub open spec fn grid_fits(job: Job, font: CatalogModel, grid: Seq<Seq<char>>) -> bool {
    bitmap_fits(grid.len(), job.width as nat, font)
}

/// Whether `f` is the bitmap of a grid of the job's width: in the frame's
/// colours, or in black.
pub open spec fn bitmap_of_grid(
    job: Job,
    font: CatalogModel,
    grid: Seq<Seq<char>>,
    frame: FrameModel,
    f: FrameModel,
) -> bool {
    is_bitmap_of(
        f,
        grid,
        job.width as nat,
        font,
        if job.color {
            Some(frame)
        } else {
            None
        },
    )
}

/// Whether the grids can be rendered over the frames: there is one grid for
/// each frame, with at least one row and with rows of the job's width, and
/// every frame has pixels.
pub open spec fn renderable(job: Job, frames: Seq<FrameModel>, grids: Seq<Seq<Seq<char>>>) -> bool {
    &&& grids.len() == frames.len()
    &&& forall|i: int|
        0 <= i < grids.len() ==> (#[trigger] grids[i]).len() >= 1 && rectangular(
            grids[i],
            job.width as nat,
        ) && frames[i].width >= 1 && frames[i].height >= 1
}

/// Whether `r` is what rendering the grids of the frames yields for the job.
///
/// It fails with `InvalidConfiguration` for a frame rate of zero, else with
/// `EmptyImage` without a frame, else with `InvalidConfiguration` where the
/// grids are not renderable. Otherwise, for the terminal the result is the
/// first grid's text, or for an animated input the texts of all grids with
/// the frame period; for a JSON file the encoder's text for the grids'
/// web-page texts; for an animated
/// image the grids' bitmaps with the frame period, and for a still image the
/// first grid's bitmap, or `InvalidConfiguration` where a bitmap cannot be held.
pub open spec fn is_render_result(
    job: Job,
    font: CatalogModel,
    frames: Seq<FrameModel>,
    grids: Seq<Seq<Seq<char>>>,
    r: Result<ArtifactModel, ConversionError>,
) -> bool {
    if job.fps_millis == 0 {
        r == Err::<ArtifactModel, ConversionError>(ConversionError::InvalidConfiguration)
    } else if frames.len() == 0 {
        r == Err::<ArtifactModel, ConversionError>(ConversionError::EmptyImage)
    } else if !renderable(job, frames, grids) {
        r == Err::<ArtifactModel, ConversionError>(ConversionError::InvalidConfiguration)
    } else {
        match job.target {
            OutputTarget::Terminal => r == Ok::<ArtifactModel, ConversionError>(
                if job.input == InputKind::Animated {
                    ArtifactModel::Playback(
                        Seq::new(
                            frames.len(),
                            |i: int|
                                text_of_grid(job.color, Markup::Terminal, grids[i], frames[i]),
                        ),
                        period_us(job.fps_millis as nat),
                    )
                } else {
                    ArtifactModel::Text(
                        text_of_grid(job.color, Markup::Terminal, grids[0], frames[0]),
                    )
                },
            ),
            OutputTarget::Json => r == Ok::<ArtifactModel, ConversionError>(
                ArtifactModel::Json(
                    json_array(
                        Seq::new(
                            frames.len(),
                            |i: int| text_of_grid(job.color, Markup::Html, grids[i], frames[i]),
                        ),
                    ),
                ),
            ),
            OutputTarget::AnimatedImage => if forall|i: int|
                0 <= i < grids.len() ==> grid_fits(job, font, #[trigger] grids[i]) {
                &&& r matches Ok(ArtifactModel::Animation(a))
                &&& a.delay_us == period_us(job.fps_millis as nat)
                &&& a.frames.len() == frames.len()
                &&& forall|i: int|
                    0 <= i < frames.len() ==> bitmap_of_grid(
                        job,
                        font,
                        grids[i],
                        frames[i],
                        #[trigger] a.frames[i],
                    )
            } else {
                r == Err::<ArtifactModel, ConversionError>(ConversionError::InvalidConfiguration)
            },
            OutputTarget::StillImage => if grid_fits(job, font, grids[0]) {
                r matches Ok(ArtifactModel::Image(f)) && bitmap_of_grid(
                    job,
                    font,
                    grids[0],
                    frames[0],
                    f,
                )
            } else {
                r == Err::<ArtifactModel, ConversionError>(ConversionError::InvalidConfiguration)
            },
        }
    }
}

/// The contents of a sequence of grids.
pub open spec fn grid_models(grids: Seq<CharGrid>) -> Seq<Seq<Seq<char>>> {
    Seq::new(grids.len(), |i: int| grids[i]@)
}

/// Tells whether the grids can be rendered over the frames.
fn can_render(job: &Job, frames: &Vec<Frame>, grids: &Vec<CharGrid>) -> (ok: bool)
    ensures
        ok == renderable(*job, frame_models(frames@), grid_models(grids@)),
        ok ==> forall|i: int| 0 <= i < grids@.len() ==> (#[trigger] grids@[i]).spec_cols() == job.width,
{
    let ghost fm = frame_models(frames@);
    let ghost gm = grid_models(grids@);
    if grids.len() != frames.len() {
        return false;
    }
    let mut i: usize = 0;
    while i < grids.len()
        invariant
            i <= grids@.len(),
            grids@.len() == frames@.len(),
            fm == frame_models(frames@),
            gm == grid_models(grids@),
            forall|k: int|
                0 <= k < i ==> (#[trigger] gm[k]).len() >= 1 && rectangular(gm[k], job.width as nat)
                    && fm[k].width >= 1 && fm[k].height >= 1,
            forall|k: int| 0 <= k < i ==> (#[trigger] grids@[k]).spec_cols() == job.width,
        decreases grids@.len() - i,
    {
        let cols: usize = grids[i].width();
        let rows: usize = grids[i].height();
        if rows < 1 || cols != job.width || frames[i].width() < 1 || frames[i].height() < 1 {
            proof {
                assert(gm[i as int] == grids@[i as int]@);
                assert(fm[i as int] == frames@[i as int]@);
                if rows >= 1 && cols != job.width {
                    assert(gm[i as int][0].len() == cols);
                }
            }
            return false;
        }
        assert(gm[i as int] == grids@[i as int]@);
        assert(fm[i as int] == frames@[i as int]@);
        i = i + 1;
    }
    true
}

/// Renders the text of every grid.
fn frame_texts(color: bool, kind: Markup, grids: &Vec<CharGrid>, frames: &Vec<Frame>) -> (texts:
    Vec<String>)
    requires
        grids@.len() == frames@.len(),
        forall|i: int|
            0 <= i < frames@.len() ==> (#[trigger] frames@[i])@.width >= 1 && frames@[i]@.height
                >= 1,
    ensures
        strings_view(texts@) == Seq::new(
            frames@.len(),
            |i: int|
                text_of_grid(color, kind, grid_models(grids@)[i], frame_models(frames@)[i]),
        ),
{
    let mut texts: Vec<String> = Vec::new();
    let mut i: usize = 0;
    while i < frames.len()
        invariant
            i <= frames@.len(),
            grids@.len() == frames@.len(),
            forall|k: int|
                0 <= k < frames@.len() ==> (#[trigger] frames@[k])@.width >= 1
                    && frames@[k]@.height >= 1,
            texts@.len() == i,
            forall|k: int|
                0 <= k < i ==> (#[trigger] texts@[k])@ == text_of_grid(
                    color,
                    kind,
                    grids@[k]@,
                    frames@[k]@,
                ),
        decreases frames@.len() - i,
    {
        assert(frames@[i as int]@.width >= 1);
        let text = if color {
            match render_marked(kind, &grids[i], &frames[i]) {
                Ok(s) => s,
                Err(_) => String::new(),
            }
        } else {
            char_rows_to_string(&grids[i])
        };
        texts.push(text);
        i = i + 1;
    }
    assert(strings_view(texts@) =~= Seq::new(
        frames@.len(),
        |i: int| text_of_grid(color, kind, grid_models(grids@)[i], frame_models(frames@)[i]),
    ));
    texts
}

/// Renders the bitmap of one grid.
fn frame_bitmap(job: &Job, font: &Catalog, grid: &CharGrid, frame: &Frame) -> (r: Result<
    Frame,
    ConversionError,
>)
    requires
        grid.spec_cols() == job.width,
        frame@.width >= 1,
        frame@.height >= 1,
    ensures
        r is Ok <==> grid_fits(*job, font@, grid@),
        r matches Ok(f) ==> bitmap_of_grid(*job, font@, grid@, frame@, f@),
        r matches Err(e) ==> e == ConversionError::InvalidConfiguration,
{
    if job.color {
        char_rows_to_color_bitmap(grid, font, frame)
    } else {
        char_rows_to_bitmap(grid, font)
    }
}

/// Renders the bitmap of every grid.
fn frame_bitmaps(job: &Job, font: &Catalog, grids: &Vec<CharGrid>, frames: &Vec<Frame>) -> (r:
    Result<Vec<Frame>, ConversionError>)
    requires
        grids@.len() == frames@.len(),
        forall|i: int| 0 <= i < grids@.len() ==> (#[trigger] grids@[i]).spec_cols() == job.width,
        forall|i: int|
            0 <= i < frames@.len() ==> (#[trigger] frames@[i])@.width >= 1 && frames@[i]@.height
                >= 1,
    ensures
        r is Ok <==> (forall|i: int|
            0 <= i < grids@.len() ==> grid_fits(*job, font@, #[trigger] grid_models(grids@)[i])),
        r matches Ok(bitmaps) ==> bitmaps@.len() == frames@.len() && forall|i: int|
            0 <= i < frames@.len() ==> bitmap_of_grid(
                *job,
                font@,
                grids@[i]@,
                frames@[i]@,
                (#[trigger] bitmaps@[i])@,
            ),
        r matches Err(e) ==> e == ConversionError::InvalidConfiguration,
{
    let ghost gm = grid_models(grids@);
    let mut bitmaps: Vec<Frame> = Vec::new();
    let mut i: usize = 0;
    while i < frames.len()
        invariant
            i <= frames@.len(),
            gm == grid_models(grids@),
            grids@.len() == frames@.len(),
            forall|k: int|
                0 <= k < grids@.len() ==> (#[trigger] grids@[k]).spec_cols() == job.width,
            forall|k: int|
                0 <= k < frames@.len() ==> (#[trigger] frames@[k])@.width >= 1
                    && frames@[k]@.height >= 1,
            bitmaps@.len() == i,
            forall|k: int| 0 <= k < i ==> grid_fits(*job, font@, #[trigger] gm[k]),
            forall|k: int|
                0 <= k < i ==> bitmap_of_grid(
                    *job,
                    font@,
                    grids@[k]@,
                    frames@[k]@,
                    (#[trigger] bitmaps@[k])@,
                ),
        decreases frames@.len() - i,
    {
        assert(grids@[i as int].spec_cols() == job.width);
        assert(frames@[i as int]@.width >= 1);
        match frame_bitmap(job, font, &grids[i], &frames[i]) {
            Ok(f) => {
                bitmaps.push(f);
                assert(gm[i as int] == grids@[i as int]@);
            },
            Err(e) => {
                assert(!grid_fits(*job, font@, gm[i as int]));
                return Err(e);
            },
        }
        i = i + 1;
    }
    Ok(bitmaps)
}

/// Renders grids that were converted from the frames for the job's target.
pub fn render(job: &Job, font: &Catalog, frames: &Vec<Frame>, grids: &Vec<CharGrid>) -> (r: Result<
    Artifact,
    ConversionError,
>)
    ensures
        is_render_result(
            *job,
            font@,
            frame_models(frames@),
            grid_models(grids@),
            result_view(r),
        ),
{
    let ghost fm = frame_models(frames@);
    let ghost gm = grid_models(grids@);
    let period: u64 = match frame_period(job.fps_millis) {
        Ok(p) => p,
        Err(e) => {
            return Err(e);
        },
    };
    if frames.len() == 0 {
        return Err(ConversionError::EmptyImage);
    }
    if !can_render(job, frames, grids) {
        return Err(ConversionError::InvalidConfiguration);
    }
    proof {
        assert forall|i: int| 0 <= i < frames@.len() implies (#[trigger] frames@[i])@.width >= 1
            && frames@[i]@.height >= 1 by {
            assert(gm[i].len() >= 1);
            assert(fm[i] == frames@[i]@);
        }
        assert(gm[0] == grids@[0]@);
        assert(fm[0] == frames@[0]@);
    }
    match job.target {
        OutputTarget::Terminal => {
            let mut texts = frame_texts(job.color, Markup::Terminal, grids, frames);
            if job.input == InputKind::Animated {
                Ok(Artifact::Playback(texts, period))
            } else {
                assert(strings_view(texts@).len() == frames@.len());
                assert(strings_view(texts@).len() == texts@.len());
                assert(strings_view(texts@)[0] == texts@[0]@);
                let first = texts.swap_remove(0);
                Ok(Artifact::Text(first))
            }
        },
        OutputTarget::Json => {
            let texts = frame_texts(job.color, Markup::Html, grids, frames);
            Ok(Artifact::Json(frames_to_json(&texts)))
        },
        OutputTarget::AnimatedImage => {
            match frame_bitmaps(job, font, grids, frames) {
                Ok(bitmaps) => {
                    match assemble(bitmaps, job.fps_millis) {
                        Ok(a) => {
                            proof {
                                assert forall|i: int| 0 <= i < fm.len() implies bitmap_of_grid(
                                    *job,
                                    font@,
                                    gm[i],
                                    fm[i],
                                    #[trigger] a@.frames[i],
                                ) by {
                                    assert(a@.frames[i] == bitmaps@[i]@);
                                }
                            }
                            Ok(Artifact::Animation(a))
                        },
                        Err(e) => Err(e),
                    }
                },
                Err(e) => Err(e),
            }
        },
        OutputTarget::StillImage => {
            assert(grids@[0].spec_cols() == job.width);
            match frame_bitmap(job, font, &grids[0], &frames[0]) {
                Ok(f) => Ok(Artifact::Image(f)),
                Err(e) => Err(e),
            }
        },
    }
}

/// What converting one frame for the job yields.
pub open spec fn grid_of(job: Job, font: CatalogModel, frame: FrameModel) -> Result<
    Seq<Seq<char>>,
    ConversionError,
> {
    conversion_outcome(
        font,
        frame,
        job.metric,
        job.width as nat,
        job.adjustment,
        job.threads as nat,
    )
}

/// Whether every frame can be converted.
pub open spec fn all_convert(job: Job, font: CatalogModel, frames: Seq<FrameModel>) -> bool {
    forall|i: int| 0 <= i < frames.len() ==> grid_of(job, font, #[trigger] frames[i]) is Ok
}

/// Whether `e` is the failure of the first frame that cannot be converted.
pub open spec fn first_failure(
    job: Job,
    font: CatalogModel,
    frames: Seq<FrameModel>,
    e: ConversionError,
) -> bool {
    exists|i: int|
        0 <= i < frames.len() && grid_of(job, font, #[trigger] frames[i]) == Err::<
            Seq<Seq<char>>,
            ConversionError,
        >(e) && all_convert(job, font, frames.take(i))
}

/// Whether `r` is what the job yields for the frames with the catalog.
///
/// It fails with `InvalidConfiguration` for a frame rate of zero, else with
/// `EmptyImage` without a frame, else with the failure of the first frame
/// that cannot be converted. With all frames converted, it is what rendering
/// their grids yields.
pub open spec fn is_run_result(
    job: Job,
    font: CatalogModel,
    frames: Seq<FrameModel>,
    r: Result<ArtifactModel, ConversionError>,
) -> bool {
    if job.fps_millis == 0 {
        r == Err::<ArtifactModel, ConversionError>(ConversionError::InvalidConfiguration)
    } else if frames.len() == 0 {
        r == Err::<ArtifactModel, ConversionError>(ConversionError::EmptyImage)
    } else if !all_convert(job, font, frames) {
        r matches Err(e) && first_failure(job, font, frames, e)
    } else {
        is_render_result(
            job,
            font,
            frames,
            Seq::new(frames.len(), |i: int| grid_of(job, font, frames[i])->Ok_0),
            r,
        )
    }
}

/// Grids that were converted from well-formed frames for the job are always
/// renderable: `run` never fails for want of that.
pub proof fn lemma_converted_grids_are_renderable(
    job: Job,
    font: CatalogModel,
    frames: Seq<FrameModel>,
)
    requires
        forall|i: int| 0 <= i < frames.len() ==> (#[trigger] frames[i]).wf(),
        all_convert(job, font, frames),
    ensures
        renderable(
            job,
            frames,
            Seq::new(frames.len(), |i: int| grid_of(job, font, frames[i])->Ok_0),
        ),
{
    let grids = Seq::new(frames.len(), |i: int| grid_of(job, font, frames[i])->Ok_0);
    assert forall|i: int| 0 <= i < grids.len() implies (#[trigger] grids[i]).len() >= 1
        && rectangular(grids[i], job.width as nat) && frames[i].width >= 1 && frames[i].height
        >= 1 by {
        assert(frames[i].wf());
        assert(grid_of(job, font, frames[i]) is Ok);
        lemma_conversion_dimensions(
            font,
            frames[i],
            job.metric,
            job.width as nat,
            job.adjustment,
            job.threads as nat,
        );
    }
}

/// Converts the frames one after the other.
pub fn convert_frames(job: &Job, font: &Catalog, frames: &Vec<Frame>) -> (r: Result<
    Vec<CharGrid>,
    ConversionError,
>)
    ensures
        match r {
            Ok(grids) => grids@.len() == frames@.len() && all_convert(
                *job,
                font@,
                frame_models(frames@),
            ) && grid_models(grids@) == Seq::new(
                frames@.len(),
                |i: int| grid_of(*job, font@, frame_models(frames@)[i])->Ok_0,
            ),
            Err(e) => first_failure(*job, font@, frame_models(frames@), e),
        },
{
    let ghost models = frame_models(frames@);
    let mut grids: Vec<CharGrid> = Vec::new();
    let mut i: usize = 0;
    while i < frames.len()
        invariant
            i <= frames@.len(),
            models == frame_models(frames@),
            grids@.len() == i,
            all_convert(*job, font@, models.take(i as int)),
            forall|k: int|
                0 <= k < i ==> grid_of(*job, font@, frames@[k]@) == Ok::<
                    Seq<Seq<char>>,
                    ConversionError,
                >((#[trigger] grids@[k])@),
        decreases frames@.len() - i,
    {
        match img_to_char_rows(
            font,
            &frames[i],
            job.metric,
            job.width,
            &job.adjustment,
            job.threads,
        ) {
            Ok(g) => {
                grids.push(g);
                proof {
                    assert forall|k: int| 0 <= k < i + 1 implies grid_of(
                        *job,
                        font@,
                        #[trigger] models.take(i + 1)[k],
                    ) is Ok by {
                        if k < i {
                            assert(models.take(i as int)[k] == models[k]);
                        }
                    }
                }
            },
            Err(e) => {
                assert(grid_of(*job, font@, models[i as int]) == Err::<
                    Seq<Seq<char>>,
                    ConversionError,
                >(e));
                return Err(e);
            },
        }
        i = i + 1;
    }
    assert(models.take(i as int) =~= models);
    assert(grid_models(grids@) =~= Seq::new(
        frames@.len(),
        |i: int| grid_of(*job, font@, frame_models(frames@)[i])->Ok_0,
    )) by {
        assert forall|k: int| 0 <= k < frames@.len() implies grid_models(grids@)[k] == grid_of(
            *job,
            font@,
            frame_models(frames@)[k],
        )->Ok_0 by {
            assert(grid_of(*job, font@, frames@[k]@) == Ok::<Seq<Seq<char>>, ConversionError>(
                grids@[k]@,
            ));
        }
    }
    Ok(grids)
}

/// Carries out a job on frames in memory: converts every frame and renders
/// the grids for the job's target.
pub fn run(job: &Job, font: &Catalog, frames: &Vec<Frame>) -> (r: Result<Artifact, ConversionError>)
    ensures
        is_run_result(*job, font@, frame_models(frames@), result_view(r)),
{
    let ghost models = frame_models(frames@);
    if job.fps_millis == 0 {
        return Err(ConversionError::InvalidConfiguration);
    }
    if frames.len() == 0 {
        return Err(ConversionError::EmptyImage);
    }
    let grids = match convert_frames(job, font, frames) {
        Ok(grids) => grids,
        Err(e) => {
            proof {
                let i = choose|i: int|
                    0 <= i < models.len() && grid_of(*job, font@, #[trigger] models[i]) == Err::<
                        Seq<Seq<char>>,
                        ConversionError,
                    >(e) && all_convert(*job, font@, models.take(i));
                assert(!(grid_of(*job, font@, models[i]) is Ok));
            }
            return Err(e);
        },
    };
    render(job, font, frames, &grids)
}

/// Whether two jobs are alike in all but the number of workers, of which
/// each has at least one.
pub open spec fn differ_in_workers_only(a: Job, b: Job) -> bool {
    &&& a.input == b.input
    &&& a.target == b.target
    &&& a.metric == b.metric
    &&& a.width == b.width
    &&& a.adjustment == b.adjustment
    &&& a.color == b.color
    &&& a.fps_millis == b.fps_millis
    &&& a.threads >= 1
    &&& b.threads >= 1
}

/// The number of workers changes nothing in what a job yields: whatever one
/// job yields for the frames, a job that differs in the number of workers
/// alone yields too.
pub proof fn lemma_run_ignores_worker_count(
    a: Job,
    b: Job,
    font: CatalogModel,
    frames: Seq<FrameModel>,
    r: Result<ArtifactModel, ConversionError>,
)
    requires
        differ_in_workers_only(a, b),
        is_run_result(a, font, frames, r),
    ensures
        is_run_result(b, font, frames, r),
{
    assert forall|f: FrameModel| grid_of(a, font, f) == grid_of(b, font, f) by {}
    let ga = Seq::new(frames.len(), |i: int| grid_of(a, font, frames[i])->Ok_0);
    let gb = Seq::new(frames.len(), |i: int| grid_of(b, font, frames[i])->Ok_0);
    assert(ga =~= gb);
    if a.fps_millis != 0 && frames.len() != 0 {
        if !all_convert(a, font, frames) {
            let e = r->Err_0;
            let i = choose|i: int|
                0 <= i < frames.len() && grid_of(a, font, #[trigger] frames[i]) == Err::<
                    Seq<Seq<char>>,
                    ConversionError,
                >(e) && all_convert(a, font, frames.take(i));
            assert(grid_of(b, font, frames[i]) == Err::<Seq<Seq<char>>, ConversionError>(e));
            assert(all_convert(b, font, frames.take(i)));
            assert(!all_convert(b, font, frames));
        } else {
            assert(all_convert(b, font, frames));
            assert(renderable(a, frames, ga) == renderable(b, frames, gb));
            assert(Seq::new(
                frames.len(),
                |i: int| text_of_grid(a.color, Markup::Terminal, ga[i], frames[i]),
            ) =~= Seq::new(
                frames.len(),
                |i: int| text_of_grid(b.color, Markup::Terminal, gb[i], frames[i]),
            ));
            assert(Seq::new(
                frames.len(),
                |i: int| text_of_grid(a.color, Markup::Html, ga[i], frames[i]),
            ) =~= Seq::new(
                frames.len(),
                |i: int| text_of_grid(b.color, Markup::Html, gb[i], frames[i]),
            ));
            assert(forall|i: int|
                0 <= i < ga.len() ==> grid_fits(a, font, #[trigger] ga[i]) == grid_fits(
                    b,
                    font,
                    gb[i],
                ));
            assert(is_render_result(b, font, frames, gb, r));
        }
    }
}

/// Whether `d` can be what decoding the bytes of an input of the given kind
/// yields. For an animated input whose bytes hold an animation, it is the
/// frames of the animation in playing order. Otherwise the bytes are decoded
/// as a still image: the outcome is one well-formed frame, whose pixels are
/// the decoder's matter, or `Undecodable`, as always for a file in the
/// Radiance format.
pub open spec fn is_decoded_input(
    kind: InputKind,
    image: Seq<u8>,
    d: Result<Seq<FrameModel>, ConversionError>,
) -> bool {
    if kind == InputKind::Animated && animation_of(image) is Some {
        d == Ok::<Seq<FrameModel>, ConversionError>(animation_of(image)->Some_0)
    } else {
        match d {
            Ok(frames) => frames.len() == 1 && frames[0].wf() && !is_radiance(image),
            Err(e) => e == ConversionError::Undecodable,
        }
    }
}

/// The content of decoded frames.
pub open spec fn frames_view(r: Result<Vec<Frame>, ConversionError>) -> Result<
    Seq<FrameModel>,
    ConversionError,
> {
    match r {
        Ok(frames) => Ok(frame_models(frames@)),
        Err(e) => Err(e),
    }
}

/// Decodes the frames of an input of the given kind: all frames of an
/// animation, and one frame of anything else that the decoder accepts.
pub fn decode_input(kind: InputKind, image: &[u8]) -> (r: Result<Vec<Frame>, ConversionError>)
    ensures
        is_decoded_input(kind, image@, frames_view(r)),
        r matches Ok(frames) ==> forall|i: int|
            0 <= i < frames@.len() ==> (#[trigger] frames@[i])@.wf(),
{
    if kind == InputKind::Animated {
        match decode_frames(image) {
            Ok(frames) => {
                return Ok(frames);
            },
            Err(_) => {},
        }
    }
    match decode_image(image) {
        Ok(frame) => {
            let ghost model = frame@;
            let frames: Vec<Frame> = vec![frame];
            assert(frame_models(frames@) =~= seq![model]);
            Ok(frames)
        },
        Err(e) => Err(e),
    }
}

/// Whether `r` is what the job yields for what decoding gave: the decoder's
/// failure, else `FontLoad` where the font source yields no catalog for the
/// alphabet, else what the job yields for the frames with that catalog.
pub open spec fn is_job_result(
    job: Job,
    d: Result<Seq<FrameModel>, ConversionError>,
    font_source: Seq<u8>,
    alphabet: Seq<char>,
    r: Result<ArtifactModel, ConversionError>,
) -> bool {
    match d {
        Err(e) => r == Err::<ArtifactModel, ConversionError>(e),
        Ok(frames) => match loaded(font_source, alphabet) {
            None => r == Err::<ArtifactModel, ConversionError>(ConversionError::FontLoad),
            Some(font) => is_run_result(job, font, frames, r),
        },
    }
}

/// Whether `r` can be what a request yields for the bytes of the image, of
/// the font and the characters of the alphabet: the failure of the request,
/// or else what the job yields for an outcome of decoding the image.
pub open spec fn is_generated(
    args: &Params,
    image: Seq<u8>,
    font_source: Seq<u8>,
    alphabet: Seq<char>,
    r: Result<ArtifactModel, ConversionError>,
) -> bool {
    match planned(args) {
        Err(e) => r == Err::<ArtifactModel, ConversionError>(e),
        Ok(job) => exists|d: Result<Seq<FrameModel>, ConversionError>|
            is_decoded_input(job.input, image, d) && #[trigger] is_job_result(
                job,
                d,
                font_source,
                alphabet,
                r,
            ),
    }
}

/// Carries out a request on what was fetched and read for it: validates the
/// request, decodes the frames of the image, loads the catalog and runs the
/// job on all frames.
pub fn generate(args: &Params, image: &[u8], font_source: &[u8], alphabet: &[char]) -> (r: Result<
    Artifact,
    ConversionError,
>)
    ensures
        is_generated(args, image@, font_source@, alphabet@, result_view(r)),
{
    let job = match plan(args) {
        Ok(job) => job,
        Err(e) => {
            return Err(e);
        },
    };
    let decoded = decode_input(job.input, image);
    let ghost d = frames_view(decoded);
    let frames = match decoded {
        Ok(frames) => frames,
        Err(e) => {
            assert(is_job_result(
                job,
                d,
                font_source@,
                alphabet@,
                Err::<ArtifactModel, ConversionError>(e),
            ));
            return Err(e);
        },
    };
    let font = match Catalog::load(font_source, alphabet) {
        Ok(c) => c,
        Err(e) => {
            assert(is_job_result(
                job,
                d,
                font_source@,
                alphabet@,
                Err::<ArtifactModel, ConversionError>(e),
            ));
            return Err(e);
        },
    };
    let r = run(&job, &font, &frames);
    assert(is_job_result(job, d, font_source@, alphabet@, result_view(r)));
    r
}

/// Whether two requests are alike in all but the number of threads, of which
/// each asks for at least one.
pub open spec fn differ_in_threads_only(a: &Params, b: &Params) -> bool {
    &&& a.image_url@ == b.image_url@
    &&& a.font@ == b.font@
    &&& a.alphabet@ == b.alphabet@
    &&& a.width == b.width
    &&& a.metric@ == b.metric@
    &&& a.no_color == b.no_color
    &&& a.brightness_offset == b.brightness_offset
    &&& a.noise_scale == b.noise_scale
    &&& a.noise_seed == b.noise_seed
    &&& opt_view(a.out_path) == opt_view(b.out_path)
    &&& a.fps_millis == b.fps_millis
    &&& a.no_edge_detection == b.no_edge_detection
    &&& a.threads >= 1
    &&& b.threads >= 1
}

/// The number of threads changes nothing in what a request can yield:
/// whatever one request can yield for the bytes of image and font and for
/// the alphabet, a request that differs in the number of threads alone can
/// yield too, and for the same outcome of decoding.
pub proof fn lemma_generate_ignores_thread_count(
    a: &Params,
    b: &Params,
    image: Seq<u8>,
    font_source: Seq<u8>,
    alphabet: Seq<char>,
    r: Result<ArtifactModel, ConversionError>,
)
    requires
        differ_in_threads_only(a, b),
        is_generated(a, image, font_source, alphabet, r),
    ensures
        is_generated(b, image, font_source, alphabet, r),
{
    match planned(a) {
        Ok(ja) => {
            let jb = planned(b)->Ok_0;
            assert(differ_in_workers_only(ja, jb));
            let d = choose|d: Result<Seq<FrameModel>, ConversionError>|
                is_decoded_input(ja.input, image, d) && #[trigger] is_job_result(
                    ja,
                    d,
                    font_source,
                    alphabet,
                    r,
                );
            match d {
                Ok(frames) => match loaded(font_source, alphabet) {
                    Some(font) => {
                        lemma_run_ignores_worker_count(ja, jb, font, frames, r);
                    },
                    None => {},
                },
                Err(_) => {},
            }
            assert(is_job_result(jb, d, font_source, alphabet, r));
        },
        Err(_) => {},
    }
}

} // verus!
