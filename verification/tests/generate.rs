use image_to_ascii::codec::{
    decode_frames, decode_image, frame_of_image, frames_to_json, has_radiance_signature,
};
use image_to_ascii::error::ConversionError;
use image_to_ascii::font::{Catalog, Glyph};
use image_to_ascii::frame::{Frame, Rgb};
use image_to_ascii::generate::{
    alphabet_from_bytes, decode_input, extension, generate, input_kind, is_remote_url, named_alphabet,
    named_font, output_target, plan, render, run, convert_frames, Artifact, InputKind, Job, NamedAlphabet, NamedFont,
    OutputTarget, Params,
};
use image_to_ascii::metrics::Metric;
use std::io::Cursor;

const BLOCKS: &str = "STARTFONT 2.1\nSTARTCHAR space\nENCODING 32\nBBX 2 2 0 0\nBITMAP\n00\n00\nENDCHAR\nSTARTCHAR numbersign\nENCODING 35\nBBX 2 2 0 0\nBITMAP\nC0\nC0\nENDCHAR\nENDFONT\n";

fn png(width: u32, height: u32, pixels: &[(u8, u8, u8)]) -> Vec<u8> {
    let mut img = image::RgbImage::new(width, height);
    for (i, p) in pixels.iter().enumerate() {
        img.put_pixel(i as u32 % width, i as u32 / width, image::Rgb([p.0, p.1, p.2]));
    }
    let mut bytes = Vec::new();
    image::DynamicImage::ImageRgb8(img)
        .write_to(&mut Cursor::new(&mut bytes), image::ImageOutputFormat::Png)
        .unwrap();
    bytes
}

fn gif(width: u32, height: u32, shades: &[u8]) -> Vec<u8> {
    let mut bytes = Vec::new();
    {
        let mut encoder = image::codecs::gif::GifEncoder::new(&mut bytes);
        for v in shades {
            let pixels = image::RgbaImage::from_pixel(width, height, image::Rgba([*v, *v, *v, 255]));
            encoder.encode_frame(image::Frame::new(pixels)).unwrap();
        }
    }
    bytes
}

fn request<'a>(url: &'a str, out_path: Option<&'a str>) -> Params<'a> {
    Params {
        image_url: url,
        font: "bitocra-13",
        alphabet: "alphabet",
        width: 2,
        metric: "coverage",
        threads: 1,
        no_color: true,
        brightness_offset: 0,
        noise_scale: 0,
        noise_seed: 0,
        out_path,
        fps_millis: 30_000,
        no_edge_detection: false,
    }
}

fn halves() -> Vec<u8> {
    png(
        4,
        2,
        &[
            (0, 0, 0),
            (0, 0, 0),
            (255, 255, 255),
            (255, 255, 255),
            (0, 0, 0),
            (0, 0, 0),
            (255, 255, 255),
            (255, 255, 255),
        ],
    )
}

fn alphabet() -> Vec<char> {
    vec![' ', '#']
}

#[test]
fn decoder_yields_the_pixels_of_the_file() {
    let bytes = png(2, 1, &[(10, 20, 30), (200, 100, 50)]);
    let frame = decode_image(&bytes).unwrap();
    assert_eq!(frame.width(), 2);
    assert_eq!(frame.height(), 1);
    assert_eq!(frame.pixel(0, 0), Some(Rgb { r: 10, g: 20, b: 30 }));
    assert_eq!(frame.pixel(1, 0), Some(Rgb { r: 200, g: 100, b: 50 }));
    assert_eq!(frame.data(), &vec![10, 20, 30, 200, 100, 50]);
}

#[test]
fn decoder_refuses_what_is_no_image() {
    assert_eq!(decode_image(b"no image at all"), Err(ConversionError::Undecodable));
    assert_eq!(decode_image(b""), Err(ConversionError::Undecodable));
    let mut cut = png(2, 1, &[(10, 20, 30), (200, 100, 50)]);
    cut.truncate(20);
    assert_eq!(decode_image(&cut), Err(ConversionError::Undecodable));
}

#[test]
fn json_is_an_array_of_strings() {
    let texts = vec!["a\"b".to_string(), "c\nd".to_string()];
    assert_eq!(frames_to_json(&texts), "[\"a\\\"b\",\"c\\nd\"]");
    assert_eq!(frames_to_json(&vec![]), "[]");
    let back: Vec<String> = serde_json::from_str(&frames_to_json(&texts)).unwrap();
    assert_eq!(back, texts);
}

#[test]
fn remote_addresses_are_recognised() {
    assert!(is_remote_url("http://example.com/a.png"));
    assert!(is_remote_url("https://example.com/a.png"));
    assert!(is_remote_url("https://"));
    assert!(!is_remote_url("ftp://example.com/a.png"));
    assert!(!is_remote_url("example.com/a.png"));
    assert!(!is_remote_url("HTTP://example.com"));
    assert!(!is_remote_url(""));
    assert!(!is_remote_url("http:/"));
}

#[test]
fn extension_follows_the_last_dot_of_the_last_component() {
    assert_eq!(extension("a/b/c.png"), Some("png"));
    assert_eq!(extension("c.tar.gz"), Some("gz"));
    assert_eq!(extension("https://example.com/pic.gif"), Some("gif"));
    assert_eq!(extension("a.b/c"), None);
    assert_eq!(extension(".hidden"), None);
    assert_eq!(extension("dir/.hidden"), None);
    assert_eq!(extension(".hidden.txt"), Some("txt"));
    assert_eq!(extension("name."), Some(""));
    assert_eq!(extension(".."), None);
    assert_eq!(extension("a/.."), None);
    assert_eq!(extension("..."), Some(""));
    assert_eq!(extension(""), None);
    assert_eq!(extension("a/"), None);
    assert_eq!(extension("https://example.com/a.gif/"), Some("gif"));
    assert_eq!(extension("a.gif///"), Some("gif"));
    assert_eq!(extension("a.b/c/"), None);
    assert_eq!(extension("a/../"), None);
    assert_eq!(extension("/"), None);
    assert_eq!(extension("https://"), None);
    assert_eq!(extension("ä.ö"), Some("ö"));
}

#[test]
fn kinds_and_targets_go_by_extension() {
    assert_eq!(input_kind("https://x/a.gif"), Some(InputKind::Animated));
    assert_eq!(input_kind("https://x/a.png"), Some(InputKind::Still));
    assert_eq!(input_kind("https://x/a.GIF"), Some(InputKind::Still));
    assert_eq!(input_kind("https://x/a"), None);
    assert_eq!(output_target(None), Some(OutputTarget::Terminal));
    assert_eq!(output_target(Some("out.json")), Some(OutputTarget::Json));
    assert_eq!(output_target(Some("out.gif")), Some(OutputTarget::AnimatedImage));
    assert_eq!(output_target(Some("out.png")), Some(OutputTarget::StillImage));
    assert_eq!(output_target(Some("out.jpeg")), Some(OutputTarget::StillImage));
    assert_eq!(output_target(Some("out")), None);
}

#[test]
fn built_in_names_are_resolved() {
    assert_eq!(named_alphabet("alphabet"), Some(NamedAlphabet::Alphabet));
    assert_eq!(named_alphabet("letters"), Some(NamedAlphabet::Letters));
    assert_eq!(named_alphabet("lowercase"), Some(NamedAlphabet::Lowercase));
    assert_eq!(named_alphabet("minimal"), Some(NamedAlphabet::Minimal));
    assert_eq!(named_alphabet("symbols"), Some(NamedAlphabet::Symbols));
    assert_eq!(named_alphabet("uppercase"), Some(NamedAlphabet::Uppercase));
    assert_eq!(named_alphabet("alphabets/mine.txt"), None);
    assert_eq!(named_font("courier"), Some(NamedFont::Courier));
    assert_eq!(named_font("bitocra-13"), Some(NamedFont::Bitocra13));
    assert_eq!(named_font("bitocra"), None);
}

#[test]
fn alphabet_bytes_are_cast_to_characters() {
    assert_eq!(alphabet_from_bytes(b" #a"), vec![' ', '#', 'a']);
    assert_eq!(alphabet_from_bytes(&[0xe9, 0x0a]), vec!['\u{e9}', '\n']);
    assert_eq!(alphabet_from_bytes(b""), Vec::<char>::new());
}

#[test]
fn request_becomes_a_job() {
    let mut args = request("https://example.com/a.gif", Some("out.json"));
    args.metric = "grad";
    args.no_color = false;
    args.brightness_offset = -3;
    args.noise_scale = 4;
    args.noise_seed = 5;
    args.threads = 6;
    args.width = 7;
    args.fps_millis = 8;
    args.no_edge_detection = true;
    let job = plan(&args).unwrap();
    assert_eq!(job.input, InputKind::Animated);
    assert_eq!(job.target, OutputTarget::Json);
    assert_eq!(job.metric, Metric::Grad);
    assert_eq!(job.width, 7);
    assert_eq!(job.threads, 6);
    assert!(job.color);
    assert_eq!(job.fps_millis, 8);
    assert_eq!(job.adjustment.brightness_offset, -3);
    assert_eq!(job.adjustment.noise_scale, 4);
    assert_eq!(job.adjustment.noise_seed, 5);
    assert!(!job.adjustment.edge_detection);
}

#[test]
fn request_is_refused_for_each_reason() {
    let bad = |f: &dyn Fn(&mut Params)| {
        let mut args = request("https://example.com/a.png", Some("out.png"));
        f(&mut args);
        plan(&args).err()
    };
    assert_eq!(bad(&|_| {}), None);
    assert_eq!(bad(&|a| a.image_url = "file:///a.png"), Some(ConversionError::InvalidConfiguration));
    assert_eq!(bad(&|a| a.image_url = "https://example.com/a"), Some(ConversionError::InvalidConfiguration));
    assert_eq!(bad(&|a| a.out_path = Some("out")), Some(ConversionError::InvalidConfiguration));
    assert_eq!(bad(&|a| a.metric = "best"), Some(ConversionError::UnknownMetric));
    assert_eq!(bad(&|a| a.width = 0), Some(ConversionError::InvalidConfiguration));
    assert_eq!(bad(&|a| a.fps_millis = 0), Some(ConversionError::InvalidConfiguration));
    assert_eq!(bad(&|a| a.threads = 0), Some(ConversionError::InvalidThreadCount));
    assert_eq!(
        bad(&|a| {
            a.threads = 0;
            a.metric = "best";
        }),
        Some(ConversionError::UnknownMetric)
    );
}

#[test]
fn still_image_goes_to_the_terminal_as_text() {
    let args = request("https://example.com/a.png", None);
    let artifact = generate(&args, &halves(), BLOCKS.as_bytes(), &alphabet());
    assert_eq!(artifact, Ok(Artifact::Text("# ".to_string())));
}

#[test]
fn animated_input_is_played_back() {
    let mut args = request("https://example.com/a.gif", None);
    args.width = 1;
    let body = gif(2, 2, &[0, 255, 0]);
    let artifact = generate(&args, &body, BLOCKS.as_bytes(), &alphabet());
    assert_eq!(
        artifact,
        Ok(Artifact::Playback(vec!["#".to_string(), " ".to_string(), "#".to_string()], 33_333))
    );
}

#[test]
fn animated_input_keeps_all_its_frames() {
    let mut args = request("https://example.com/a.gif", Some("out.gif"));
    args.width = 1;
    args.fps_millis = 10_000;
    let body = gif(2, 2, &[0, 255, 0]);
    match generate(&args, &body, BLOCKS.as_bytes(), &alphabet()).unwrap() {
        Artifact::Animation(a) => {
            assert_eq!(a.frame_count(), 3);
            assert_eq!(a.delay_ms(), 100);
            assert_eq!(a.delay_us(), 100_000);
            assert_eq!(a.frame(0).data(), &vec![0u8; 12]);
            assert_eq!(a.frame(1).data(), &vec![255u8; 12]);
            assert_eq!(a.frame(2).data(), &vec![0u8; 12]);
            assert_eq!((a.frame(0).width(), a.frame(0).height()), (2, 2));
        }
        other => panic!("{:?}", other),
    }
    args.out_path = Some("out.json");
    assert_eq!(
        generate(&args, &body, BLOCKS.as_bytes(), &alphabet()),
        Ok(Artifact::Json("[\"#\",\" \",\"#\"]".to_string()))
    );
    args.out_path = Some("out.png");
    assert_eq!(
        generate(&args, &body, BLOCKS.as_bytes(), &alphabet()),
        Ok(Artifact::Image(Frame::new(2, 2, vec![0u8; 12]).unwrap()))
    );
}

#[test]
fn decoder_yields_every_frame_in_order() {
    let body = gif(3, 1, &[10, 200, 30, 40]);
    let frames = decode_frames(&body).unwrap();
    assert_eq!(frames.len(), 4);
    for (i, v) in [10u8, 200, 30, 40].iter().enumerate() {
        assert_eq!((frames[i].width(), frames[i].height()), (3, 1));
        assert_eq!(frames[i].data(), &vec![*v; 9]);
    }
    assert_eq!(decode_frames(&halves()), Err(ConversionError::Undecodable));
    assert_eq!(decode_frames(b""), Err(ConversionError::Undecodable));
    assert_eq!(decode_input(InputKind::Animated, &body).unwrap().len(), 4);
    let first = decode_input(InputKind::Still, &body).unwrap();
    assert_eq!(first.len(), 1);
    assert_eq!(first[0].data(), &vec![10u8; 9]);
    assert_eq!(decode_image(&body).unwrap().data(), &vec![10u8; 9]);
    assert_eq!(decode_input(InputKind::Still, b"junk"), Err(ConversionError::Undecodable));
    assert_eq!(decode_input(InputKind::Animated, b"junk"), Err(ConversionError::Undecodable));
}

#[test]
fn still_image_under_an_animated_address_is_one_frame() {
    let frames = decode_input(InputKind::Animated, &halves()).unwrap();
    assert_eq!(frames.len(), 1);
    assert_eq!((frames[0].width(), frames[0].height()), (4, 2));
    assert_eq!(frames[0].pixel(3, 1), Some(Rgb { r: 255, g: 255, b: 255 }));
    let args = request("https://example.com/a.gif", None);
    assert_eq!(
        generate(&args, &halves(), BLOCKS.as_bytes(), &alphabet()),
        Ok(Artifact::Playback(vec!["# ".to_string()], 33_333))
    );
}

#[test]
fn images_of_floating_point_samples_are_refused() {
    let nan = image::Rgb32FImage::from_pixel(1, 1, image::Rgb([f32::NAN, 0.5, 1.0]));
    assert_eq!(
        frame_of_image(&image::DynamicImage::ImageRgb32F(nan)),
        Err(ConversionError::Undecodable)
    );
    let fine = image::Rgba32FImage::from_pixel(1, 1, image::Rgba([0.0, 0.5, 1.0, 1.0]));
    assert_eq!(
        frame_of_image(&image::DynamicImage::ImageRgba32F(fine)),
        Err(ConversionError::Undecodable)
    );
    let mut file = Vec::new();
    let float = image::Rgb32FImage::from_pixel(2, 2, image::Rgb([f32::NAN, 0.5, 1.0]));
    image::DynamicImage::ImageRgb32F(float)
        .write_to(&mut Cursor::new(&mut file), image::ImageOutputFormat::OpenExr)
        .unwrap();
    assert_eq!(decode_image(&file), Err(ConversionError::Undecodable));
}

#[test]
fn images_of_whole_number_samples_become_frames() {
    let rgb = image::RgbImage::from_pixel(2, 1, image::Rgb([1, 2, 3]));
    let frame = frame_of_image(&image::DynamicImage::ImageRgb8(rgb)).unwrap();
    assert_eq!((frame.width(), frame.height()), (2, 1));
    assert_eq!(frame.data(), &vec![1, 2, 3, 1, 2, 3]);
    let gray = image::ImageBuffer::<image::Luma<u16>, Vec<u16>>::from_pixel(1, 2, image::Luma([65535]));
    let frame = frame_of_image(&image::DynamicImage::ImageLuma16(gray)).unwrap();
    assert_eq!((frame.width(), frame.height()), (1, 2));
    assert_eq!(frame.data(), &vec![255u8; 6]);
    let clear = image::RgbaImage::from_pixel(1, 1, image::Rgba([9, 8, 7, 0]));
    let frame = frame_of_image(&image::DynamicImage::ImageRgba8(clear)).unwrap();
    assert_eq!(frame.data(), &vec![9, 8, 7]);
}

#[test]
fn json_strings_are_escaped() {
    let texts = vec![
        "plain".to_string(),
        "q\"b\\s/".to_string(),
        "\u{8}\t\n\u{c}\r".to_string(),
        "\u{0}\u{1}\u{b}\u{1f} \u{7f}".to_string(),
        "\u{e9}\u{1b}[0m\u{1f600}".to_string(),
        String::new(),
    ];
    assert_eq!(
        frames_to_json(&texts),
        "[\"plain\",\"q\\\"b\\\\s/\",\"\\b\\t\\n\\f\\r\",\"\\u0000\\u0001\\u000b\\u001f \u{7f}\",\"\u{e9}\\u001b[0m\u{1f600}\",\"\"]"
    );
    assert_eq!(frames_to_json(&vec![String::new()]), "[\"\"]");
}

#[test]
fn radiance_files_are_left_out() {
    let file = b"#?RADIANCE\nFORMAT=32-bit_rle_rgbe\n\n-Y 1 +X 1\n\x80\x80\x80\x80";
    assert!(has_radiance_signature(file));
    assert_eq!(decode_image(file), Err(ConversionError::Undecodable));
    assert!(has_radiance_signature(b"#?RADIANCE"));
    assert!(!has_radiance_signature(b"#?RADIANC"));
    assert!(!has_radiance_signature(b"#?RADIANCX"));
    assert!(!has_radiance_signature(b""));
    assert!(!has_radiance_signature(&halves()));
}

#[test]
fn colour_goes_to_the_terminal_as_escape_sequences() {
    let mut args = request("https://example.com/a.png", None);
    args.no_color = false;
    let artifact = generate(&args, &halves(), BLOCKS.as_bytes(), &alphabet());
    assert_eq!(
        artifact,
        Ok(Artifact::Text("\x1b[38;2;0;0;0m#\x1b[38;2;255;255;255m \x1b[0m".to_string()))
    );
}

#[test]
fn json_target_yields_encoded_texts() {
    let args = request("https://example.com/a.png", Some("out.json"));
    let artifact = generate(&args, &halves(), BLOCKS.as_bytes(), &alphabet());
    assert_eq!(artifact, Ok(Artifact::Json("[\"# \"]".to_string())));
    let mut args = request("https://example.com/a.png", Some("out.json"));
    args.no_color = false;
    args.width = 1;
    let black = png(1, 1, &[(0, 0, 0)]);
    let artifact = generate(&args, &black, BLOCKS.as_bytes(), &alphabet());
    assert_eq!(
        artifact,
        Ok(Artifact::Json("[\"<span style=\\\"color:#000000\\\">#</span>\"]".to_string()))
    );
}

#[test]
fn image_targets_yield_bitmaps() {
    let args = request("https://example.com/a.png", Some("out.png"));
    let artifact = generate(&args, &halves(), BLOCKS.as_bytes(), &alphabet()).unwrap();
    let expected = Frame::new(
        4,
        2,
        vec![0, 0, 0, 0, 0, 0, 255, 255, 255, 255, 255, 255, 0, 0, 0, 0, 0, 0, 255, 255, 255, 255, 255, 255],
    )
    .unwrap();
    assert_eq!(artifact, Artifact::Image(expected));
    let args = request("https://example.com/a.png", Some("out.gif"));
    match generate(&args, &halves(), BLOCKS.as_bytes(), &alphabet()).unwrap() {
        Artifact::Animation(a) => {
            assert_eq!(a.frame_count(), 1);
            assert_eq!(a.delay_us(), 33_333);
            assert_eq!(a.frame(0).width(), 4);
            assert_eq!(a.frame(0).pixel(0, 0), Some(Rgb { r: 0, g: 0, b: 0 }));
            assert_eq!(a.frame(0).pixel(3, 1), Some(Rgb { r: 255, g: 255, b: 255 }));
        }
        other => panic!("{:?}", other),
    }
}

#[test]
fn run_fails_in_a_fixed_order() {
    let img = halves();
    let font = BLOCKS.as_bytes();
    let mut args = request("ftp://example.com/a.png", None);
    args.metric = "none";
    assert_eq!(generate(&args, b"junk", b"junk", &[]), Err(ConversionError::InvalidConfiguration));
    let args = request("https://example.com/a.png", None);
    assert_eq!(generate(&args, b"junk", b"junk", &[]), Err(ConversionError::Undecodable));
    assert_eq!(generate(&args, &img, b"junk", &alphabet()), Err(ConversionError::FontLoad));
    assert_eq!(generate(&args, &img, font, &['a']), Err(ConversionError::FontLoad));
}

#[test]
fn job_runs_on_several_frames() {
    let font = Catalog::new(
        1,
        1,
        vec![Glyph::new(' ', vec![false]), Glyph::new('#', vec![true])],
    )
    .unwrap();
    let job = Job {
        input: InputKind::Animated,
        target: OutputTarget::Terminal,
        metric: Metric::Coverage,
        width: 2,
        adjustment: image_to_ascii::convert::Adjustment {
            brightness_offset: 0,
            noise_scale: 0,
            noise_seed: 0,
            edge_detection: true,
        },
        threads: 2,
        color: false,
        fps_millis: 10_000,
    };
    let a = Frame::new(2, 1, vec![0, 0, 0, 255, 255, 255]).unwrap();
    let b = Frame::new(2, 1, vec![255, 255, 255, 0, 0, 0]).unwrap();
    let none = Frame::new(0, 0, vec![]).unwrap();
    let frames = vec![a, b];
    assert_eq!(
        run(&job, &font, &frames),
        Ok(Artifact::Playback(vec!["# ".to_string(), " #".to_string()], 100_000))
    );
    let still = Job { input: InputKind::Still, ..job };
    assert_eq!(run(&still, &font, &frames), Ok(Artifact::Text("# ".to_string())));
    assert_eq!(run(&job, &font, &vec![]), Err(ConversionError::EmptyImage));
    let with_gap = vec![Frame::new(1, 1, vec![0, 0, 0]).unwrap(), none];
    assert_eq!(run(&job, &font, &with_gap), Err(ConversionError::EmptyImage));
    let no_rate = Job { fps_millis: 0, ..job };
    assert_eq!(run(&no_rate, &font, &frames), Err(ConversionError::InvalidConfiguration));
    let no_workers = Job { threads: 0, ..job };
    assert_eq!(run(&no_workers, &font, &frames), Err(ConversionError::InvalidThreadCount));
}

#[test]
fn rendering_takes_grids_that_were_converted_elsewhere() {
    let font = Catalog::new(
        1,
        1,
        vec![Glyph::new(' ', vec![false]), Glyph::new('#', vec![true])],
    )
    .unwrap();
    let job = Job {
        input: InputKind::Still,
        target: OutputTarget::StillImage,
        metric: Metric::Grad,
        width: 2,
        adjustment: image_to_ascii::convert::Adjustment {
            brightness_offset: 0,
            noise_scale: 0,
            noise_seed: 0,
            edge_detection: false,
        },
        threads: 1,
        color: true,
        fps_millis: 1_000,
    };
    let frames = vec![Frame::new(2, 1, vec![9, 8, 7, 255, 255, 255]).unwrap()];
    let grids = convert_frames(&job, &font, &frames).unwrap();
    assert_eq!(grids.len(), 1);
    assert_eq!(grids[0].rows(), &vec![vec!['#', ' ']]);
    let expected = Frame::new(2, 1, vec![9, 8, 7, 255, 255, 255]).unwrap();
    assert_eq!(render(&job, &font, &frames, &grids), Ok(Artifact::Image(expected)));
    assert_eq!(render(&job, &font, &frames, &grids), run(&job, &font, &frames));
    assert_eq!(render(&job, &font, &frames, &vec![]), Err(ConversionError::InvalidConfiguration));
    assert_eq!(render(&job, &font, &vec![], &vec![]), Err(ConversionError::EmptyImage));
    let narrow = Job { width: 1, ..job };
    assert_eq!(render(&narrow, &font, &frames, &grids), Err(ConversionError::InvalidConfiguration));
    let none = vec![Frame::new(0, 0, vec![]).unwrap()];
    assert_eq!(render(&job, &font, &none, &grids), Err(ConversionError::InvalidConfiguration));
    assert_eq!(convert_frames(&job, &font, &none), Err(ConversionError::EmptyImage));
}

#[test]
fn request_yields_the_same_for_any_thread_count() {
    let body = gif(4, 4, &[0, 255, 90]);
    for out in [None, Some("out.json"), Some("out.gif"), Some("out.png")] {
        let mut one = request("https://example.com/a.gif", out);
        one.no_color = false;
        one.metric = "grad";
        let mut eight = request("https://example.com/a.gif", out);
        eight.no_color = false;
        eight.metric = "grad";
        eight.threads = 8;
        let a = generate(&one, &body, BLOCKS.as_bytes(), &alphabet());
        let b = generate(&eight, &body, BLOCKS.as_bytes(), &alphabet());
        assert!(a.is_ok());
        assert_eq!(a, b);
    }
}

#[test]
fn single_pixel_image_yields_one_character() {
    let body = png(1, 1, &[(0, 0, 0)]);
    let mut args = request("https://example.com/a.png", None);
    args.width = 1;
    assert_eq!(
        generate(&args, &body, BLOCKS.as_bytes(), &alphabet()),
        Ok(Artifact::Text("#".to_string()))
    );
    args.out_path = Some("out.json");
    assert_eq!(
        generate(&args, &body, BLOCKS.as_bytes(), &alphabet()),
        Ok(Artifact::Json("[\"#\"]".to_string()))
    );
}
