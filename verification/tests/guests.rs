//! Log levels and the logic of the example guests.

use confined_wasm::guest::{
    append_seconds, best_score, image_pixels, prediction, run, transform, words_of, ConcatSession,
    PIXELS,
};
use confined_wasm::logging::{choose_level, level_from_cmdline, split_words, trim, LogLevel};
use confined_wasm::transform_session::EmitKind;

#[test]
fn words_are_split_as_the_standard_library_does() {
    let samples = [
        "",
        "   ",
        "one",
        " one  two\tthree\n",
        "a\u{a0}b\u{2003}c\u{3000}d\u{200b}e",
        "x\u{85}y\u{1680}z\u{2028}w\u{2029}v\u{202f}u\u{205f}t",
        "\u{b}\u{c}\r1",
    ];
    for s in samples {
        let theirs: Vec<&str> = s.split_whitespace().collect();
        assert_eq!(split_words(s), theirs, "{s:?}");
        assert_eq!(trim(s), s.trim(), "{s:?}");
    }
}

#[test]
fn whitespace_is_that_of_the_standard_library() {
    for n in 0..=0x3100u32 {
        if let Some(c) = char::from_u32(n) {
            let s = format!("a{c}b");
            assert_eq!(split_words(&s).len(), s.split_whitespace().count(), "{n:x}");
        }
    }
}

#[test]
fn level_comes_from_the_first_setting() {
    let level = |s: &str| level_from_cmdline(s);
    assert_eq!(level("quiet oak_log_level=info rest"), Some(LogLevel::Info));
    assert_eq!(level("oak_log_level=TRACE"), Some(LogLevel::Trace));
    assert_eq!(level("oak_log_level=Off oak_log_level=error"), Some(LogLevel::Off));
    assert_eq!(level("oak_log_level=loud oak_log_level=error"), None);
    assert_eq!(level("oak_log_level error"), None);
    assert_eq!(level("oak_log_levels=error"), None);
    assert_eq!(level("my_oak_log_level=error"), None);
    assert_eq!(level("oak_log_level="), None);
    assert_eq!(level(""), None);
}

#[test]
fn every_level_has_a_name() {
    for (name, level) in [
        ("off", LogLevel::Off),
        ("error", LogLevel::Error),
        ("Warn", LogLevel::Warn),
        ("INFO", LogLevel::Info),
        ("dEbUg", LogLevel::Debug),
        ("trace", LogLevel::Trace),
    ] {
        assert_eq!(choose_level(None, Some(name)), level);
    }
}

#[test]
fn command_line_goes_before_the_environment() {
    assert_eq!(choose_level(Some("oak_log_level=warn"), Some("error")), LogLevel::Warn);
    assert_eq!(choose_level(Some("oak_log_level=loud"), Some(" error\n")), LogLevel::Error);
    assert_eq!(choose_level(Some("quiet"), Some("loud")), LogLevel::Debug);
    assert_eq!(choose_level(None, None), LogLevel::Debug);
}

#[test]
fn compute_sums_words() {
    assert_eq!(transform(&[1, 0, 0, 0, 2, 0, 0, 0]), vec![3, 0, 0, 0]);
    assert_eq!(run(&[1, 0, 0, 0, 2, 0, 0, 0, 9, 9, 9]), vec![3, 0, 0, 0]);
    assert_eq!(transform(&[]), vec![0, 0, 0, 0]);
    assert_eq!(transform(&[0xff, 0xff, 0xff, 0xff, 3, 0, 0, 0]), vec![2, 0, 0, 0]);
    assert_eq!(words_of(&[0x78, 0x56, 0x34, 0x12, 1]), vec![0x12345678]);
}

#[test]
fn clock_appends_eight_bytes() {
    assert_eq!(append_seconds(vec![9], 0x0102), vec![9, 2, 1, 0, 0, 0, 0, 0, 0]);
}

#[test]
fn concat_ignores_chunking() {
    let run = |chunks: &[&[u8]]| {
        let mut s = ConcatSession::new();
        s.write(b"stale");
        s.configure(b"whatever");
        for chunk in chunks {
            s.write(chunk);
        }
        s.commit();
        s.finalize()
    };
    let whole = run(&[b"hello world"]);
    let parts = run(&[b"hello", b"", b" ", b"world"]);
    assert_eq!(whole.value, b"hello world");
    assert_eq!(whole.value, parts.value);
    assert_eq!(whole.key, "result");
    assert_eq!(whole.kind, EmitKind::Unencrypted);
}

#[test]
fn image_needs_every_pixel() {
    let bytes = vec![0u8; 4 * PIXELS];
    assert_eq!(image_pixels(&bytes).expect("pixels").len(), 784);
    assert!(image_pixels(&bytes[4..]).is_none());
    let mut more = bytes.clone();
    more.extend([1, 2, 3]);
    assert!(image_pixels(&more).is_some());
    more.push(4);
    assert!(image_pixels(&more).is_none());
}

#[test]
fn best_score_is_that_of_the_total_order() {
    let samples: [&[f32]; 6] = [
        &[1.0, 3.5, 3.5, -2.0],
        &[-0.0, 0.0, -1.0],
        &[0.0, -0.0],
        &[f32::NEG_INFINITY, -5.0, -7.0],
        &[1.0, f32::INFINITY, f32::NAN, 2.0],
        &[-f32::NAN, -1.0e-40],
    ];
    for scores in samples {
        let bits: Vec<u32> = scores.iter().map(|s| s.to_bits()).collect();
        let theirs = scores
            .iter()
            .enumerate()
            .max_by(|a, b| a.1.total_cmp(b.1))
            .map(|(i, _)| i);
        assert_eq!(best_score(&bits), theirs, "{scores:?}");
    }
    assert_eq!(best_score(&[]), None);
}

#[test]
fn prediction_holds_digit_and_score() {
    let scores = [0.25f32, 0.75, 0.5];
    let bits: Vec<u32> = scores.iter().map(|s| s.to_bits()).collect();
    let blob = prediction(&bits).expect("prediction");
    let mut expected = 1u32.to_le_bytes().to_vec();
    expected.extend(0.75f32.to_le_bytes());
    assert_eq!(blob.value, expected);
    assert_eq!(blob.key, "prediction");
    assert!(prediction(&[]).is_none());
}
