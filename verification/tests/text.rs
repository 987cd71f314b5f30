use fbd::path::FsPath;
use fbd::text::{
    decimal_text, is_blank, is_control, is_less, parse_u64, sanitize, signed_text, trim,
};
use fbd::time::Timestamp;

#[test]
fn sanitizing_replaces_control_characters_one_for_one() {
    let hostile = "a\u{1b}[2J\n\u{9b}b\u{7f}…";
    let clean = sanitize(hostile);
    assert_eq!(clean, "a\u{fffd}[2J\u{fffd}\u{fffd}b\u{fffd}…");
    assert_eq!(clean.chars().count(), hostile.chars().count());
    assert!(!clean.chars().any(char::is_control));
    assert_eq!(sanitize(&clean), clean, "sanitizing twice changes nothing more");
}

#[test]
fn controls_are_exactly_the_two_control_blocks() {
    for code in 0..0x300u32 {
        let c = char::from_u32(code).expect("a character");
        assert_eq!(is_control(c), c.is_control(), "{code:#x}");
    }
    assert!(!is_control('…'));
}

#[test]
fn trimming_and_blankness_agree_with_the_standard_library() {
    for text in ["", " ", "\t a b \n", "\u{2003}x\u{3000}", "x", "\u{200b}"] {
        assert_eq!(trim(text), text.trim(), "{text:?}");
        assert_eq!(is_blank(text), text.trim().is_empty(), "{text:?}");
    }
}

#[test]
fn decimals_read_back() {
    for n in [0, 7, 10, 999, u64::MAX] {
        assert_eq!(decimal_text(n), n.to_string());
        assert_eq!(parse_u64(&decimal_text(n)), Some(n));
    }
    assert_eq!(signed_text(-12), "-12");
    assert_eq!(signed_text(i64::MIN), i64::MIN.to_string());
}

#[test]
fn parsing_is_that_of_the_standard_library() {
    for text in ["", "+", "+5", "-5", "007", "1_0", " 1", "18446744073709551615", "18446744073709551616"] {
        assert_eq!(parse_u64(text), text.parse::<u64>().ok(), "{text:?}");
    }
}

#[test]
fn the_order_of_texts_is_that_of_their_characters() {
    let texts = ["", "a", "ab", "b", "é", "\u{ffff}", "\u{10000}"];
    for a in texts {
        for b in texts {
            assert_eq!(is_less(a, b), a < b, "{a:?} {b:?}");
        }
    }
}

#[test]
fn paths_join_and_split_by_component() {
    let base = FsPath::new("/data/hank");
    assert_eq!(base.join(&FsPath::new("hub")), FsPath::new("/data/hank/hub"));
    assert_eq!(base.join(&FsPath::new("/etc")), FsPath::new("/etc"));
    assert_eq!(FsPath::new("/data/").join_text("x"), FsPath::new("/data/x"));
    assert_eq!(base.parent(), Some(FsPath::new("/data")));
    assert_eq!(FsPath::new("/").parent(), None);
    assert_eq!(FsPath::new("a").parent(), Some(FsPath::new("")));
    assert_eq!(base.file_name(), Some(FsPath::new("hank")));
    assert_eq!(FsPath::new("a/..").file_name(), None);
    assert!(FsPath::new("/a//b/./c").same_path(&FsPath::new("/a/b/c")));
    assert!(!FsPath::new("a").same_path(&FsPath::new("/a")));
    assert!(FsPath::new("/a/b").is_strictly_within(&FsPath::new("/a")));
    assert!(!FsPath::new("/a").is_strictly_within(&FsPath::new("/a")));
    assert!(!FsPath::new("/ab").is_strictly_within(&FsPath::new("/a")));
}

#[test]
fn paths_behave_like_those_of_the_standard_library() {
    let texts = ["", "/", "a", "/a", "a/", "a/b", "/a/b/", "./a", "a/.", "a//b", "..", "a/..", "~", "~/a", "~b"];
    for text in texts {
        let ours = FsPath::new(text);
        let theirs = std::path::Path::new(text);
        let text_of = |p: Option<FsPath>| p.map(|p| p.display());
        assert_eq!(ours.is_absolute(), theirs.is_absolute(), "{text:?}");
        assert_eq!(
            text_of(ours.parent()),
            theirs.parent().map(|p| p.display().to_string()),
            "parent of {text:?}"
        );
        assert_eq!(
            text_of(ours.file_name()),
            theirs.file_name().map(|n| n.to_string_lossy().into_owned()),
            "name of {text:?}"
        );
        assert_eq!(
            ours.starts_at_home(),
            theirs.strip_prefix("~").is_ok(),
            "home of {text:?}"
        );
        for other in texts {
            assert_eq!(
                ours.join(&FsPath::new(other)).display(),
                theirs.join(other).display().to_string(),
                "{text:?} joined with {other:?}"
            );
            assert_eq!(
                ours.same_path(&FsPath::new(other)),
                theirs == std::path::Path::new(other),
                "{text:?} and {other:?}"
            );
        }
    }
}

#[test]
fn bytes_that_are_no_text_are_shown_but_not_read() {
    let path = FsPath::from_bytes(b"/tmp/\xff\xfe".to_vec());
    assert_eq!(path.to_text(), None);
    assert_eq!(path.display(), "/tmp/\u{fffd}\u{fffd}");
    assert_eq!(path.as_bytes(), &b"/tmp/\xff\xfe".to_vec());
    assert_eq!(FsPath::new("/tmp/rä").to_text(), Some("/tmp/rä".to_string()));
}

#[test]
fn times_are_seconds_and_nanoseconds_since_the_epoch() {
    let t = Timestamp::from_unix(-1, 250_000_000);
    assert_eq!(t.unix_secs(), -1);
    assert_eq!(t.subsec_nanos(), 250_000_000);
    let u = Timestamp::from_unix(3, 0);
    assert_eq!(u.nanos_since(&t), Some(3_750_000_000));
    assert_eq!(u.seconds_since(&t), 3);
    assert_eq!(t.nanos_since(&u), None);
    assert_eq!(t.seconds_since(&u), 0);
    assert!(u.not_before(&t) && u.not_before(&u) && !t.not_before(&u));
}
