use mirkobo::args::Args;
use mirkobo::device::{click_args, parse_screen_size};
use mirkobo::text::{parse_u32_bytes, split_bytes};

const FBSET: &str = "\nmode \"758x1024-0\"\n\t# D: 0.000 MHz, H: 0.000 kHz, V: 0.000 Hz\n\tgeometry 758 1024 768 2048 16\n\ttimings 0 0 0 0 0 0 0\nendmode\n";

#[test]
fn screen_size_from_fbset() {
    assert_eq!(parse_screen_size(FBSET.as_bytes()), Some((758, 1024)));
}

#[test]
fn screen_size_missing_or_malformed() {
    assert_eq!(parse_screen_size(b""), None);
    assert_eq!(parse_screen_size(b"\nmode\n\t#\n"), None);
    assert_eq!(parse_screen_size(b"\nmode\n\t#\n\tgeometry 758\n"), None);
    assert_eq!(parse_screen_size(b"a\nb\nc\n  geometry 758 1024\n"), None);
    assert_eq!(parse_screen_size(b"a\nb\nc\ngeometry 758 x\n"), None);
    assert_eq!(parse_screen_size(b"a\nb\nc\ngeometry +758 1024"), Some((758, 1024)));
}

#[test]
fn decimal_parsing_like_std() {
    for s in ["0", "42", "+7", "007", "4294967295", "4294967296", "", "+", "-1", "1 ", " 1", "99999999999999999999", "12a"] {
        assert_eq!(parse_u32_bytes(s.as_bytes()), s.parse::<u32>().ok(), "{:?}", s);
    }
}

#[test]
fn splitting_like_std() {
    for s in ["", "a", "a b", " a  b ", "  "] {
        let ours: Vec<Vec<u8>> = split_bytes(s.as_bytes(), b' ');
        let theirs: Vec<Vec<u8>> = s.split(' ').map(|p| p.as_bytes().to_vec()).collect();
        assert_eq!(ours, theirs, "{:?}", s);
    }
}

#[test]
fn touch_arguments() {
    assert_eq!(click_args(12, 345), vec!["touch", "/dev/input/event1", "12", "345"]);
    assert_eq!(click_args(0, 65535), vec!["touch", "/dev/input/event1", "0", "65535"]);
}

#[test]
fn default_settings() {
    let args = Args::with_monitor("1920x1080".to_string());
    assert_eq!(args.port, 24356);
    assert_eq!(args.kobo_w, 1024);
    assert_eq!(args.kobo_h, 758);
    assert_eq!(args.monitor, "1920x1080");
    assert_eq!(args.number_of_colors, 2);
    assert_eq!(args.tree_depth, 4);
}
