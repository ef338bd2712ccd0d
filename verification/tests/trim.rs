use ezr::args_parser::Args;
use ezr::trim::{keep_captured, trim, trim_at, TrimSide};

#[test]
fn test_trim() {
    let mut args = Args::new();

    assert_eq!(
        trim("black mirror bandersnatch [x265] [1080p]", &args),
        String::from("black mirror bandersnatch [x265] [1080p]")
    );

    args.trim_right_after = String::from("snatch");
    assert_eq!(
        trim("black mirror bandersnatch [x265] [1080p]", &args),
        String::from("black mirror bandersnatch")
    );

    args.trim_right_after = String::new();
    args.trim_right_with = String::from("[x26");
    assert_eq!(
        trim("black mirror bandersnatch [x265] [1080p]", &args),
        String::from("black mirror bandersnatch ")
    );

    args.trim_right_with = String::new();
    args.trim_left_after = String::from("black");

    assert_eq!(
        trim("[HoriibelSubs] black mirror bandersnatch", &args),
        String::from("black mirror bandersnatch")
    );

    args.trim_left_after = String::new();
    args.trim_left_with = String::from("ubs]");
    assert_eq!(
        trim("[HoriibelSubs] black mirror bandersnatch", &args),
        String::from(" black mirror bandersnatch")
    );

    assert_eq!(
        trim("fnaewuofajdsnfawkjenfkjandskjfawhebfouiabsnjdnfai", &args),
        String::from("fnaewuofajdsnfawkjenfkjandskjfawhebfouiabsnjdnfai")
    );

    assert_eq!(trim("", &args), String::from(""));
}

fn with_markers(rw: &str, ra: &str, lw: &str, la: &str) -> Args {
    let mut args = Args::new();
    args.trim_right_with = rw.to_string();
    args.trim_right_after = ra.to_string();
    args.trim_left_with = lw.to_string();
    args.trim_left_after = la.to_string();
    args
}

#[test]
fn readme_examples_trim() {
    let name = "Mind Field S03E02 [1080p] [x265] [YIFY]";
    assert_eq!(trim(name, &with_markers("", "[1080p]", "", "")), "Mind Field S03E02 [1080p]");
    assert_eq!(trim(name, &with_markers("[1080p]", "", "", "")), "Mind Field S03E02 ");
    let subs = "[HorribleSubs] Mind Field S03E02";
    assert_eq!(trim(subs, &with_markers("", "", "", "Mind")), "Mind Field S03E02");
    assert_eq!(trim(subs, &with_markers("", "", "ubs]", "")), " Mind Field S03E02");
}

#[test]
fn trim_uses_the_last_marker_on_the_line() {
    assert_eq!(trim("a-b-c", &with_markers("-", "", "", "")), "a-b");
    assert_eq!(trim("a-b-c", &with_markers("", "-", "", "")), "a-b-");
    assert_eq!(trim("a-b-c", &with_markers("", "", "-", "")), "c");
    assert_eq!(trim("a-b-c", &with_markers("", "", "", "-")), "-c");
}

#[test]
fn trim_applies_the_markers_in_order() {
    let args = with_markers("]", "", "[", "");
    assert_eq!(trim("x[y]z", &args), "y");
}

#[test]
fn trim_stops_at_line_breaks() {
    assert_eq!(trim("ab\ncd-e\nf", &with_markers("", "", "-", "")), "e");
    assert_eq!(trim("ab\ncd-e\nf", &with_markers("-", "", "", "")), "cd");
}

#[test]
fn trim_at_keeps_a_part() {
    let r = trim_at("one two three", "two", TrimSide::LeftAfter);
    assert_eq!(r, "two three");
    assert!("one two three".contains(&r));
    assert_eq!(trim_at("one two three", "zzz", TrimSide::RightWith), "one two three");
    assert_eq!(trim_at("a.b(c", "(", TrimSide::RightWith), "a.b");
    assert_eq!(trim_at("one", "", TrimSide::LeftWith), "one");
}

#[test]
fn keep_captured_takes_the_capture_or_the_whole() {
    assert_eq!(keep_captured("abc", Some(String::from("b"))), "b");
    assert_eq!(keep_captured("abc", None), "abc");
}

#[test]
fn escape_matches_the_regex_crate() {
    for s in ["", "a.b", r"\+*?()|[]{}^$#&-~", "«x»", "plain text"] {
        assert_eq!(ezr::pattern::escape(s), regex::escape(s));
    }
}
