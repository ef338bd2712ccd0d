use ezr::args_parser::Args;
use ezr::name_processing::{
    cleanup_spaces, delete, fix_spaces, process_name, process_name_checked,
    remove_inside_brackets, split_extension, MalformedBrackets,
};

#[test]
fn test_remove_inside_brackets() {
    let mock = String::from("black_mirror_bandersnatch_[720p]_(x264)");
    let mock = remove_inside_brackets(&mock, &String::from("[]()")).unwrap();
    assert_eq!(mock, String::from("black_mirror_bandersnatch__"));
    let mock = String::from("black_mirror_bandersnatch");
    let mock = remove_inside_brackets(&mock, &String::from("")).unwrap();
    assert_eq!(mock, String::from("black_mirror_bandersnatch"));
    let mock = String::from("black_mirrór_bandersnątćh");
    let mock = remove_inside_brackets(&mock, &String::from("")).unwrap();
    assert_eq!(mock, String::from("black_mirrór_bandersnątćh"));
}

#[test]
fn test_fix_spaces() {
    let mock_input = String::from("black_mirror_bandersnatch.[720p].(x264)");
    let mock_replacer = "._";
    assert_eq!(
        fix_spaces(&mock_input, mock_replacer),
        String::from("black mirror bandersnatch [720p] (x264)")
    );
}

#[test]
fn test_cleanup_spaces() {
    assert_eq!(
        cleanup_spaces("   black   mirror   bandersnatch  "),
        String::from("black mirror bandersnatch")
    );
}

#[test]
fn test_delete() {
    assert_eq!(
        delete(
            "Black Mirror Bandersnatch [x265] [1080p] [EpicRelease]",
            "[x265] [1080p] [EpicRelease]"
        ),
        String::from("Black Mirror Bandersnatch ")
    )
}

#[test]
fn test_hyphen() {
    assert_eq!(delete("Foo -[bar]", "-[bar]"), String::from("Foo "))
}

#[test]
fn doc_example_cleanup_spaces() {
    assert_eq!(cleanup_spaces("  asdfasdf  sd   asdfk   "), "asdfasdf sd asdfk");
}

#[test]
fn doc_example_fix_spaces() {
    assert_eq!(
        fix_spaces("Love_Death_and_Robots_S01E14.Zima.Blue", "_."),
        "Love Death and Robots S01E14 Zima Blue"
    );
}

#[test]
fn doc_example_remove_inside_brackets() {
    assert_eq!(
        remove_inside_brackets("black mirror s03e01 (2018) [x265] [1080p]", "[]()").unwrap(),
        "black mirror s03e01   "
    );
}

#[test]
fn doc_example_delete() {
    assert_eq!(delete("LDR S01E2 720p x265-PSA", "720p x265-PSA"), "LDR S01E2 ");
}

#[test]
fn readme_example_delete() {
    assert_eq!(
        delete("Green Book (2018) [WEBRip] [720p] [YTS.AM]", "[WEBRip] [720p] [YTS.AM]"),
        "Green Book (2018) "
    );
}

#[test]
fn readme_example_fix_spaces() {
    assert_eq!(fix_spaces("the_office_[720p]_[x265]", "_"), "the office [720p] [x265]");
}

#[test]
fn readme_example_remove_tags() {
    let r = remove_inside_brackets("Mind Field S03E02 (2018) [1080p] [x265] [YIFY]", "[] ()").unwrap();
    assert_eq!(cleanup_spaces(&r), "Mind Field S03E02");
}

#[test]
fn cleanup_trims_unicode_white_space_and_keeps_inner_tabs() {
    assert_eq!(cleanup_spaces("\u{3000}\ta  \t b\u{a0}"), "a \t b");
    assert_eq!(cleanup_spaces(""), "");
    assert_eq!(cleanup_spaces("     "), "");
}

#[test]
fn cleanup_law_on_values() {
    let once = cleanup_spaces("  x  y   z ");
    assert_eq!(cleanup_spaces(&once), once);
    assert!(!once.contains("  "));
}

#[test]
fn fix_spaces_law_on_values() {
    let once = fix_spaces("a.b_c d", "._ ");
    assert_eq!(once, "a b c d");
    assert_eq!(fix_spaces(&once, "._ "), once);
    assert_eq!(once.chars().count(), "a.b_c d".chars().count());
}

#[test]
fn delete_edge_cases() {
    assert_eq!(delete("abc", ""), "abc");
    assert_eq!(delete("aaa", "aa"), "a");
    assert_eq!(delete("aabb", "ab"), "ab");
    assert_eq!(delete("xyz", "q"), "xyz");
    assert_eq!(delete("żółw żółw", "ół"), "żw żw");
}

#[test]
fn brackets_shortest_part_and_line_breaks() {
    assert_eq!(remove_inside_brackets("a[b]c]d", "[]").unwrap(), "ac]d");
    assert_eq!(remove_inside_brackets("[a\n[b]", "[]").unwrap(), "[a\n");
    assert_eq!(remove_inside_brackets("[[a]", "[]").unwrap(), "");
    assert_eq!(remove_inside_brackets("x|y|z", "||").unwrap(), "xz");
    assert_eq!(remove_inside_brackets("open [ only", "[]").unwrap(), "open [ only");
}

#[test]
fn brackets_law_on_values() {
    let once = remove_inside_brackets("a[b[c]d]e[f", "[]").unwrap();
    assert_eq!(once, "ad]e[f");
    assert_eq!(remove_inside_brackets(&once, "[]").unwrap(), once);
}

#[test]
fn brackets_unpaired_is_an_error() {
    assert_eq!(remove_inside_brackets("a[b]", "[]("), Err(MalformedBrackets));
    assert_eq!(remove_inside_brackets("a[b]", "["), Err(MalformedBrackets));
}

#[test]
fn brackets_of_any_characters() {
    assert_eq!(remove_inside_brackets("a «b» c", "«»").unwrap(), "a  c");
    assert_eq!(remove_inside_brackets("a «b» [c] d", "«» []").unwrap(), "a   d");
    assert_eq!(remove_inside_brackets("x.y.z", "..").unwrap(), "xz");
    assert_eq!(remove_inside_brackets("a^b$c", "^$").unwrap(), "ac");
}

#[test]
fn brackets_pairs_separated_by_spaces() {
    assert_eq!(remove_inside_brackets("a(b)[c]d", "[] ()").unwrap(), "ad");
    assert_eq!(remove_inside_brackets("a(b)[c]d", " () ").unwrap(), "a[c]d");
    assert_eq!(remove_inside_brackets("a(b)[c]d", "[ ]"), Err(MalformedBrackets));
    assert_eq!(remove_inside_brackets("a(b)[c]d", "  "), Ok(String::from("a(b)[c]d")));
}

#[test]
fn split_extension_cases() {
    let cases: [(&str, &str, &str); 10] = [
        ("movie.mkv", "movie", "mkv"),
        ("archive.tar.gz", "archive.tar", "gz"),
        (".hidden", ".hidden", ""),
        ("noext", "noext", ""),
        ("trailing.", "trailing", ""),
        ("..", "..", ""),
        ("a..b", "a.", "b"),
        ("Green Book (2018) [WEBRip] [720p] [YTS.AM]", "Green Book (2018) [WEBRip] [720p] [YTS.AM]", ""),
        ("x.a  b", "x", "a  b"),
        ("Movie (v1.2)", "Movie (v1.2)", ""),
    ];
    for (name, stem, ext) in cases {
        let v: Vec<char> = name.chars().collect();
        let (s, e) = split_extension(&v);
        assert_eq!(s.iter().collect::<String>(), stem, "stem of {}", name);
        assert_eq!(e.iter().collect::<String>(), ext, "extension of {}", name);
    }
}

#[test]
fn process_name_pipeline() {
    let mut args = Args::new();
    args.remove_tags = String::from("[]()");
    args.fix_spaces = String::from("_.");
    args.delete = String::from("x265");
    args.trim_right_with = String::from("720p");
    let r = process_name("Black_Mirror_(2018)_[tag]_S01.x265.720p.rest.mkv", &args).unwrap();
    assert_eq!(r, "Black Mirror S01.mkv");
}

#[test]
fn process_name_keeps_extension_and_cleans_up() {
    let args = Args::new();
    assert_eq!(process_name("  a   b .txt", &args).unwrap(), "a b.txt");
    assert_eq!(process_name("plain", &args).unwrap(), "plain");
    assert_eq!(process_name("trailing.", &args).unwrap(), "trailing");
    assert_eq!(process_name("x.a  b", &args).unwrap(), "x.a  b");
}

#[test]
fn process_name_with_include_ext_renames_the_whole_name_once() {
    let mut args = Args::new();
    args.include_ext = true;
    assert_eq!(process_name("a.mkv", &args).unwrap(), "a.mkv");
    args.fix_spaces = String::from("_");
    assert_eq!(process_name("the_office.mkv", &args).unwrap(), "the office.mkv");
    args.fix_spaces = String::from(".");
    assert_eq!(process_name("a.b.mkv", &args).unwrap(), "a b mkv");
}

#[test]
fn process_name_checked_refuses_a_pattern_too_big() {
    let mut args = Args::new();
    args.trim_left_with = "w".repeat(2_000_000);
    assert_eq!(process_name_checked("a.txt", &args), None);
    let args = Args::new();
    assert_eq!(process_name_checked(" a .txt", &args), Some(Ok(String::from("a.txt"))));
}

#[test]
fn process_name_dont_cleanup() {
    let mut args = Args::new();
    args.dont_cleanup = true;
    assert_eq!(process_name(" a  b .txt", &args).unwrap(), " a  b .txt");
}

#[test]
fn process_name_bracket_error() {
    let mut args = Args::new();
    args.remove_tags = String::from("[");
    assert_eq!(process_name("a.txt", &args), Err(MalformedBrackets));
}

#[test]
fn readme_scenarios_through_process_name() {
    let mut a = Args::new();
    a.delete = String::from("[WEBRip] [720p] [YTS.AM]");
    assert_eq!(
        process_name("Green Book (2018) [WEBRip] [720p] [YTS.AM]", &a).unwrap(),
        "Green Book (2018)"
    );
    assert_eq!(
        process_name("Green Book (2018) [WEBRip] [720p] [YTS.AM].mkv", &a).unwrap(),
        "Green Book (2018).mkv"
    );

    let mut a = Args::new();
    a.fix_spaces = String::from("_");
    assert_eq!(process_name("the_office_[720p]_[x265]", &a).unwrap(), "the office [720p] [x265]");

    let mut a = Args::new();
    a.remove_tags = String::from("[] ()");
    assert_eq!(
        process_name("Mind Field S03E02 (2018) [1080p] [x265] [YIFY].mkv", &a).unwrap(),
        "Mind Field S03E02.mkv"
    );

    let mut a = Args::new();
    a.trim_right_after = String::from("[1080p]");
    assert_eq!(
        process_name("Mind Field S03E02 [1080p] [x265] [YIFY].mkv", &a).unwrap(),
        "Mind Field S03E02 [1080p].mkv"
    );

    let mut a = Args::new();
    a.trim_right_with = String::from("[1080p]");
    a.dont_cleanup = true;
    assert_eq!(
        process_name("Mind Field S03E02 [1080p] [x265] [YIFY].mkv", &a).unwrap(),
        "Mind Field S03E02 .mkv"
    );

    let mut a = Args::new();
    a.trim_left_after = String::from("Mind");
    assert_eq!(process_name("[HorribleSubs] Mind Field S03E02.mkv", &a).unwrap(), "Mind Field S03E02.mkv");

    let mut a = Args::new();
    a.trim_left_with = String::from("ubs]");
    assert_eq!(process_name("[HorribleSubs] Mind Field S03E02.mkv", &a).unwrap(), "Mind Field S03E02.mkv");
}
