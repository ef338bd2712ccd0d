use ezr::args_parser::{parse_regex, Args};
use ezr::pattern::Pattern;
use ezr::init::{expands, keep_top_level, positions_of_true, select_matching, Walk};

#[test]
fn default_pattern_selects_every_name() {
    let args = Args::new();
    let names = vec![String::from("a.txt"), String::from("B.MKV"), String::from(" ")];
    assert_eq!(select_matching(&args, &names), vec![0, 1, 2]);
}

#[test]
fn names_are_lowercased_before_matching() {
    let mut args = Args::new();
    args.file_match = Pattern::compile("mkv$").unwrap();
    let names = vec![String::from("a.txt"), String::from("B.MKV"), String::from("c.mkv")];
    assert_eq!(select_matching(&args, &names), vec![1, 2]);
}

#[test]
fn the_command_line_pattern_is_lowercased() {
    let mut args = Args::new();
    args.file_match = parse_regex("^S01").unwrap();
    let names = vec![String::from("s01e01.mkv"), String::from("S01E02.mkv"), String::from("x")];
    assert_eq!(select_matching(&args, &names), vec![0, 1]);
    assert!(Pattern::compile("^S01").unwrap().is_match("S01"));
    assert!(!Pattern::compile("^S01").unwrap().is_match("s01"));
}

#[test]
fn the_command_line_pattern_keeps_its_escapes() {
    let mut args = Args::new();
    args.file_match = parse_regex(r"^\D").unwrap();
    let names = vec![String::from("abc"), String::from("1abc")];
    assert_eq!(select_matching(&args, &names), vec![0]);
}

#[test]
fn invalid_pattern_is_refused() {
    let e = parse_regex("foo(bar").unwrap_err();
    assert!(!e.message.is_empty());
    assert!(Pattern::compile(".").is_ok());
}

#[test]
fn top_level_entries() {
    assert!(keep_top_level(Some(false), false));
    assert!(!keep_top_level(Some(true), false));
    assert!(keep_top_level(Some(true), true));
    assert!(keep_top_level(Some(false), true));
    assert!(!keep_top_level(None, true));
    assert!(!keep_top_level(None, false));
}

#[test]
fn walk_order_and_directories() {
    // 0: dir with children 3, 4; 1: file; 2: dir with child 5
    let mut w = Walk::new(vec![0, 1, 2]);
    let mut order = vec![];
    while let Some(e) = w.next_entry() {
        order.push(e);
        let (kind, children) = match e {
            0 => (Some(true), vec![3, 4]),
            2 => (Some(true), vec![5]),
            5 => (None, vec![]),
            _ => (Some(false), vec![]),
        };
        w.settle(e, kind, children, false);
    }
    assert!(w.is_done());
    // swap_remove(0) moves the last pending entry to the front
    assert_eq!(order, vec![0, 2, 4, 5, 3, 1]);
    assert_eq!(w.found, vec![4, 5, 3, 1]);
}

#[test]
fn walk_with_directories_taken() {
    let mut w = Walk::new(vec![7]);
    let e = w.next_entry().unwrap();
    w.settle(e, Some(true), vec![8], true);
    let e = w.next_entry().unwrap();
    w.settle(e, Some(false), vec![], true);
    assert_eq!(w.next_entry(), None);
    assert_eq!(w.found, vec![7, 8]);
}

#[test]
fn lowercasing_the_pattern_does_not_fold_other_letters() {
    let mut args = Args::new();
    args.file_match = parse_regex("s").unwrap();
    let names = vec![String::from("ſ"), String::from("S")];
    assert_eq!(select_matching(&args, &names), vec![1]);
}

#[test]
fn lower_pattern_keeps_escapes() {
    assert_eq!(ezr::args_parser::lower_pattern(r"AB\DC\W"), r"ab\Dc\W");
    assert_eq!(ezr::args_parser::lower_pattern(r"X\"), r"x\");
    assert_eq!(ezr::args_parser::lower_pattern(""), "");
    assert_eq!(ezr::args_parser::lower_pattern("ΣΑΣ"), "ΣΑΣ".to_lowercase());
}

#[test]
fn positions_and_kinds() {
    assert_eq!(positions_of_true(&vec![true, false, true, true]), vec![0, 2, 3]);
    assert_eq!(positions_of_true(&vec![]), Vec::<usize>::new());
    assert!(expands(Some(true)));
    assert!(!expands(Some(false)));
    assert!(!expands(None));
}
