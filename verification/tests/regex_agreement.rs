//! The trimming and the bracket removal give what the regular expressions
//! that describe them give on the `regex` crate.

use ezr::args_parser::Args;
use ezr::name_processing::remove_inside_brackets;
use ezr::text::white_space;
use ezr::trim::trim;

const SAMPLES: [&str; 14] = [
    "",
    "plain",
    "a-b-c",
    "-lead",
    "trail-",
    "--",
    "x\ny-z",
    "a-b\nc-d\ne",
    "\n-\n",
    "[a] [b]\n(c) [d",
    "[[a]] ((b)\n)",
    "żó-łw [ę] (ą)",
    "ab|cd|\n|ef",
    "-a-\n-b-",
];

const MARKERS: [&str; 6] = ["-", "a", "\n", "-\n", "[", "b-"];

fn regex_trim(s: &str, template: &str, marker: &str) -> String {
    let re = regex::Regex::new(&template.replace("W", &regex::escape(marker))).unwrap();
    match re.captures(s) {
        Some(c) => c.name("result").unwrap().as_str().to_string(),
        None => s.to_string(),
    }
}

#[test]
fn trim_agrees_with_the_regex_crate() {
    for s in SAMPLES {
        for m in MARKERS {
            let cases = [
                ("(?P<result>.*)W.*", Args { trim_right_with: m.to_string(), ..Args::new() }),
                ("(?P<result>.*W).*", Args { trim_right_after: m.to_string(), ..Args::new() }),
                (".*W(?P<result>.*)", Args { trim_left_with: m.to_string(), ..Args::new() }),
                (".*(?P<result>W.*)", Args { trim_left_after: m.to_string(), ..Args::new() }),
            ];
            for (template, args) in cases {
                assert_eq!(
                    trim(s, &args),
                    regex_trim(s, template, m),
                    "input {:?}, marker {:?}, pattern {}",
                    s,
                    m,
                    template
                );
            }
        }
    }
}

fn regex_brackets(s: &str, b: char, e: char) -> String {
    let pattern = format!(
        "{}.*?{}",
        regex::escape(&b.to_string()),
        regex::escape(&e.to_string())
    );
    regex::Regex::new(&pattern).unwrap().replace_all(s, "").to_string()
}

#[test]
fn brackets_agree_with_the_regex_crate() {
    let pairs = ["[]", "()", "||", "[)", "a-", "\n]", "[\n", "b\n"];
    for s in SAMPLES {
        for p in pairs {
            let cs: Vec<char> = p.chars().collect();
            assert_eq!(
                remove_inside_brackets(s, p).unwrap(),
                regex_brackets(s, cs[0], cs[1]),
                "input {:?}, brackets {:?}",
                s,
                p
            );
        }
    }
}

#[test]
fn white_space_agrees_with_std() {
    for u in 0u32..0x11000 {
        if let Some(c) = char::from_u32(u) {
            assert_eq!(white_space(c), c.is_whitespace(), "{:x}", u);
        }
    }
    for u in [0x1FFFFu32, 0x10FFFF, 0xE0020] {
        let c = char::from_u32(u).unwrap();
        assert_eq!(white_space(c), c.is_whitespace());
    }
}
