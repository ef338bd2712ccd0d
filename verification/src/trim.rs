//! Trimming a name at a marker, on either side of it, with the regular
//! expressions `(?P<result>.*)W.*`, `(?P<result>.*W).*`, `.*W(?P<result>.*)`
//! and `.*(?P<result>W.*)`, where `W` matches the marker literally.

use vstd::prelude::*;
use crate::args_parser::Args;
use crate::pattern::{
    escaped, regex_compiles, escape, regex_group, is_meta_character, law_escape_plain, Pattern,
};

verus! {

/// Which part of a name a marker keeps.
#[derive(Debug, Clone, Copy, PartialEq, Eq)]
pub enum TrimSide {
    /// Keep what comes before the marker.
    RightWith,
    /// Keep what comes before the marker, and the marker.
    RightAfter,
    /// Keep what comes after the marker.
    LeftWith,
    /// Keep the marker and what comes after it.
    LeftAfter,
}

/// The regular expression that trims at the marker `w` on `side`; the kept
/// part is the group `result`.
pub open spec fn trim_pattern_text(w: Seq<char>, side: TrimSide) -> Seq<char> {
    match side {
        TrimSide::RightWith => "(?P<result>.*)"@ + escaped(w) + ".*"@,
        TrimSide::RightAfter => "(?P<result>.*"@ + escaped(w) + ").*"@,
        TrimSide::LeftWith => ".*"@ + escaped(w) + "(?P<result>.*)"@,
        TrimSide::LeftAfter => ".*(?P<result>"@ + escaped(w) + ".*)"@,
    }
}

/// What a trim keeps of `s` given what the trimming expression captured:
/// the captured text, or `s` itself where nothing was captured.
pub open spec fn captured_or_whole(s: Seq<char>, captured: Option<Seq<char>>) -> Seq<char> {
    match captured {
        Some(c) => c,
        None => s,
    }
}

/// `s` trimmed at the marker `w`: what the group `result` of the trimming
/// expression captures; `s` itself where `w` is empty or the expression
/// captures nothing.
pub open spec fn trimmed_at(s: Seq<char>, w: Seq<char>, side: TrimSide) -> Seq<char> {
    if w.len() == 0 {
        s
    } else {
        captured_or_whole(s, regex_group(trim_pattern_text(w, side), s, "result"@))
    }
}

/// What a trim keeps of `s` given what the trimming expression captured
/// (see [`captured_or_whole`]).
pub fn keep_captured(s: &str, captured: Option<String>) -> (r: String)
    ensures
        r@ == captured_or_whole(s@, match captured {
            Some(c) => Some(c@),
            None => None,
        }),
{
    match captured {
        Some(c) => c,
        None => s.to_owned(),
    }
}

/// The trimming expression for a non-empty marker compiles.
pub open spec fn trim_compiles(w: Seq<char>, side: TrimSide) -> bool {
    w.len() > 0 ==> regex_compiles(trim_pattern_text(w, side))
}

/// What `trim` makes of `s` with the four markers, applied in this order:
/// keep before `right_with`, keep up to and with `right_after`, keep after
/// `left_with`, keep from `left_after` on. An empty marker does nothing.
pub open spec fn trimmed_name(
    s: Seq<char>,
    right_with: Seq<char>,
    right_after: Seq<char>,
    left_with: Seq<char>,
    left_after: Seq<char>,
) -> Seq<char> {
    let a = trimmed_at(s, right_with, TrimSide::RightWith);
    let b = trimmed_at(a, right_after, TrimSide::RightAfter);
    let c = trimmed_at(b, left_with, TrimSide::LeftWith);
    trimmed_at(c, left_after, TrimSide::LeftAfter)
}

/// The trimming expressions for the markers of `args` compile.
pub open spec fn trim_patterns_compile(args: &Args) -> bool {
    &&& trim_compiles(args.trim_right_with@, TrimSide::RightWith)
    &&& trim_compiles(args.trim_right_after@, TrimSide::RightAfter)
    &&& trim_compiles(args.trim_left_with@, TrimSide::LeftWith)
    &&& trim_compiles(args.trim_left_after@, TrimSide::LeftAfter)
}

/// The trimming expression for the marker `w` on `side`.
pub fn trim_pattern(w: &str, side: TrimSide) -> (p: String)
    ensures
        p@ == trim_pattern_text(w@, side),
{
    let esc = escape(w);
    let mut p = String::new();
    match side {
        TrimSide::RightWith => {
            p.append("(?P<result>.*)");
            p.append(esc.as_str());
            p.append(".*");
        },
        TrimSide::RightAfter => {
            p.append("(?P<result>.*");
            p.append(esc.as_str());
            p.append(").*");
        },
        TrimSide::LeftWith => {
            p.append(".*");
            p.append(esc.as_str());
            p.append("(?P<result>.*)");
        },
        TrimSide::LeftAfter => {
            p.append(".*(?P<result>");
            p.append(esc.as_str());
            p.append(".*)");
        },
    }
    p
}

/// Whether the trimming expression for `w` on `side` compiles (always so
/// for an empty marker, which is not used).
pub fn trim_pattern_ok(w: &str, side: TrimSide) -> (b: bool)
    ensures
        b == trim_compiles(w@, side),
{
    if w.is_empty() {
        true
    } else {
        Pattern::compile(trim_pattern(w, side).as_str()).is_ok()
    }
}

/// Whether the trimming expressions for the markers of `args` compile.
pub fn trim_patterns_ok(args: &Args) -> (b: bool)
    ensures
        b == trim_patterns_compile(args),
{
    trim_pattern_ok(args.trim_right_with.as_str(), TrimSide::RightWith) && trim_pattern_ok(
        args.trim_right_after.as_str(),
        TrimSide::RightAfter,
    ) && trim_pattern_ok(args.trim_left_with.as_str(), TrimSide::LeftWith) && trim_pattern_ok(
        args.trim_left_after.as_str(),
        TrimSide::LeftAfter,
    )
}

/// Trims `s` at the marker `w` (see [`trimmed_at`]); what it keeps is a
/// contiguous part of `s`.
pub fn trim_at(s: &str, w: &str, side: TrimSide) -> (r: String)
    requires
        trim_compiles(w@, side),
    ensures
        r@ == trimmed_at(s@, w@, side),
        exists|a: int, b: int| 0 <= a <= b <= s@.len() && r@ == s@.subrange(a, b),
{
    if w.is_empty() {
        assert(s@.subrange(0, s@.len() as int) =~= s@);
        return s.to_owned();
    }
    let text = trim_pattern(w, side);
    let pattern = match Pattern::compile(text.as_str()) {
        Ok(p) => p,
        Err(_) => vstd::pervasive::unreached(),
    };
    let captured = pattern.capture_group(s, "result");
    assert(s@.subrange(0, s@.len() as int) =~= s@);
    keep_captured(s, captured)
}

proof fn lemma_part_of_part(s: Seq<char>, t: Seq<char>, u: Seq<char>, a: int, b: int, c: int, d: int)
    requires
        0 <= a <= b <= s.len(),
        t == s.subrange(a, b),
        0 <= c <= d <= t.len(),
        u == t.subrange(c, d),
    ensures
        0 <= a + c <= a + d <= s.len(),
        u == s.subrange(a + c, a + d),
{
    assert(u =~= s.subrange(a + c, a + d));
}

/// Trims `string` at the markers that `args` gives (see [`trimmed_name`]);
/// what it keeps is a contiguous part of `string`.
pub fn trim(string: &str, args: &Args) -> (r: String)
    requires
        trim_patterns_compile(args),
    ensures
        r@ == trimmed_name(
            string@,
            args.trim_right_with@,
            args.trim_right_after@,
            args.trim_left_with@,
            args.trim_left_after@,
        ),
        exists|a: int, b: int| 0 <= a <= b <= string@.len() && r@ == string@.subrange(a, b),
{
    let s1 = trim_at(string, args.trim_right_with.as_str(), TrimSide::RightWith);
    let s2 = trim_at(s1.as_str(), args.trim_right_after.as_str(), TrimSide::RightAfter);
    let s3 = trim_at(s2.as_str(), args.trim_left_with.as_str(), TrimSide::LeftWith);
    let s4 = trim_at(s3.as_str(), args.trim_left_after.as_str(), TrimSide::LeftAfter);
    proof {
        let (a1, b1) = choose|a: int, b: int|
            0 <= a <= b <= string@.len() && s1@ == string@.subrange(a, b);
        let (a2, b2) = choose|a: int, b: int|
            0 <= a <= b <= s1@.len() && s2@ == s1@.subrange(a, b);
        let (a3, b3) = choose|a: int, b: int|
            0 <= a <= b <= s2@.len() && s3@ == s2@.subrange(a, b);
        let (a4, b4) = choose|a: int, b: int|
            0 <= a <= b <= s3@.len() && s4@ == s3@.subrange(a, b);
        lemma_part_of_part(string@, s1@, s2@, a1, b1, a2, b2);
        lemma_part_of_part(string@, s2@, s3@, a1 + a2, a1 + b2, a3, b3);
        lemma_part_of_part(string@, s3@, s4@, a1 + a2 + a3, a1 + a2 + b3, a4, b4);
    }
    s4
}

/// Empty markers leave a name as it is.
pub proof fn law_trim_without_markers(s: Seq<char>)
    ensures
        trimmed_name(s, Seq::empty(), Seq::empty(), Seq::empty(), Seq::empty()) == s,
{
}

/// The trimming expressions, character by character: the marker is matched
/// literally (escaped), the group `result` holds the kept part, and `.*`
/// (as much as possible of one line) stands on the other side:
/// `(?P<result>.*)W.*`, `(?P<result>.*W).*`, `.*W(?P<result>.*)` and
/// `.*(?P<result>W.*)`.
pub proof fn law_trim_patterns(w: Seq<char>)
    ensures
        trim_pattern_text(w, TrimSide::RightWith) == seq![
            '(', '?', 'P', '<', 'r', 'e', 's', 'u', 'l', 't', '>', '.', '*', ')',
        ] + escaped(w) + seq!['.', '*'],
        trim_pattern_text(w, TrimSide::RightAfter) == seq![
            '(', '?', 'P', '<', 'r', 'e', 's', 'u', 'l', 't', '>', '.', '*',
        ] + escaped(w) + seq![')', '.', '*'],
        trim_pattern_text(w, TrimSide::LeftWith) == seq!['.', '*'] + escaped(w) + seq![
            '(', '?', 'P', '<', 'r', 'e', 's', 'u', 'l', 't', '>', '.', '*', ')',
        ],
        trim_pattern_text(w, TrimSide::LeftAfter) == seq![
            '.', '*', '(', '?', 'P', '<', 'r', 'e', 's', 'u', 'l', 't', '>',
        ] + escaped(w) + seq!['.', '*', ')'],
        seq!['r', 'e', 's', 'u', 'l', 't'] == "result"@,
{
    reveal_strlit("(?P<result>.*)");
    reveal_strlit("(?P<result>.*");
    reveal_strlit(".*");
    reveal_strlit(").*");
    reveal_strlit(".*(?P<result>");
    reveal_strlit(".*)");
    reveal_strlit("result");
    assert("(?P<result>.*)"@ =~= seq![
        '(', '?', 'P', '<', 'r', 'e', 's', 'u', 'l', 't', '>', '.', '*', ')',
    ]);
    assert("(?P<result>.*"@ =~= seq![
        '(', '?', 'P', '<', 'r', 'e', 's', 'u', 'l', 't', '>', '.', '*',
    ]);
    assert(".*"@ =~= seq!['.', '*']);
    assert(").*"@ =~= seq![')', '.', '*']);
    assert(".*(?P<result>"@ =~= seq!['.', '*', '(', '?', 'P', '<', 'r', 'e', 's', 'u', 'l', 't', '>']);
    assert(".*)"@ =~= seq!['.', '*', ')']);
    assert("result"@ =~= seq!['r', 'e', 's', 'u', 'l', 't']);
}


/// A marker of letters, digits and spaces is put into the expression as it
/// is written: trimming before `WEB` looks for `(?P<result>.*)WEB.*`.
pub proof fn law_trim_plain_marker(w: Seq<char>)
    requires
        forall|k: int|
            0 <= k < w.len() ==> ('a' <= #[trigger] w[k] <= 'z' || 'A' <= w[k] <= 'Z' || '0'
                <= w[k] <= '9' || w[k] == ' '),
    ensures
        trim_pattern_text(w, TrimSide::RightWith) == seq![
            '(', '?', 'P', '<', 'r', 'e', 's', 'u', 'l', 't', '>', '.', '*', ')',
        ] + w + seq!['.', '*'],
        trim_pattern_text(w, TrimSide::RightAfter) == seq![
            '(', '?', 'P', '<', 'r', 'e', 's', 'u', 'l', 't', '>', '.', '*',
        ] + w + seq![')', '.', '*'],
        trim_pattern_text(w, TrimSide::LeftWith) == seq!['.', '*'] + w + seq![
            '(', '?', 'P', '<', 'r', 'e', 's', 'u', 'l', 't', '>', '.', '*', ')',
        ],
        trim_pattern_text(w, TrimSide::LeftAfter) == seq![
            '.', '*', '(', '?', 'P', '<', 'r', 'e', 's', 'u', 'l', 't', '>',
        ] + w + seq!['.', '*', ')'],
{
    assert forall|k: int| 0 <= k < w.len() implies !is_meta_character(#[trigger] w[k]) by {}
    law_escape_plain(w);
    law_trim_patterns(w);
}

/// Each marker trims on its own side: with only one marker given, trimming
/// is that one step (before `right_with`, up to and with `right_after`,
/// after `left_with`, from `left_after` on).
pub proof fn law_trim_one_marker(s: Seq<char>, w: Seq<char>)
    ensures
        trimmed_name(s, w, Seq::empty(), Seq::empty(), Seq::empty()) == trimmed_at(
            s,
            w,
            TrimSide::RightWith,
        ),
        trimmed_name(s, Seq::empty(), w, Seq::empty(), Seq::empty()) == trimmed_at(
            s,
            w,
            TrimSide::RightAfter,
        ),
        trimmed_name(s, Seq::empty(), Seq::empty(), w, Seq::empty()) == trimmed_at(
            s,
            w,
            TrimSide::LeftWith,
        ),
        trimmed_name(s, Seq::empty(), Seq::empty(), Seq::empty(), w) == trimmed_at(
            s,
            w,
            TrimSide::LeftAfter,
        ),
{
}

/// Trimming with several markers trims with each marker alone, in turn:
/// first `right_with`, then `right_after`, then `left_with`, then
/// `left_after`, each on what the step before it kept.
pub proof fn law_trim_markers_in_turn(
    s: Seq<char>,
    right_with: Seq<char>,
    right_after: Seq<char>,
    left_with: Seq<char>,
    left_after: Seq<char>,
)
    ensures
        ({
            let e = Seq::<char>::empty();
            let a = trimmed_name(s, right_with, e, e, e);
            let b = trimmed_name(a, e, right_after, e, e);
            let c = trimmed_name(b, e, e, left_with, e);
            trimmed_name(s, right_with, right_after, left_with, left_after) == trimmed_name(
                c,
                e,
                e,
                e,
                left_after,
            )
        }),
{
}

} // verus!
