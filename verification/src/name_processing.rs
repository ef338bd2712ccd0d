//! The transformations applied to a file name, and their composition.

use vstd::prelude::*;
use crate::args_parser::Args;
use crate::pattern::{escaped, regex_compiles, escape, regex_replaced, Pattern};
use crate::trim::{trim, trim_patterns_compile, trim_patterns_ok, trimmed_name};
use crate::text::{
    chars_of, copy_range, is_white_space, lemma_trim_ws_shape, string_from, trim_end_ws,
    trim_start_ws, trim_ws, trimmed,
};

verus! {

/// `s` with every space that directly follows another space dropped.
pub open spec fn squeeze_spaces(s: Seq<char>) -> Seq<char>
    decreases s.len(),
{
    if s.len() == 0 {
        s
    } else {
        let before = squeeze_spaces(s.drop_last());
        if s.last() == ' ' && s.len() >= 2 && s[s.len() - 2] == ' ' {
            before
        } else {
            before.push(s.last())
        }
    }
}

/// What `cleanup_spaces` makes of `s`: runs of spaces squeezed to one, then
/// leading and trailing white space removed.
pub open spec fn cleaned_up(s: Seq<char>) -> Seq<char> {
    trim_ws(squeeze_spaces(s))
}

/// Removes trailing spaces and any double spaces.
///
/// example:
/// `cleanup_spaces("  asdfasdf  sd   asdfk   ") -> "asdfasdf sd asdfk"`
pub fn cleanup_spaces(input: &str) -> (r: String)
    ensures
        r@ == cleaned_up(input@),
{
    let s = chars_of(input);
    let mut prev_was_space = false;
    let mut output: Vec<char> = Vec::new();
    let mut i: usize = 0;
    while i < s.len()
        invariant
            i <= s.len(),
            output@ == squeeze_spaces(s@.take(i as int)),
            prev_was_space == (i > 0 && s@[i - 1] == ' '),
        decreases s.len() - i,
    {
        let x = s[i];
        proof {
            assert(s@.take(i + 1).drop_last() =~= s@.take(i as int));
        }
        if x == ' ' {
            if !prev_was_space {
                output.push(x);
                prev_was_space = true;
            }
        } else {
            prev_was_space = false;
            output.push(x);
        }
        i = i + 1;
    }
    assert(s@.take(s.len() as int) =~= s@);
    string_from(&trimmed(&output))
}

/// `s` with every character that occurs in `replacer` turned into a space.
pub open spec fn spaces_for(s: Seq<char>, replacer: Seq<char>) -> Seq<char> {
    Seq::new(s.len(), |i: int| if replacer.contains(s[i]) { ' ' } else { s[i] })
}

/// Whether `c` occurs in `v`.
fn contains_char(v: &Vec<char>, c: char) -> (b: bool)
    ensures
        b == v@.contains(c),
{
    let mut i: usize = 0;
    while i < v.len()
        invariant
            i <= v.len(),
            forall|k: int| 0 <= k < i ==> v@[k] != c,
        decreases v.len() - i,
    {
        if v[i] == c {
            return true;
        }
        i = i + 1;
    }
    false
}

/// Replaces dots or underscores or any other character with spaces
///
/// example use:
/// `fix_spaces("Love_Death_and_Robots_S01E14.Zima.Blue", "_.") -> "Love Death and Robots S01E14 Zima Blue"`
pub fn fix_spaces(input: &str, replacer: &str) -> (r: String)
    ensures
        r@ == spaces_for(input@, replacer@),
{
    let s = chars_of(input);
    let rep = chars_of(replacer);
    let mut out: Vec<char> = Vec::new();
    let mut i: usize = 0;
    while i < s.len()
        invariant
            i <= s.len(),
            rep@ == replacer@,
            out@ == spaces_for(s@, rep@).take(i as int),
        decreases s.len() - i,
    {
        let c = s[i];
        if contains_char(&rep, c) {
            out.push(' ');
        } else {
            out.push(c);
        }
        i = i + 1;
    }
    assert(out@ =~= spaces_for(s@, rep@));
    string_from(&out)
}

/// Whether `p` occurs in `s` at position `i`.
pub open spec fn occurs_at(s: Seq<char>, p: Seq<char>, i: int) -> bool {
    0 <= i && i + p.len() <= s.len() && s.subrange(i, i + p.len()) == p
}

/// `s` with the occurrences of `p` removed, scanning from the left and
/// never letting two removed occurrences overlap (what `str::replace` with an
/// empty replacement does; an empty `p` leaves `s` as it is).
pub open spec fn without_occurrences(s: Seq<char>, p: Seq<char>) -> Seq<char>
    decreases s.len(),
{
    if p.len() == 0 || s.len() == 0 {
        s
    } else if occurs_at(s, p, 0) {
        without_occurrences(s.skip(p.len() as int), p)
    } else {
        seq![s[0]] + without_occurrences(s.skip(1), p)
    }
}

/// Whether `p` occurs in `s` at position `i` (executable).
fn matches_at(s: &Vec<char>, p: &Vec<char>, i: usize) -> (b: bool)
    requires
        i <= s.len(),
    ensures
        b == occurs_at(s@, p@, i as int),
{
    if p.len() > s.len() - i {
        return false;
    }
    let mut k: usize = 0;
    while k < p.len()
        invariant
            k <= p.len(),
            i + p.len() <= s.len(),
            forall|j: int| 0 <= j < k ==> s@[i + j] == p@[j],
        decreases p.len() - k,
    {
        if s[i + k] != p[k] {
            assert(s@.subrange(i as int, i + p.len())[k as int] != p@[k as int]);
            return false;
        }
        k = k + 1;
    }
    assert(s@.subrange(i as int, i + p.len()) =~= p@);
    true
}

/// Deletes some phrase
///
/// example:
/// `delete("LDR S01E2 720p x265-PSA", "720p x265-PSA") -> "LDR S01E2 "`
pub fn delete(input: &str, to_be_deleted: &str) -> (r: String)
    ensures
        r@ == without_occurrences(input@, to_be_deleted@),
{
    let s = chars_of(input);
    let p = chars_of(to_be_deleted);
    if p.len() == 0 {
        return string_from(&s);
    }
    let mut out: Vec<char> = Vec::new();
    let mut i: usize = 0;
    assert(s@.skip(0) =~= s@);
    while i < s.len()
        invariant
            i <= s.len(),
            p.len() > 0,
            without_occurrences(s@, p@) == out@ + without_occurrences(s@.skip(i as int), p@),
        decreases s.len() - i,
    {
        let ghost rest = s@.skip(i as int);
        if matches_at(&s, &p, i) {
            proof {
                assert(rest.subrange(0, p.len() as int) =~= s@.subrange(i as int, i + p.len()));
                assert(rest.skip(p.len() as int) =~= s@.skip(i + p.len()));
            }
            i = i + p.len();
        } else {
            proof {
                if rest.len() >= p.len() {
                    assert(rest.subrange(0, p.len() as int) =~= s@.subrange(i as int, i + p.len()));
                }
                assert(rest.skip(1) =~= s@.skip(i + 1));
                assert(out@.push(s@[i as int]) + without_occurrences(s@.skip(i + 1), p@) =~= out@ + (
                seq![rest[0]] + without_occurrences(rest.skip(1), p@)));
            }
            out.push(s[i]);
            i = i + 1;
        }
    }
    assert(s@.skip(i as int) =~= Seq::<char>::empty());
    assert(out@ + Seq::<char>::empty() =~= out@);
    string_from(&out)
}

} // verus!

verus! {

/// The regular expression that removes a bracketed part `b ... e`: the two
/// brackets, matched literally, with the shortest text between them (no line
/// break, as `.` matches none).
pub open spec fn bracket_pattern_text(b: char, e: char) -> Seq<char> {
    escaped(seq![b]) + ".*?"@ + escaped(seq![e])
}

/// `s` with every match of the bracket expression for `b ... e` removed.
pub open spec fn without_bracketed(s: Seq<char>, b: char, e: char) -> Seq<char> {
    regex_replaced(bracket_pattern_text(b, e), s, Seq::empty())
}

// A bracket specification lists pairs `<opening bracket><closing bracket>`,
// one after the other or separated by spaces: read from the left, a space
// is passed over and any other character opens a pair with the character
// after it. A last character with no partner is an unpaired bracket.

/// The bracket specification ends in an opening bracket without its partner.
pub open spec fn has_unpaired_bracket(spec: Seq<char>) -> bool
    decreases spec.len(),
{
    if spec.len() == 0 {
        false
    } else if spec[0] == ' ' {
        has_unpaired_bracket(spec.skip(1))
    } else if spec.len() == 1 {
        true
    } else {
        has_unpaired_bracket(spec.skip(2))
    }
}

/// `s` after removing the bracketed parts of each pair of the bracket
/// specification in turn.
pub open spec fn strip_bracket_chunks(s: Seq<char>, spec: Seq<char>) -> Seq<char>
    decreases spec.len(),
{
    if spec.len() == 0 {
        s
    } else if spec[0] == ' ' {
        strip_bracket_chunks(s, spec.skip(1))
    } else if spec.len() == 1 {
        s
    } else {
        strip_bracket_chunks(without_bracketed(s, spec[0], spec[1]), spec.skip(2))
    }
}

/// The bracket expression of every pair of the specification compiles.
pub open spec fn bracket_patterns_compile(spec: Seq<char>) -> bool
    decreases spec.len(),
{
    if spec.len() == 0 {
        true
    } else if spec[0] == ' ' {
        bracket_patterns_compile(spec.skip(1))
    } else if spec.len() == 1 {
        true
    } else {
        regex_compiles(bracket_pattern_text(spec[0], spec[1])) && bracket_patterns_compile(
            spec.skip(2),
        )
    }
}

/// The bracket expression for the pair `b ... e`.
pub fn bracket_pattern(b: char, e: char) -> (p: String)
    ensures
        p@ == bracket_pattern_text(b, e),
{
    let ob = vec![b];
    let cb = vec![e];
    assert(ob@ =~= seq![b]);
    assert(cb@ =~= seq![e]);
    let open = string_from(&ob);
    let close = string_from(&cb);
    let mut p = escape(open.as_str());
    p.append(".*?");
    p.append(escape(close.as_str()).as_str());
    p
}

/// Whether the bracket expression of every pair of `brackets` compiles.
pub fn bracket_patterns_ok(brackets: &str) -> (ok: bool)
    ensures
        ok == bracket_patterns_compile(brackets@),
{
    let spec = chars_of(brackets);
    let mut k: usize = 0;
    assert(spec@.skip(0) =~= spec@);
    while k < spec.len()
        invariant
            spec@ == brackets@,
            k <= spec.len(),
            bracket_patterns_compile(spec@) == bracket_patterns_compile(spec@.skip(k as int)),
        decreases spec.len() - k,
    {
        let ghost rest = spec@.skip(k as int);
        assert(rest[0] == spec@[k as int]);
        if spec[k] == ' ' {
            assert(rest.skip(1) =~= spec@.skip(k + 1));
            k = k + 1;
        } else if spec.len() - k == 1 {
            assert(spec@.skip(k + 1).len() == 0);
            k = k + 1;
        } else {
            assert(rest[1] == spec@[k + 1]);
            assert(rest.skip(2) =~= spec@.skip(k + 2));
            if Pattern::compile(bracket_pattern(spec[k], spec[k + 1]).as_str()).is_err() {
                return false;
            }
            k = k + 2;
        }
    }
    true
}

/// The bracket specification could not be read as pairs of brackets: it ends
/// in a single opening bracket.
#[derive(Debug, Clone, Copy, PartialEq, Eq)]
pub struct MalformedBrackets;

/// Removes contents inside brackets (with brackets)
///
/// `brackets` lists pairs `<opening bracket><closing bracket>`, one after the
/// other or separated by spaces; they are applied in order, each removing
/// every shortest part from its opening to its closing bracket on one line.
/// A final lone opening bracket is an error.
///
/// example:
/// `remove_inside_brackets("black mirror s03e01 (2018) [x265] [1080p]", "[]()") -> "black mirror s03e01   "`
pub fn remove_inside_brackets(input: &str, brackets: &str) -> (r: Result<String, MalformedBrackets>)
    requires
        bracket_patterns_compile(brackets@),
    ensures
        r is Err <==> has_unpaired_bracket(brackets@),
        r matches Ok(out) ==> out@ == strip_bracket_chunks(input@, brackets@),
{
    let spec = chars_of(brackets);
    let nothing = String::new();
    let mut output = input.to_owned();
    let mut k: usize = 0;
    assert(spec@.skip(0) =~= spec@);
    while k < spec.len()
        invariant
            spec@ == brackets@,
            nothing@ == Seq::<char>::empty(),
            k <= spec.len(),
            strip_bracket_chunks(input@, spec@) == strip_bracket_chunks(
                output@,
                spec@.skip(k as int),
            ),
            has_unpaired_bracket(spec@) == has_unpaired_bracket(spec@.skip(k as int)),
            bracket_patterns_compile(spec@.skip(k as int)),
        decreases spec.len() - k,
    {
        let ghost rest = spec@.skip(k as int);
        assert(rest[0] == spec@[k as int]);
        if spec[k] == ' ' {
            assert(rest.skip(1) =~= spec@.skip(k + 1));
            k = k + 1;
        } else if spec.len() - k == 1 {
            return Err(MalformedBrackets);
        } else {
            let beg = spec[k];
            let end = spec[k + 1];
            assert(rest[1] == end);
            assert(rest.skip(2) =~= spec@.skip(k + 2));
            let pattern = match Pattern::compile(bracket_pattern(beg, end).as_str()) {
                Ok(p) => p,
                Err(_) => vstd::pervasive::unreached(),
            };
            output = pattern.replace_all(output.as_str(), nothing.as_str());
            k = k + 2;
        }
    }
    assert(spec@.skip(k as int).len() == 0);
    Ok(output)
}

} // verus!

verus! {

/// Position of the last `.` in `s`.
pub open spec fn last_dot(s: Seq<char>) -> Option<int>
    decreases s.len(),
{
    if s.len() == 0 {
        None
    } else if s.last() == '.' {
        Some(s.len() - 1)
    } else {
        last_dot(s.drop_last())
    }
}

/// `x` holds a closing bracket, `]` or `)`: a dot before it stands inside a
/// tag (as in `[YTS.AM]`), not before an extension.
pub open spec fn closes_a_tag(x: Seq<char>) -> bool {
    x.contains(']') || x.contains(')')
}

/// The stem of a file name and its extension (empty where it has none), as
/// std's `Path::file_stem` and `Path::extension` split it (at the last `.`,
/// unless that is the first character or the name is `..`), except that a
/// dot inside a tag does not start an extension.
pub open spec fn stem_and_extension(name: Seq<char>) -> (Seq<char>, Seq<char>) {
    if name == seq!['.', '.'] {
        (name, Seq::empty())
    } else {
        match last_dot(name) {
            Some(i) if i > 0 && !closes_a_tag(name.skip(i + 1)) => (
                name.take(i),
                name.skip(i + 1),
            ),
            _ => (name, Seq::empty()),
        }
    }
}

proof fn lemma_last_dot(s: Seq<char>)
    ensures
        last_dot(s) matches Some(i) ==> 0 <= i < s.len() && s[i] == '.' && forall|k: int|
            i < k < s.len() ==> s[k] != '.',
        last_dot(s) is None ==> forall|k: int| 0 <= k < s.len() ==> s[k] != '.',
    decreases s.len(),
{
    if s.len() > 0 && s.last() != '.' {
        let t = s.drop_last();
        lemma_last_dot(t);
        assert forall|k: int| 0 <= k < t.len() implies t[k] == s[k] by {}
    }
}

fn closes_tag(x: &Vec<char>) -> (b: bool)
    ensures
        b == closes_a_tag(x@),
{
    let mut k: usize = 0;
    while k < x.len()
        invariant
            k <= x.len(),
            forall|j: int| 0 <= j < k ==> x@[j] != ']' && x@[j] != ')',
        decreases x.len() - k,
    {
        if x[k] == ']' || x[k] == ')' {
            assert(x@[k as int] == x[k as int]);
            return true;
        }
        k = k + 1;
    }
    false
}

/// Splits a file name into its stem and its extension (see
/// [`stem_and_extension`]).
pub fn split_extension(name: &Vec<char>) -> (r: (Vec<char>, Vec<char>))
    ensures
        (r.0@, r.1@) == stem_and_extension(name@),
{
    let n = name.len();
    if n == 2 && name[0] == '.' && name[1] == '.' {
        assert(name@ =~= seq!['.', '.']);
        return (name.clone(), Vec::new());
    }
    proof {
        if name@ == seq!['.', '.'] {
            assert(name@[0] == '.' && name@[1] == '.');
        }
    }
    let mut i = n;
    assert(name@.take(n as int) =~= name@);
    while i > 0 && name[i - 1] != '.'
        invariant
            i <= n,
            n == name.len(),
            last_dot(name@) == last_dot(name@.take(i as int)),
        decreases i,
    {
        proof {
            assert(name@.take(i as int).drop_last() =~= name@.take(i - 1));
        }
        i = i - 1;
    }
    if i <= 1 {
        proof {
            if i == 1 {
                assert(name@.take(1).last() == '.');
            }
        }
        return (name.clone(), Vec::new());
    }
    proof {
        assert(name@.take(i as int).last() == '.');
    }
    let ext = copy_range(name, i, n);
    assert(ext@ =~= name@.skip(i as int));
    if closes_tag(&ext) {
        return (name.clone(), Vec::new());
    }
    let stem = copy_range(name, 0, i - 1);
    assert(stem@ =~= name@.take(i - 1));
    (stem, ext)
}

/// The new name of a file called `name`: the stem (or, with `include_ext`,
/// the whole name) goes through the bracket removal, the space fixing, the
/// deletion, the trimming and, unless `dont_cleanup`, the clean-up; without
/// `include_ext`, a non-empty extension is then added back after a `.`.
pub open spec fn renamed(name: Seq<char>, args: &Args) -> Seq<char> {
    let (stem, ext) = stem_and_extension(name);
    let base = if args.include_ext { name } else { stem };
    let a = strip_bracket_chunks(base, args.remove_tags@);
    let b = spaces_for(a, args.fix_spaces@);
    let c = without_occurrences(b, args.delete@);
    let d = trimmed_name(
        c,
        args.trim_right_with@,
        args.trim_right_after@,
        args.trim_left_with@,
        args.trim_left_after@,
    );
    let e = if args.dont_cleanup { d } else { cleaned_up(d) };
    if !args.include_ext && ext.len() > 0 { e + seq!['.'] + ext } else { e }
}

/// `name`, a dot and `ext`.
fn with_extension(name: &str, ext: &Vec<char>) -> (r: String)
    ensures
        r@ == name@ + seq!['.'] + ext@,
{
    let mut out = chars_of(name);
    out.push('.');
    let mut k: usize = 0;
    let ghost start = out@;
    while k < ext.len()
        invariant
            k <= ext.len(),
            out@ == start + ext@.take(k as int),
        decreases ext.len() - k,
    {
        out.push(ext[k]);
        k = k + 1;
    }
    assert(ext@.take(ext.len() as int) =~= ext@);
    string_from(&out)
}

/// The regular expressions that the options of `args` build compile.
pub open spec fn name_patterns_compile(args: &Args) -> bool {
    bracket_patterns_compile(args.remove_tags@) && trim_patterns_compile(args)
}

/// Changes the name of a file based on the user's requirements: returns the
/// new name of the file called `file_name` (see [`renamed`]), or the error
/// of a bracket specification that ends in an opening bracket alone.
pub fn process_name(file_name: &str, args: &Args) -> (r: Result<String, MalformedBrackets>)
    requires
        name_patterns_compile(args),
    ensures
        r is Err <==> has_unpaired_bracket(args.remove_tags@),
        r matches Ok(n) ==> n@ == renamed(file_name@, args),
{
    let name = chars_of(file_name);
    let (stem, ext) = split_extension(&name);
    let base = if args.include_ext {
        string_from(&name)
    } else {
        string_from(&stem)
    };
    let filename = match remove_inside_brackets(base.as_str(), args.remove_tags.as_str()) {
        Ok(f) => f,
        Err(e) => return Err(e),
    };
    let filename = fix_spaces(filename.as_str(), args.fix_spaces.as_str());
    let filename = delete(filename.as_str(), args.delete.as_str());
    let filename = trim(filename.as_str(), args);
    let filename = if !args.dont_cleanup {
        cleanup_spaces(filename.as_str())
    } else {
        filename
    };
    if !args.include_ext && ext.len() > 0 {
        Ok(with_extension(filename.as_str(), &ext))
    } else {
        Ok(filename)
    }
}

/// Renames as [`process_name`] does where the regular expressions that the
/// options build compile, and gives `None` where one of them does not.
pub fn process_name_checked(file_name: &str, args: &Args) -> (r: Option<Result<String, MalformedBrackets>>)
    ensures
        r is None <==> !name_patterns_compile(args),
        r matches Some(x) ==> (x is Err <==> has_unpaired_bracket(args.remove_tags@)),
        r matches Some(Ok(n)) ==> n@ == renamed(file_name@, args),
{
    if bracket_patterns_ok(args.remove_tags.as_str()) && trim_patterns_ok(args) {
        Some(process_name(file_name, args))
    } else {
        None
    }
}

} // verus!

verus! {

/// No two spaces stand next to each other in `s`.
pub open spec fn no_double_space(s: Seq<char>) -> bool {
    forall|i: int, j: int| 0 <= i && j == i + 1 && j < s.len() ==> !(#[trigger] s[i] == ' '
        && #[trigger] s[j] == ' ')
}

proof fn lemma_squeeze(s: Seq<char>)
    ensures
        no_double_space(squeeze_spaces(s)),
        squeeze_spaces(s).len() <= s.len(),
        s.len() > 0 ==> squeeze_spaces(s).len() > 0 && squeeze_spaces(s).last() == s.last(),
        no_double_space(s) ==> squeeze_spaces(s) == s,
    decreases s.len(),
{
    if s.len() > 0 {
        let t = s.drop_last();
        lemma_squeeze(t);
        let q = squeeze_spaces(t);
        if s.len() >= 2 {
            assert(t.last() == s[s.len() - 2]);
        }
        if !(s.last() == ' ' && s.len() >= 2 && s[s.len() - 2] == ' ') {
            let r = q.push(s.last());
            assert forall|i: int, j: int| 0 <= i && j == i + 1 && j < r.len() implies !(
            #[trigger] r[i] == ' ' && #[trigger] r[j] == ' ') by {
                if j == r.len() - 1 {
                    assert(r[i] == q.last());
                } else {
                    assert(r[i] == q[i] && r[j] == q[j]);
                }
            }
        }
        if no_double_space(s) {
            assert forall|i: int, j: int| 0 <= i && j == i + 1 && j < t.len() implies !(
            #[trigger] t[i] == ' ' && #[trigger] t[j] == ' ') by {
                assert(t[i] == s[i] && t[j] == s[j]);
            }
            if s.len() >= 2 {
                assert(!(s[s.len() - 2] == ' ' && s[s.len() - 1] == ' '));
            }
            assert(q.push(s.last()) =~= s);
        }
    }
}

/// What `cleanup_spaces` returns has no two spaces next to each other and
/// neither starts nor ends with white space.
pub proof fn law_cleanup_shape(s: Seq<char>)
    ensures
        no_double_space(cleaned_up(s)),
        cleaned_up(s).len() > 0 ==> !is_white_space(cleaned_up(s)[0]) && !is_white_space(
            cleaned_up(s).last(),
        ),
{
    let q = squeeze_spaces(s);
    lemma_squeeze(s);
    let (a, b) = lemma_trim_ws_shape(q);
    let r = cleaned_up(s);
    assert forall|i: int, j: int| 0 <= i && j == i + 1 && j < r.len() implies !(#[trigger] r[i]
        == ' ' && #[trigger] r[j] == ' ') by {
        assert(r[i] == q[a + i] && r[j] == q[a + j]);
    }
}

/// Cleaning up twice gives what cleaning up once gives.
pub proof fn law_cleanup_idempotent(s: Seq<char>)
    ensures
        cleaned_up(cleaned_up(s)) == cleaned_up(s),
{
    let r = cleaned_up(s);
    law_cleanup_shape(s);
    lemma_squeeze(r);
    let (a, b) = lemma_trim_ws_shape(r);
}

/// Text that is already clean (no two spaces next to each other, no white
/// space at either end) is left exactly as it is: clean-up removes spaces and
/// white space only where they are doubled or at an end.
pub proof fn law_cleanup_keeps_clean(s: Seq<char>)
    requires
        no_double_space(s),
        s.len() > 0 ==> !is_white_space(s[0]) && !is_white_space(s.last()),
    ensures
        cleaned_up(s) == s,
{
    lemma_squeeze(s);
    let (a, b) = lemma_trim_ws_shape(s);
}

/// Every character that `fix_spaces` is told to replace is gone from its
/// result (but for spaces), every other character stays where it was, and
/// the length does not change.
pub proof fn law_fix_spaces(s: Seq<char>, replacer: Seq<char>)
    ensures
        spaces_for(s, replacer).len() == s.len(),
        forall|i: int|
            0 <= i < s.len() ==> (replacer.contains(#[trigger] spaces_for(s, replacer)[i])
                ==> spaces_for(s, replacer)[i] == ' '),
        forall|i: int|
            0 <= i < s.len() && !replacer.contains(s[i]) ==> #[trigger] spaces_for(s, replacer)[i]
                == s[i],
{
}

/// Fixing spaces twice with the same characters gives what fixing them once
/// gives.
pub proof fn law_fix_spaces_idempotent(s: Seq<char>, replacer: Seq<char>)
    ensures
        spaces_for(spaces_for(s, replacer), replacer) == spaces_for(s, replacer),
{
    assert(spaces_for(spaces_for(s, replacer), replacer) =~= spaces_for(s, replacer));
}

} // verus!

verus! {

/// Deleting an empty phrase, or a phrase that does not occur, changes
/// nothing.
pub proof fn law_delete_absent(s: Seq<char>, p: Seq<char>)
    requires
        p.len() == 0 || forall|i: int| !occurs_at(s, p, i),
    ensures
        without_occurrences(s, p) == s,
    decreases s.len(),
{
    if p.len() > 0 && s.len() > 0 {
        let t = s.skip(1);
        assert forall|i: int| !occurs_at(t, p, i) by {
            if occurs_at(t, p, i) {
                assert(s.subrange(i + 1, i + 1 + p.len()) =~= t.subrange(i, i + p.len()));
                assert(occurs_at(s, p, i + 1));
            }
        }
        law_delete_absent(t, p);
        assert(seq![s[0]] + t =~= s);
    }
}

/// Deleting never makes a name longer.
pub proof fn law_delete_shorter(s: Seq<char>, p: Seq<char>)
    ensures
        without_occurrences(s, p).len() <= s.len(),
    decreases s.len(),
{
    if p.len() > 0 && s.len() > 0 {
        if occurs_at(s, p, 0) {
            law_delete_shorter(s.skip(p.len() as int), p);
        } else {
            law_delete_shorter(s.skip(1), p);
        }
    }
}

/// Every occurrence is deleted, not only the first: where `p` first occurs
/// right after `x` (it occurs nowhere earlier), the result is `x` followed by
/// what deleting `p` leaves of the rest.
pub proof fn law_delete_each_occurrence(x: Seq<char>, p: Seq<char>, y: Seq<char>)
    requires
        p.len() > 0,
        forall|j: int| 0 <= j < x.len() ==> !occurs_at(x + p, p, j),
    ensures
        without_occurrences(x + p + y, p) == x + without_occurrences(y, p),
    decreases x.len(),
{
    let s = x + p + y;
    if x.len() == 0 {
        assert(s.subrange(0, p.len() as int) =~= p);
        assert(s.skip(p.len() as int) =~= y);
        assert(x + without_occurrences(y, p) =~= without_occurrences(y, p));
    } else {
        if occurs_at(s, p, 0) {
            assert((x + p).subrange(0, p.len() as int) =~= s.subrange(0, p.len() as int));
            assert(occurs_at(x + p, p, 0));
        }
        let x1 = x.skip(1);
        assert forall|j: int| 0 <= j < x1.len() implies !occurs_at(x1 + p, p, j) by {
            if occurs_at(x1 + p, p, j) {
                assert((x + p).subrange(j + 1, j + 1 + p.len()) =~= (x1 + p).subrange(
                    j,
                    j + p.len(),
                ));
                assert(occurs_at(x + p, p, j + 1));
            }
        }
        law_delete_each_occurrence(x1, p, y);
        assert(s.skip(1) =~= x1 + p + y);
        assert(seq![s[0]] + (x1 + without_occurrences(y, p)) =~= x + without_occurrences(y, p));
    }
}

/// The bracket expression, character by character: the opening bracket
/// matched literally, then `.*?` (any text on one line, of any length, as
/// short as possible), then the closing bracket matched literally.
pub proof fn law_bracket_pattern(b: char, e: char)
    ensures
        bracket_pattern_text(b, e) == escaped(seq![b]) + seq!['.', '*', '?'] + escaped(seq![e]),
{
    reveal_strlit(".*?");
    assert(".*?"@ =~= seq!['.', '*', '?']);
}

/// A bracket specification is read pair by pair from the left: a leading
/// space is passed over, and a leading pair `b e` removes its bracketed
/// parts before the rest of the specification is applied; a single opening
/// bracket with nothing after it is the unpaired-bracket error.
pub proof fn law_bracket_pairs_in_turn(s: Seq<char>, b: char, e: char, rest: Seq<char>)
    ensures
        strip_bracket_chunks(s, seq![' '] + rest) == strip_bracket_chunks(s, rest),
        has_unpaired_bracket(seq![' '] + rest) == has_unpaired_bracket(rest),
        b != ' ' ==> strip_bracket_chunks(s, seq![b, e] + rest) == strip_bracket_chunks(
            without_bracketed(s, b, e),
            rest,
        ),
        b != ' ' ==> has_unpaired_bracket(seq![b, e] + rest) == has_unpaired_bracket(rest),
        b != ' ' ==> has_unpaired_bracket(seq![b]),
{
    assert((seq![' '] + rest).skip(1) =~= rest);
    assert((seq![b, e] + rest).skip(2) =~= rest);
}

/// A bracket specification without pairs (empty, or only spaces) leaves the
/// name as it is, and is no error.
pub proof fn law_no_brackets(s: Seq<char>, spec: Seq<char>)
    requires
        forall|k: int| 0 <= k < spec.len() ==> spec[k] == ' ',
    ensures
        strip_bracket_chunks(s, spec) == s,
        !has_unpaired_bracket(spec),
    decreases spec.len(),
{
    if spec.len() > 0 {
        let t = spec.skip(1);
        assert forall|k: int| 0 <= k < t.len() implies t[k] == ' ' by {
            assert(t[k] == spec[k + 1]);
        }
        law_no_brackets(s, t);
    }
}

} // verus!

verus! {

/// A name is its stem, a dot and its extension when the split finds an
/// extension place; otherwise the stem is the whole name. The extension
/// holds no dot and closes no tag.
pub proof fn law_split_rebuilds(name: Seq<char>)
    ensures
        ({
            let (stem, ext) = stem_and_extension(name);
            ||| stem == name && ext.len() == 0
            ||| stem.len() > 0 && name == stem + seq!['.'] + ext && !ext.contains('.')
                && !closes_a_tag(ext)
        }),
{
    lemma_last_dot(name);
    if let Some(i) = last_dot(name) {
        if i > 0 && !closes_a_tag(name.skip(i + 1)) && name != seq!['.', '.'] {
            let ext = name.skip(i + 1);
            assert(name.take(i) + seq!['.'] + ext =~= name);
            assert forall|k: int| 0 <= k < ext.len() implies ext[k] != '.' by {
                assert(ext[k] == name[i + 1 + k]);
            }
        }
    }
}

/// Without `include_ext`, a name's extension survives the renaming: the new
/// name ends with a dot and the extension.
pub proof fn law_rename_keeps_extension(name: Seq<char>, args: &Args)
    requires
        !args.include_ext,
        stem_and_extension(name).1.len() > 0,
    ensures
        ({
            let ext = stem_and_extension(name).1;
            let r = renamed(name, args);
            r.len() > ext.len() && r.subrange(r.len() - ext.len() - 1, r.len() as int) == seq!['.']
                + ext
        }),
{
    let ext = stem_and_extension(name).1;
    let (stem, _) = stem_and_extension(name);
    let a = strip_bracket_chunks(stem, args.remove_tags@);
    let b = spaces_for(a, args.fix_spaces@);
    let c = without_occurrences(b, args.delete@);
    let d = trimmed_name(
        c,
        args.trim_right_with@,
        args.trim_right_after@,
        args.trim_left_with@,
        args.trim_left_after@,
    );
    let e = if args.dont_cleanup { d } else { cleaned_up(d) };
    let r = renamed(name, args);
    assert(r == e + seq!['.'] + ext);
    assert(r.subrange(r.len() - ext.len() - 1, r.len() as int) =~= seq!['.'] + ext);
}

/// With no option set (no brackets, no characters to replace, nothing to
/// delete, no marker, clean-up on, extension kept apart), renaming only
/// cleans up the stem.
pub proof fn law_rename_without_options(name: Seq<char>, args: &Args)
    requires
        !args.include_ext,
        !args.dont_cleanup,
        args.remove_tags@.len() == 0,
        args.fix_spaces@.len() == 0,
        args.delete@.len() == 0,
        args.trim_right_with@.len() == 0,
        args.trim_right_after@.len() == 0,
        args.trim_left_with@.len() == 0,
        args.trim_left_after@.len() == 0,
    ensures
        ({
            let (stem, ext) = stem_and_extension(name);
            renamed(name, args) == if ext.len() > 0 {
                cleaned_up(stem) + seq!['.'] + ext
            } else {
                cleaned_up(stem)
            }
        }),
{
    let (stem, ext) = stem_and_extension(name);
    assert(spaces_for(stem, args.fix_spaces@) =~= stem);
}

proof fn lemma_last_dot_of_suffix(t: Seq<char>, x: Seq<char>)
    requires
        t.len() > 0,
        t.last() == '.',
        !x.contains('.'),
    ensures
        last_dot(t + x) == Some(t.len() - 1),
    decreases x.len(),
{
    if x.len() == 0 {
        assert(t + x =~= t);
    } else {
        assert((t + x).drop_last() =~= t + x.drop_last());
        assert((t + x).last() == x.last());
        assert(x.contains(x.last())) by {
            assert(x[x.len() - 1] == x.last());
        }
        assert(!x.drop_last().contains('.')) by {
            if x.drop_last().contains('.') {
                let k = choose|k: int| 0 <= k < x.drop_last().len() && x.drop_last()[k] == '.';
                assert(x[k] == '.');
            }
        }
        lemma_last_dot_of_suffix(t, x.drop_last());
    }
}

/// A stem, a dot and an extension (no dot in it, no closing bracket) split
/// back into that stem and that extension, whatever letters, digits or
/// other characters the extension holds (the one name that is not so split
/// is `..`).
pub proof fn law_split_stem_dot_extension(stem: Seq<char>, ext: Seq<char>)
    requires
        stem.len() > 0,
        !ext.contains('.'),
        !ext.contains(']'),
        !ext.contains(')'),
        !(stem == seq!['.'] && ext.len() == 0),
    ensures
        stem_and_extension(stem + seq!['.'] + ext) == (stem, ext),
{
    let t = stem + seq!['.'];
    let name = stem + seq!['.'] + ext;
    assert(t + ext =~= name);
    lemma_last_dot_of_suffix(t, ext);
    assert(name.take(stem.len() as int) =~= stem);
    assert(name.skip(stem.len() as int + 1) =~= ext);
    if name == seq!['.', '.'] {
        assert(name.len() == 2);
        assert(stem.len() == 1 && ext.len() == 0);
        assert(stem[0] == name[0]);
        assert(stem =~= seq!['.']);
    }
}

/// A name without a dot is its own stem and has no extension.
pub proof fn law_split_without_dot(name: Seq<char>)
    requires
        !name.contains('.'),
    ensures
        stem_and_extension(name) == (name, Seq::<char>::empty()),
{
    lemma_last_dot(name);
    if last_dot(name) is Some {
        let i = last_dot(name)->0;
        assert(name[i] == '.');
    }
    if name == seq!['.', '.'] {
        assert(name[0] == '.');
    }
}

/// Deletion comes after space fixing: a stem that, once its characters are
/// turned into spaces, is exactly the phrase to delete, is deleted entirely,
/// and only the extension is left.
pub proof fn law_rename_deletes_the_fixed_stem(name: Seq<char>, args: &Args)
    requires
        !args.include_ext,
        args.remove_tags@.len() == 0,
        args.trim_right_with@.len() == 0,
        args.trim_right_after@.len() == 0,
        args.trim_left_with@.len() == 0,
        args.trim_left_after@.len() == 0,
        args.delete@.len() > 0,
        stem_and_extension(name).1.len() > 0,
        spaces_for(stem_and_extension(name).0, args.fix_spaces@) == args.delete@,
    ensures
        renamed(name, args) == seq!['.'] + stem_and_extension(name).1,
{
    let (stem, ext) = stem_and_extension(name);
    let d = args.delete@;
    assert(occurs_at(d, d, 0)) by {
        assert(d.subrange(0, d.len() as int) =~= d);
    }
    assert(d.skip(d.len() as int) =~= Seq::<char>::empty());
    assert(without_occurrences(Seq::<char>::empty(), d) == Seq::<char>::empty());
    assert(without_occurrences(d, d) == without_occurrences(d.skip(d.len() as int), d));
    assert(without_occurrences(d, d) == Seq::<char>::empty());
    let z = Seq::<char>::empty();
    assert(squeeze_spaces(z) == z);
    assert(trim_start_ws(z) == z);
    assert(trim_end_ws(z) == z);
    assert(cleaned_up(z) == z);
    assert(z + seq!['.'] + ext =~= seq!['.'] + ext);
}


/// The order of the steps on a stem with an extension, when no tag is
/// removed and no marker trims: first the listed characters become spaces,
/// then the phrase is deleted from that text, then (unless `dont_cleanup`)
/// the spaces are cleaned up; the extension follows after a dot.
pub proof fn law_rename_fixes_spaces_then_deletes(name: Seq<char>, args: &Args)
    requires
        !args.include_ext,
        args.remove_tags@.len() == 0,
        args.trim_right_with@.len() == 0,
        args.trim_right_after@.len() == 0,
        args.trim_left_with@.len() == 0,
        args.trim_left_after@.len() == 0,
        stem_and_extension(name).1.len() > 0,
    ensures
        ({
            let (stem, ext) = stem_and_extension(name);
            let w = without_occurrences(spaces_for(stem, args.fix_spaces@), args.delete@);
            renamed(name, args) == (if args.dont_cleanup {
                w
            } else {
                cleaned_up(w)
            }) + seq!['.'] + ext
        }),
{
    let (stem, ext) = stem_and_extension(name);
    law_no_brackets(stem, args.remove_tags@);
}


/// With `include_ext` the whole name, extension and all, is renamed and no
/// extension is added back: with no other option set, renaming only cleans
/// up the whole name.
pub proof fn law_rename_with_extension_included(name: Seq<char>, args: &Args)
    requires
        args.include_ext,
        !args.dont_cleanup,
        args.remove_tags@.len() == 0,
        args.fix_spaces@.len() == 0,
        args.delete@.len() == 0,
        args.trim_right_with@.len() == 0,
        args.trim_right_after@.len() == 0,
        args.trim_left_with@.len() == 0,
        args.trim_left_after@.len() == 0,
    ensures
        renamed(name, args) == cleaned_up(name),
{
    assert(spaces_for(name, args.fix_spaces@) =~= name);
}

} // verus!
