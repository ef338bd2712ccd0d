//! Regular expressions of the `regex` crate: compiling a pattern, testing
//! for a match, reading a named group, replacing matches, and escaping text.

use vstd::prelude::*;
use crate::text::{chars_of, push_char};

verus! {

#[verifier::external_type_specification]
#[verifier::external_body]
pub struct ExRegex(regex::Regex);

#[verifier::external_type_specification]
#[verifier::external_body]
pub struct ExRegexError(regex::Error);

/// Whether `regex::Regex::new` accepts `pattern` (valid syntax, within the
/// default size limit).
pub uninterp spec fn regex_compiles(pattern: Seq<char>) -> bool;

/// Whether the regex compiled from `pattern` finds a match anywhere in
/// `haystack` (`regex::Regex::is_match`).
pub uninterp spec fn regex_finds(pattern: Seq<char>, haystack: Seq<char>) -> bool;

/// The text that the group named `group` captured in the first match of the
/// regex compiled from `pattern` in `haystack` (`regex::Regex::captures`,
/// then `Captures::name`); `None` where there is no match or the group took
/// no part in it.
pub uninterp spec fn regex_group(pattern: Seq<char>, haystack: Seq<char>, group: Seq<char>) -> Option<Seq<char>>;

/// `haystack` with every match of the regex compiled from `pattern` replaced
/// by `replacement` (`regex::Regex::replace_all`).
pub uninterp spec fn regex_replaced(pattern: Seq<char>, haystack: Seq<char>, replacement: Seq<char>) -> Seq<char>;

/// The characters that `regex::escape` puts a backslash before.
pub open spec fn is_meta_character(c: char) -> bool {
    c == '\\' || c == '.' || c == '+' || c == '*' || c == '?' || c == '(' || c == ')' || c == '|'
        || c == '[' || c == ']' || c == '{' || c == '}' || c == '^' || c == '$' || c == '#' || c
        == '&' || c == '-' || c == '~'
}

/// `text` with a backslash before each meta character: a pattern that
/// matches `text` literally (what `regex::escape` returns).
pub open spec fn escaped(text: Seq<char>) -> Seq<char>
    decreases text.len(),
{
    if text.len() == 0 {
        text
    } else {
        let c = text.last();
        let tail = if is_meta_character(c) {
            seq!['\\', c]
        } else {
            seq![c]
        };
        escaped(text.drop_last()) + tail
    }
}

/// Escaping a character: each of `\ . + * ? ( ) | [ ] { } ^ $ # & - ~` gets
/// a backslash before it (so that it stands for itself in a pattern), and
/// every other character stays exactly as it is.
pub proof fn law_escape_char(c: char)
    ensures
        (c == '\\' || c == '.' || c == '+' || c == '*' || c == '?' || c == '(' || c == ')' || c
            == '|' || c == '[' || c == ']' || c == '{' || c == '}' || c == '^' || c == '$' || c
            == '#' || c == '&' || c == '-' || c == '~') ==> escaped(seq![c]) == seq!['\\', c],
        !(c == '\\' || c == '.' || c == '+' || c == '*' || c == '?' || c == '(' || c == ')' || c
            == '|' || c == '[' || c == ']' || c == '{' || c == '}' || c == '^' || c == '$' || c
            == '#' || c == '&' || c == '-' || c == '~') ==> escaped(seq![c]) == seq![c],
{
    let s = seq![c];
    assert(s.drop_last() =~= Seq::<char>::empty());
    assert(escaped(s.drop_last()) == Seq::<char>::empty());
    assert(Seq::<char>::empty() + seq!['\\', c] =~= seq!['\\', c]);
    assert(Seq::<char>::empty() + seq![c] =~= seq![c]);
}

/// Escaping text escapes each character on its own: the escaped form of a
/// concatenation is the concatenation of the escaped forms.
pub proof fn law_escape_concat(a: Seq<char>, b: Seq<char>)
    ensures
        escaped(a + b) == escaped(a) + escaped(b),
    decreases b.len(),
{
    if b.len() == 0 {
        assert(a + b =~= a);
        assert(escaped(a) + escaped(b) =~= escaped(a));
    } else {
        let c = b.last();
        assert((a + b).drop_last() =~= a + b.drop_last());
        assert((a + b).last() == c);
        law_escape_concat(a, b.drop_last());
        let tail = if is_meta_character(c) {
            seq!['\\', c]
        } else {
            seq![c]
        };
        assert(escaped(a + b) == escaped(a + b.drop_last()) + tail);
        assert(escaped(b) == escaped(b.drop_last()) + tail);
        assert(escaped(a) + escaped(b.drop_last()) + tail =~= escaped(a) + (escaped(
            b.drop_last(),
        ) + tail));
    }
}

/// Text without meta characters is its own escaped form: a marker made of
/// letters, digits and spaces is matched as written.
pub proof fn law_escape_plain(text: Seq<char>)
    requires
        forall|k: int| 0 <= k < text.len() ==> !is_meta_character(#[trigger] text[k]),
    ensures
        escaped(text) == text,
    decreases text.len(),
{
    if text.len() > 0 {
        let t = text.drop_last();
        assert forall|k: int| 0 <= k < t.len() implies !is_meta_character(#[trigger] t[k]) by {
            assert(t[k] == text[k]);
        }
        law_escape_plain(t);
        law_escape_char(text.last());
        assert(t + seq![text.last()] =~= text);
    }
}

fn meta_character(c: char) -> (b: bool)
    ensures
        b == is_meta_character(c),
{
    c == '\\' || c == '.' || c == '+' || c == '*' || c == '?' || c == '(' || c == ')' || c == '|'
        || c == '[' || c == ']' || c == '{' || c == '}' || c == '^' || c == '$' || c == '#' || c
        == '&' || c == '-' || c == '~'
}

/// Escapes all regular expression meta characters in `text`, as
/// `regex::escape` does, so that the result matches `text` literally.
pub fn escape(text: &str) -> (r: String)
    ensures
        r@ == escaped(text@),
{
    let v = chars_of(text);
    let mut out = String::new();
    let mut i: usize = 0;
    while i < v.len()
        invariant
            i <= v.len(),
            out@ == escaped(v@.take(i as int)),
        decreases v.len() - i,
    {
        let c = v[i];
        proof {
            assert(v@.take(i + 1).drop_last() =~= v@.take(i as int));
            assert(v@.take(i + 1).last() == c);
        }
        if meta_character(c) {
            push_char(&mut out, '\\');
        }
        push_char(&mut out, c);
        proof {
            if is_meta_character(c) {
                assert(out@ =~= escaped(v@.take(i as int)) + seq!['\\', c]);
            } else {
                assert(out@ =~= escaped(v@.take(i as int)) + seq![c]);
            }
        }
        i = i + 1;
    }
    assert(v@.take(v.len() as int) =~= v@);
    out
}

/// Calls `regex::Regex::new`. Claimed: it succeeds exactly when
/// [`regex_compiles`] holds of the pattern, which depends on the pattern
/// alone; the pattern `.` (any character but a line break) is accepted.
#[verifier::external_body]
fn compile_regex(pattern: &str) -> (r: Result<regex::Regex, regex::Error>)
    ensures
        r is Ok <==> regex_compiles(pattern@),
        pattern@ == seq!['.'] ==> r is Ok,
{
    regex::Regex::new(pattern)
}

/// Calls `regex::Regex::is_match` on the regex that `p` holds. Claimed: the
/// answer is [`regex_finds`] of the pattern that regex was compiled from
/// (kept beside it in `p`) and of the haystack.
#[verifier::external_body]
fn regex_is_match(p: &Pattern, haystack: &str) -> (b: bool)
    ensures
        b == regex_finds(p.source@, haystack@),
{
    p.regex.is_match(haystack)
}

/// Calls `regex::Regex::captures` on the regex that `p` holds and reads the
/// group `group` of the match (`Captures::name`, then `Match::as_str`).
/// Claimed: the text is [`regex_group`] of the pattern, the haystack and the
/// group name; there is none where the regex finds no match (as the crate
/// documents); and a group's text is a contiguous part of the haystack (a
/// `Match` is a substring of it).
#[verifier::external_body]
fn regex_capture_group(p: &Pattern, haystack: &str, group: &str) -> (r: Option<String>)
    ensures
        r matches Some(c) ==> regex_group(p.source@, haystack@, group@) == Some(c@),
        r is None ==> regex_group(p.source@, haystack@, group@) is None,
        !regex_finds(p.source@, haystack@) ==> r is None,
        r matches Some(c) ==> exists|a: int, b: int|
            0 <= a <= b <= haystack@.len() && c@ == haystack@.subrange(a, b),
{
    p.regex.captures(haystack).and_then(|c| c.name(group)).map(|m| m.as_str().to_string())
}

/// Calls `regex::Regex::replace_all` on the regex that `p` holds. Claimed:
/// the result is [`regex_replaced`] of the pattern, the haystack and the
/// replacement; where the regex finds no match the haystack comes back
/// unchanged (as the crate documents).
#[verifier::external_body]
fn regex_replace_all(p: &Pattern, haystack: &str, replacement: &str) -> (r: String)
    ensures
        r@ == regex_replaced(p.source@, haystack@, replacement@),
        !regex_finds(p.source@, haystack@) ==> r@ == haystack@,
{
    p.regex.replace_all(haystack, replacement).into_owned()
}

/// Renders a `regex::Error` with its `Display` impl. Nothing is claimed of
/// the text.
#[verifier::external_body]
fn regex_error_text(e: &regex::Error) -> String {
    format!("{}", e)
}

/// A pattern that the regex library refused.
#[derive(Debug, PartialEq, Eq)]
pub struct PatternError {
    /// The library's description of the problem.
    pub message: String,
}

/// A compiled regular expression, together with the pattern it was
/// compiled from.
#[derive(Debug)]
pub struct Pattern {
    source: String,
    regex: regex::Regex,
}

impl Pattern {
    /// The pattern the regex was compiled from.
    pub closed spec fn source(&self) -> Seq<char> {
        self.source@
    }

    /// Compiles `pattern` as it is.
    pub fn compile(pattern: &str) -> (r: Result<Pattern, PatternError>)
        ensures
            r is Ok <==> regex_compiles(pattern@),
            pattern@ == seq!['.'] ==> r is Ok,
            r matches Ok(p) ==> p.source() == pattern@,
    {
        match compile_regex(pattern) {
            Ok(regex) => Ok(Pattern { source: pattern.to_owned(), regex }),
            Err(e) => Err(PatternError { message: regex_error_text(&e) }),
        }
    }

    /// Whether the regex finds a match anywhere in `haystack`.
    pub fn is_match(&self, haystack: &str) -> (b: bool)
        ensures
            b == regex_finds(self.source(), haystack@),
    {
        regex_is_match(self, haystack)
    }

    /// The text that the group `group` captured in the first match.
    pub fn capture_group(&self, haystack: &str, group: &str) -> (r: Option<String>)
        ensures
            r matches Some(c) ==> regex_group(self.source(), haystack@, group@) == Some(c@),
            r is None ==> regex_group(self.source(), haystack@, group@) is None,
            r matches Some(c) ==> exists|a: int, b: int|
                0 <= a <= b <= haystack@.len() && c@ == haystack@.subrange(a, b),
    {
        regex_capture_group(self, haystack, group)
    }

    /// `haystack` with every match replaced by `replacement`.
    pub fn replace_all(&self, haystack: &str, replacement: &str) -> (r: String)
        ensures
            r@ == regex_replaced(self.source(), haystack@, replacement@),
            !regex_finds(self.source(), haystack@) ==> r@ == haystack@,
    {
        regex_replace_all(self, haystack, replacement)
    }
}

} // verus!
