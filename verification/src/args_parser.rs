//! The options of a renaming run.

use vstd::prelude::*;
use crate::pattern::{regex_compiles, Pattern, PatternError};
use crate::text::{chars_of, copy_range, lowercase, push_char, string_from, to_lowercase};

verus! {

/// Position of the first backslash in `p` at or after `k` (the length of
/// `p` where there is none).
pub open spec fn next_backslash(p: Seq<char>, k: int) -> int
    decreases p.len() - k,
{
    if k < 0 || k >= p.len() {
        p.len() as int
    } else if p[k] == '\\' {
        k
    } else {
        next_backslash(p, k + 1)
    }
}

/// The next backslash lies between the start of the search and the end, and
/// no backslash stands before it.
pub proof fn lemma_next_backslash(p: Seq<char>, k: int)
    requires
        0 <= k <= p.len(),
    ensures
        k <= next_backslash(p, k) <= p.len(),
        next_backslash(p, k) < p.len() ==> p[next_backslash(p, k)] == '\\',
        forall|m: int| k <= m < next_backslash(p, k) ==> p[m] != '\\',
    decreases p.len() - k,
{
    if k < p.len() && p[k] != '\\' {
        lemma_next_backslash(p, k + 1);
    }
}

/// The pattern from position `k` on with its text lowercased piece by piece
/// between escape sequences; a backslash and the character after it stay as
/// they are written.
pub open spec fn lowered_from(p: Seq<char>, k: int) -> Seq<char>
    decreases p.len() - k,
{
    if k < 0 || k > p.len() {
        Seq::empty()
    } else {
        let i = next_backslash(p, k);
        let head = if i == k && k < p.len() {
            Seq::empty()
        } else {
            lowercase(p.subrange(k, i))
        };
        if i >= p.len() {
            head
        } else if i + 1 >= p.len() {
            head + seq!['\\']
        } else {
            proof {
                lemma_next_backslash(p, k);
            }
            head + seq![p[i], p[i + 1]] + lowered_from(p, i + 2)
        }
    }
}

/// The file pattern as it is compiled: lowercased (as std's
/// `str::to_lowercase` does, so that it meets the lowercased file names),
/// but for its escape sequences such as `\D`, which keep their meaning.
pub open spec fn lowered_pattern(p: Seq<char>) -> Seq<char> {
    lowered_from(p, 0)
}

/// Behind a prefix `q`, the search for the next backslash in `y` is the same
/// search, shifted by the length of `q`.
proof fn lemma_next_backslash_shift(q: Seq<char>, y: Seq<char>, k: int)
    requires
        0 <= k <= y.len(),
    ensures
        next_backslash(q + y, q.len() + k) == q.len() + next_backslash(y, k),
    decreases y.len() - k,
{
    if k < y.len() {
        assert((q + y)[q.len() + k] == y[k]);
        if y[k] != '\\' {
            lemma_next_backslash_shift(q, y, k + 1);
        }
    }
}

/// Behind a prefix `q`, lowering `y` from position `k` on does not depend on
/// `q`.
proof fn lemma_lowered_from_shift(q: Seq<char>, y: Seq<char>, k: int)
    requires
        0 <= k <= y.len(),
    ensures
        lowered_from(q + y, q.len() + k) == lowered_from(y, k),
    decreases y.len() - k,
{
    let p = q + y;
    let i = next_backslash(y, k);
    lemma_next_backslash_shift(q, y, k);
    lemma_next_backslash(y, k);
    assert(p.subrange(q.len() + k, q.len() + i) =~= y.subrange(k, i));
    if i + 1 < y.len() {
        assert(p[q.len() + i] == y[i]);
        assert(p[q.len() + i + 1] == y[i + 1]);
        lemma_lowered_from_shift(q, y, i + 2);
        assert(q.len() + i + 2 == q.len() + (i + 2));
    }
}

/// A file pattern without a backslash is lowercased as a whole.
pub proof fn law_lowered_plain(p: Seq<char>)
    requires
        !p.contains('\\'),
    ensures
        lowered_pattern(p) == lowercase(p),
{
    lemma_next_backslash(p, 0);
    if next_backslash(p, 0) < p.len() {
        assert(p[next_backslash(p, 0)] == '\\');
    }
    assert(p.subrange(0, p.len() as int) =~= p);
}

/// Lowering a file pattern goes from one escape sequence to the next: the
/// text before the first backslash is lowercased, the backslash and the
/// character after it are kept as written, and the rest of the pattern is
/// lowered in the same way, as if it stood alone.
pub proof fn law_lowered_escape(x: Seq<char>, c: char, y: Seq<char>)
    requires
        !x.contains('\\'),
    ensures
        lowered_pattern(x + seq!['\\', c] + y) == (if x.len() == 0 {
            Seq::empty()
        } else {
            lowercase(x)
        }) + seq!['\\', c] + lowered_pattern(y),
{
    let q = x + seq!['\\', c];
    let p = q + y;
    assert(p == x + seq!['\\', c] + y);
    lemma_next_backslash(p, 0);
    let i = next_backslash(p, 0);
    assert(p[x.len() as int] == '\\');
    if i < x.len() {
        assert(p[i] == x[i]);
    }
    assert(i == x.len());
    assert(p.subrange(0, i) =~= x);
    assert(p[i + 1] == c);
    lemma_lowered_from_shift(q, y, 0);
    assert(q.len() + 0 == i + 2);
}

/// Lowercases a file pattern but for its escape sequences (see
/// [`lowered_pattern`]).
pub fn lower_pattern(src: &str) -> (r: String)
    ensures
        r@ == lowered_pattern(src@),
{
    let v = chars_of(src);
    let n = v.len();
    let mut out = String::new();
    let mut k: usize = 0;
    let mut done = false;
    while !done
        invariant
            v@ == src@,
            n == v.len(),
            k <= n,
            !done ==> lowered_pattern(v@) == out@ + lowered_from(v@, k as int),
            done ==> lowered_pattern(v@) == out@,
        decreases n - k + (if done { 0int } else { 1int }),
    {
        let mut i = k;
        while i < n && v[i] != '\\'
            invariant
                k <= i <= n,
                n == v.len(),
                next_backslash(v@, k as int) == next_backslash(v@, i as int),
            decreases n - i,
        {
            i = i + 1;
        }
        proof {
            lemma_next_backslash(v@, k as int);
        }
        let ghost before = out@;
        if !(i == k && k < n) {
            let piece = string_from(&copy_range(&v, k, i));
            let low = to_lowercase(piece.as_str());
            out.append(low.as_str());
        }
        if i >= n {
            done = true;
        } else if i + 1 >= n {
            push_char(&mut out, '\\');
            done = true;
        } else {
            push_char(&mut out, v[i]);
            push_char(&mut out, v[i + 1]);
            proof {
                assert(out@ =~= before + (if i == k && k < n {
                    Seq::<char>::empty()
                } else {
                    lowercase(v@.subrange(k as int, i as int))
                }) + seq![v@[i as int], v@[i + 1]]);
            }
            k = i + 2;
        }
    }
    out
}

/// Reads the file pattern given on the command line: it is lowercased, as
/// the file names it meets are, but for its escape sequences (see
/// [`lowered_pattern`]), then compiled.
pub fn parse_regex(src: &str) -> (r: Result<Pattern, PatternError>)
    ensures
        r is Ok <==> regex_compiles(lowered_pattern(src@)),
        r matches Ok(p) ==> p.source() == lowered_pattern(src@),
{
    let text = lower_pattern(src);
    Pattern::compile(text.as_str())
}

/// The options of a renaming run.
#[derive(Debug)]
pub struct Args {
    /// regular expression for files that should be renamed
    pub file_match: Pattern,
    /// directory where should this program look for files
    pub directory: String,
    /// includes extensions in renaming process
    pub include_ext: bool,
    /// whatever you give is replaced by space (but only single chars)
    pub fix_spaces: String,
    /// remove tags, they're usually inside [] or ()
    pub remove_tags: String,
    /// Trim after the given sequence to the right
    pub trim_right_after: String,
    /// Trim with the given sequence to the right
    pub trim_right_with: String,
    /// Trim after the given sequence to the left
    pub trim_left_after: String,
    /// Trim with the given sequence to the left
    pub trim_left_with: String,
    /// do not squeeze and trim spaces after the other steps
    pub dont_cleanup: bool,
    /// deletes this phrase from names
    pub delete: String,
    /// recursively goes through directories
    pub recursive: bool,
    /// how quiet the program is
    pub quiet: u8,
    /// confirms the rename
    pub yes: bool,
    /// include directories in renaming process
    pub include_dirs: bool,
}

impl Args {
    /// Options that change nothing: every file matches `.`, no text option
    /// is set and every flag is off.
    pub fn new() -> (a: Args)
        ensures
            a.file_match.source() == seq!['.'],
            a.directory@.len() == 0,
            !a.include_ext,
            a.fix_spaces@.len() == 0,
            a.remove_tags@.len() == 0,
            a.trim_left_after@.len() == 0,
            a.trim_left_with@.len() == 0,
            a.trim_right_after@.len() == 0,
            a.trim_right_with@.len() == 0,
            a.delete@.len() == 0,
            !a.dont_cleanup,
            !a.recursive,
            a.quiet == 0,
            !a.yes,
            !a.include_dirs,
    {
        let dot = ".";
        proof {
            reveal_strlit(".");
            assert(dot@ =~= seq!['.']);
        }
        let file_match = match Pattern::compile(dot) {
            Ok(m) => m,
            Err(_) => vstd::pervasive::unreached(),
        };
        Args {
            file_match,
            directory: String::new(),
            include_ext: false,
            fix_spaces: String::new(),
            remove_tags: String::new(),
            trim_left_after: String::new(),
            trim_left_with: String::new(),
            trim_right_after: String::new(),
            trim_right_with: String::new(),
            delete: String::new(),
            dont_cleanup: false,
            recursive: false,
            quiet: 0,
            yes: false,
            include_dirs: false,
        }
    }
}

} // verus!
