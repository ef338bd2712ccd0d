//! Which directory entries a renaming run takes: the walk through the
//! directories and the choice of entries. Entries are named by numbers that
//! the caller hands out; reading the directories is the caller's part.

use vstd::prelude::*;
use crate::args_parser::Args;
use crate::pattern::regex_finds;
use crate::text::{lowercase, to_lowercase};

verus! {

/// Whether an entry found directly in the chosen directory is taken: not if
/// its kind could not be read (`None`); a directory only with
/// `include_dirs`; anything else always.
pub fn keep_top_level(is_dir: Option<bool>, include_dirs: bool) -> (b: bool)
    ensures
        b == match is_dir {
            None => false,
            Some(d) => include_dirs || !d,
        },
{
    match is_dir {
        None => false,
        Some(d) => include_dirs || !d,
    }
}

/// The queue after its first entry is taken out: the last entry moves into
/// the first place (as `Vec::swap_remove(0)` does).
pub open spec fn after_taking_first(q: Seq<usize>) -> Seq<usize> {
    q.update(0, q.last()).drop_last()
}

/// A walk through a directory tree: the entries still to look at and the
/// entries taken so far.
pub struct Walk {
    /// Entries still to look at.
    pub pending: Vec<usize>,
    /// Entries taken, in the order they were taken.
    pub found: Vec<usize>,
}

impl Walk {
    /// A walk that starts with the entries of the top directory.
    pub fn new(top: Vec<usize>) -> (w: Walk)
        ensures
            w.pending@ == top@,
            w.found@ == Seq::<usize>::empty(),
    {
        Walk { pending: top, found: Vec::new() }
    }

    /// Whether no entry is left to look at.
    pub fn is_done(&self) -> (b: bool)
        ensures
            b == (self.pending@.len() == 0),
    {
        self.pending.len() == 0
    }

    /// Takes the first entry out of the queue; `None` when the queue is
    /// empty.
    pub fn next_entry(&mut self) -> (r: Option<usize>)
        ensures
            old(self).pending@.len() == 0 ==> r is None,
            old(self).pending@.len() == 0 ==> final(self).pending@ == old(self).pending@,
            old(self).pending@.len() > 0 ==> r == Some(old(self).pending@[0]),
            old(self).pending@.len() > 0 ==> final(self).pending@ == after_taking_first(
                old(self).pending@,
            ),
            final(self).found@ == old(self).found@,
    {
        if self.pending.len() == 0 {
            None
        } else {
            Some(self.pending.swap_remove(0))
        }
    }

    /// Settles an entry that was taken out: a directory's entries join the
    /// queue and the directory is taken only with `include_dirs`; anything
    /// else, an entry whose kind could not be read among them, is taken.
    pub fn settle(
        &mut self,
        entry: usize,
        kind: Option<bool>,
        children: Vec<usize>,
        include_dirs: bool,
    )
        ensures
            final(self).pending@ == if is_directory(kind) {
                old(self).pending@ + children@
            } else {
                old(self).pending@
            },
            final(self).found@ == if !is_directory(kind) || include_dirs {
                old(self).found@.push(entry)
            } else {
                old(self).found@
            },
    {
        if expands(kind) {
            let mut children = children;
            self.pending.append(&mut children);
            if include_dirs {
                self.found.push(entry);
            }
        } else {
            self.found.push(entry);
        }
    }
}

/// An entry is walked into as a directory only when its kind was read and
/// is a directory.
pub open spec fn is_directory(kind: Option<bool>) -> bool {
    kind == Some(true)
}

/// Whether the walk reads the entries of an entry of kind `kind` (see
/// [`is_directory`]).
pub fn expands(kind: Option<bool>) -> (b: bool)
    ensures
        b == is_directory(kind),
{
    match kind {
        Some(d) => d,
        None => false,
    }
}

/// The positions, in order, at which `flags` holds `true`.
pub open spec fn true_positions(flags: Seq<bool>) -> Seq<usize>
    decreases flags.len(),
{
    if flags.len() == 0 {
        Seq::empty()
    } else {
        let before = true_positions(flags.drop_last());
        if flags.last() {
            before.push((flags.len() - 1) as usize)
        } else {
            before
        }
    }
}

/// For each name, whether the pattern finds a match in it once lowercased.
pub open spec fn name_flags(pattern: Seq<char>, names: Seq<Seq<char>>) -> Seq<bool> {
    names.map_values(|n: Seq<char>| regex_finds(pattern, lowercase(n)))
}

/// The positions, in order, of the names in which the pattern finds a match
/// once they are lowercased.
pub open spec fn selected_indices(pattern: Seq<char>, names: Seq<Seq<char>>) -> Seq<usize> {
    true_positions(name_flags(pattern, names))
}

/// The positions at which `flags` holds `true`, in order.
pub fn positions_of_true(flags: &Vec<bool>) -> (r: Vec<usize>)
    ensures
        r@ == true_positions(flags@),
{
    let mut r: Vec<usize> = Vec::new();
    let mut i: usize = 0;
    while i < flags.len()
        invariant
            i <= flags.len(),
            r@ == true_positions(flags@.take(i as int)),
        decreases flags.len() - i,
    {
        proof {
            assert(flags@.take(i + 1).drop_last() =~= flags@.take(i as int));
        }
        if flags[i] {
            r.push(i);
        }
        i = i + 1;
    }
    assert(flags@.take(flags.len() as int) =~= flags@);
    r
}

/// The positions of the file names that the file pattern of `args` selects
/// (it is matched against the lowercased name).
pub fn select_matching(args: &Args, names: &Vec<String>) -> (r: Vec<usize>)
    ensures
        r@ == selected_indices(args.file_match.source(), names@.map_values(|s: String| s@)),
{
    let ghost all = names@.map_values(|s: String| s@);
    let ghost pattern = args.file_match.source();
    let mut flags: Vec<bool> = Vec::new();
    let mut i: usize = 0;
    while i < names.len()
        invariant
            i <= names.len(),
            all == names@.map_values(|s: String| s@),
            pattern == args.file_match.source(),
            flags@ == name_flags(pattern, all.take(i as int)),
        decreases names.len() - i,
    {
        let lower = to_lowercase(names[i].as_str());
        let hit = args.file_match.is_match(lower.as_str());
        proof {
            assert(all[i as int] == names@[i as int]@);
        }
        flags.push(hit);
        proof {
            assert(flags@ =~= name_flags(pattern, all.take(i + 1)));
        }
        i = i + 1;
    }
    assert(all.take(names.len() as int) =~= all);
    positions_of_true(&flags)
}

/// Taking the first entry out of the queue removes that entry and keeps all
/// the others.
pub proof fn law_taking_keeps_the_rest(q: Seq<usize>)
    requires
        q.len() > 0,
    ensures
        after_taking_first(q).to_multiset() == q.to_multiset().remove(q[0]),
        after_taking_first(q).len() == q.len() - 1,
{
    broadcast use vstd::multiset::group_multiset_axioms;

    let u = q.update(0, q.last());
    vstd::seq_lib::to_multiset_update(q, 0, q.last());
    vstd::seq_lib::to_multiset_remove(u, u.len() - 1);
    assert(u.remove(u.len() - 1) =~= u.drop_last());
    assert(u.last() == q.last());
    assert(after_taking_first(q).to_multiset() =~= q.to_multiset().remove(q[0]));
}

/// The positions of `true` are exactly those, each once and in increasing
/// order (for flags that a `Vec` can hold).
pub proof fn law_true_positions(flags: Seq<bool>)
    requires
        flags.len() <= usize::MAX,
    ensures
        forall|k: usize| true_positions(flags).contains(k) <==> (k < flags.len() && flags[k as int]),
        forall|i: int, j: int|
            0 <= i < j < true_positions(flags).len() ==> true_positions(flags)[i]
                < true_positions(flags)[j],
        forall|i: int|
            0 <= i < true_positions(flags).len() ==> true_positions(flags)[i] < flags.len(),
    decreases flags.len(),
{
    if flags.len() > 0 {
        let t = flags.drop_last();
        law_true_positions(t);
        let before = true_positions(t);
        let r = true_positions(flags);
        let last = (flags.len() - 1) as usize;
        let hit = flags.last();
        assert(r == if hit { before.push(last) } else { before });
        assert forall|k: usize| #[trigger] r.contains(k) <==> (k < flags.len() && flags[k as int]) by {
            if k < t.len() {
                assert(flags[k as int] == t[k as int]);
            }
            if hit {
                if r.contains(k) && !before.contains(k) {
                    let m = choose|m: int| 0 <= m < r.len() && r[m] == k;
                    assert(m == before.len());
                }
                if before.contains(k) {
                    let m = choose|m: int| 0 <= m < before.len() && before[m] == k;
                    assert(r[m] == k);
                }
                if k == last {
                    assert(r[before.len() as int] == k);
                }
            } else {
                if k == last {
                    assert(!before.contains(k));
                }
            }
        }
        assert forall|i: int, j: int| 0 <= i < j < r.len() implies r[i] < r[j] by {
            if hit && j == before.len() {
                assert(r[i] == before[i]);
            }
        }
    }
}

/// The chosen positions are exactly those of the names in which the pattern
/// finds a match once lowercased, each once and in increasing order (for a
/// list of names that a `Vec` can hold).
pub proof fn law_selected_exactly(pattern: Seq<char>, names: Seq<Seq<char>>)
    requires
        names.len() <= usize::MAX,
    ensures
        forall|k: usize|
            selected_indices(pattern, names).contains(k) <==> (k < names.len() && regex_finds(
                pattern,
                lowercase(names[k as int]),
            )),
        forall|i: int, j: int|
            0 <= i < j < selected_indices(pattern, names).len() ==> selected_indices(
                pattern,
                names,
            )[i] < selected_indices(pattern, names)[j],
        forall|i: int|
            0 <= i < selected_indices(pattern, names).len() ==> selected_indices(pattern, names)[i]
                < names.len(),
{
    let flags = name_flags(pattern, names);
    law_true_positions(flags);
    assert forall|k: usize| selected_indices(pattern, names).contains(k) <==> (k < names.len()
        && regex_finds(pattern, lowercase(names[k as int]))) by {
        if k < names.len() {
            assert(flags[k as int] == regex_finds(pattern, lowercase(names[k as int])));
        }
    }
}

/// One step of the walk keeps every entry: the entry taken from the queue
/// goes to the found entries, unless it is a directory left out; the
/// entries of a directory join the queue; nothing else comes or goes.
pub proof fn law_walk_step_keeps_entries(
    queue: Seq<usize>,
    found: Seq<usize>,
    kind: Option<bool>,
    children: Seq<usize>,
    include_dirs: bool,
)
    requires
        queue.len() > 0,
    ensures
        ({
            let x = queue[0];
            let queue2 = if is_directory(kind) {
                after_taking_first(queue) + children
            } else {
                after_taking_first(queue)
            };
            let found2 = if !is_directory(kind) || include_dirs {
                found.push(x)
            } else {
                found
            };
            let added = if is_directory(kind) {
                children.to_multiset()
            } else {
                vstd::multiset::Multiset::empty()
            };
            let dropped = if is_directory(kind) && !include_dirs {
                vstd::multiset::Multiset::singleton(x)
            } else {
                vstd::multiset::Multiset::empty()
            };
            queue2.to_multiset().add(found2.to_multiset()).add(dropped) == queue.to_multiset().add(
                found.to_multiset(),
            ).add(added)
        }),
{
    broadcast use vstd::multiset::group_multiset_axioms;

    let x = queue[0];
    law_taking_keeps_the_rest(queue);
    let rest = after_taking_first(queue);
    vstd::seq_lib::to_multiset_build(found, x);
    vstd::seq_lib::lemma_multiset_commutative(rest, children);
    vstd::seq_lib::to_multiset_contains(queue, x);
    assert(queue.contains(x));
    let queue2 = if is_directory(kind) {
        rest + children
    } else {
        rest
    };
    let found2 = if !is_directory(kind) || include_dirs {
        found.push(x)
    } else {
        found
    };
    let added = if is_directory(kind) {
        children.to_multiset()
    } else {
        vstd::multiset::Multiset::empty()
    };
    let dropped = if is_directory(kind) && !include_dirs {
        vstd::multiset::Multiset::singleton(x)
    } else {
        vstd::multiset::Multiset::empty()
    };
    assert(queue2.to_multiset().add(found2.to_multiset()).add(dropped) =~= queue.to_multiset().add(
        found.to_multiset(),
    ).add(added));
}

} // verus!
