//! Planning the classification pass over walked directory entries.
//!
//! The walker proper enumerates the filesystem and reports each entry's
//! displayed path, its canonical path and whether it is a regular file.
//! Planning then selects what one pass classifies: regular files only,
//! and of several entries sharing one canonical path — as overlapping
//! root paths produce — only the first.

use vstd::prelude::*;

use crate::text::contains_str;
use crate::text::seq_contains_chars;

verus! {

/// One entry the walker produced: the path as displayed, the canonical
/// path that identity is judged by, and whether the entry is a regular
/// file.
#[derive(Debug)]
pub struct FileEntry {
    pub path: String,
    pub canonical: String,
    pub is_regular_file: bool,
}

/// Which entries remain from position `i` on, the canonical paths of
/// `seen` having been visited already and `acc` planned already: each
/// regular file whose canonical path is new is kept, everything else is
/// dropped.
pub open spec fn spec_plan_from(
    entries: Seq<FileEntry>,
    i: int,
    seen: Seq<Seq<char>>,
    acc: Seq<FileEntry>,
) -> Seq<FileEntry>
    decreases entries.len() - i,
{
    if i < 0 || i >= entries.len() {
        acc
    } else {
        let e = entries[i];
        if e.is_regular_file && !seq_contains_chars(seen, e.canonical@) {
            spec_plan_from(entries, i + 1, seen.push(e.canonical@), acc.push(e))
        } else {
            spec_plan_from(entries, i + 1, seen, acc)
        }
    }
}

/// The entries that one classification pass visits, in walk order.
pub open spec fn spec_plan(entries: Seq<FileEntry>) -> Seq<FileEntry> {
    spec_plan_from(entries, 0, Seq::empty(), Seq::empty())
}

/// Copy one walker entry.
fn clone_entry(e: &FileEntry) -> (r: FileEntry)
    ensures
        r == *e,
{
    FileEntry {
        path: e.path.clone(),
        canonical: e.canonical.clone(),
        is_regular_file: e.is_regular_file,
    }
}

/// Select the entries that one classification pass visits: regular files
/// only, each canonical path represented once, in walk order.
pub fn plan_walk(entries: &Vec<FileEntry>) -> (r: Vec<FileEntry>)
    ensures
        r@ == spec_plan(entries@),
{
    let mut seen: Vec<String> = Vec::new();
    let mut out: Vec<FileEntry> = Vec::new();
    proof {
        assert(seen.deep_view() =~= Seq::<Seq<char>>::empty());
        assert(out@ =~= Seq::<FileEntry>::empty());
    }
    let mut i: usize = 0;
    while i < entries.len()
        invariant
            i <= entries@.len(),
            spec_plan(entries@) == spec_plan_from(
                entries@,
                i as int,
                seen.deep_view(),
                out@,
            ),
        decreases entries@.len() - i,
    {
        let e = &entries[i];
        if e.is_regular_file && !contains_str(&seen, e.canonical.as_str()) {
            let ghost old_seen = seen.deep_view();
            seen.push(e.canonical.clone());
            out.push(clone_entry(e));
            proof {
                assert(seen.deep_view() =~= old_seen.push(entries@[i as int].canonical@));
            }
        }
        i += 1;
    }
    out
}

/// Walk deduplication: what `plan_walk` selects holds regular files
/// only, no two of its entries share a canonical path, and every regular
/// file among the walked entries is represented by exactly one selected
/// entry with its canonical path.
pub proof fn lemma_plan_walk_dedup(entries: Seq<FileEntry>)
    ensures
        forall|x: int|
            0 <= x < spec_plan(entries).len() ==> (#[trigger] spec_plan(entries)[x]).is_regular_file,
        forall|x: int, y: int|
            0 <= x < y < spec_plan(entries).len() ==> spec_plan(entries)[x].canonical@ != spec_plan(
                entries,
            )[y].canonical@,
        forall|j: int|
            0 <= j < entries.len() && (#[trigger] entries[j]).is_regular_file ==> exists|x: int|
                0 <= x < spec_plan(entries).len() && spec_plan(entries)[x].canonical@
                    == entries[j].canonical@,
{
    lemma_plan_from_props(entries, 0, Seq::empty(), Seq::empty());
    let r = spec_plan(entries);
    let r1 = spec_plan_from(entries, 0, Seq::empty(), Seq::empty());
    assert(r == r1);
    assert forall|j: int|
        0 <= j < entries.len() && (#[trigger] entries[j]).is_regular_file implies exists|x: int|
        0 <= x < r.len() && r[x].canonical@ == entries[j].canonical@ by {
        let x = choose|x: int|
            0 <= x < r1.len() && (#[trigger] r1[x]).canonical@ == entries[j].canonical@;
        assert(r[x] == r1[x]);
        assert(r[x].canonical@ == entries[j].canonical@);
    }
}

/// The generalised induction behind `lemma_plan_walk_dedup`: `seen`
/// holds exactly the canonical paths of `acc`, and the stated properties
/// carry from `acc` to the full plan.
proof fn lemma_plan_from_props(
    entries: Seq<FileEntry>,
    i: int,
    seen: Seq<Seq<char>>,
    acc: Seq<FileEntry>,
)
    requires
        0 <= i <= entries.len(),
        forall|x: int| 0 <= x < acc.len() ==> (#[trigger] acc[x]).is_regular_file,
        forall|x: int, y: int|
            0 <= x < y < acc.len() ==> acc[x].canonical@ != acc[y].canonical@,
        forall|c: Seq<char>|
            seq_contains_chars(seen, c) <==> exists|x: int|
                0 <= x < acc.len() && (#[trigger] acc[x]).canonical@ == c,
    ensures
        forall|x: int|
            0 <= x < spec_plan_from(entries, i, seen, acc).len() ==> (#[trigger] spec_plan_from(
                entries,
                i,
                seen,
                acc,
            )[x]).is_regular_file,
        forall|x: int, y: int|
            0 <= x < y < spec_plan_from(entries, i, seen, acc).len() ==> spec_plan_from(
                entries,
                i,
                seen,
                acc,
            )[x].canonical@ != spec_plan_from(entries, i, seen, acc)[y].canonical@,
        forall|j: int|
            i <= j < entries.len() && (#[trigger] entries[j]).is_regular_file ==> exists|x: int|
                0 <= x < spec_plan_from(entries, i, seen, acc).len() && spec_plan_from(
                    entries,
                    i,
                    seen,
                    acc,
                )[x].canonical@ == entries[j].canonical@,
        forall|c: Seq<char>|
            seq_contains_chars(seen, c) ==> exists|x: int|
                0 <= x < spec_plan_from(entries, i, seen, acc).len() && (#[trigger] spec_plan_from(
                    entries,
                    i,
                    seen,
                    acc,
                )[x]).canonical@ == c,
    decreases entries.len() - i,
{
    let r = spec_plan_from(entries, i, seen, acc);
    if i >= entries.len() {
        assert(r == acc);
        assert forall|x: int| 0 <= x < r.len() implies (#[trigger] r[x]).is_regular_file by {
            assert(r[x] == acc[x]);
        }
        assert forall|x: int, y: int| 0 <= x < y < r.len() implies r[x].canonical@
            != r[y].canonical@ by {
            assert(r[x] == acc[x] && r[y] == acc[y]);
        }
        assert forall|c: Seq<char>| seq_contains_chars(seen, c) implies exists|x: int|
            0 <= x < r.len() && (#[trigger] r[x]).canonical@ == c by {
            let x = choose|x: int| 0 <= x < acc.len() && (#[trigger] acc[x]).canonical@ == c;
            assert(r[x] == acc[x]);
            assert(r[x].canonical@ == c);
        }
    } else {
        let e = entries[i];
        if e.is_regular_file && !seq_contains_chars(seen, e.canonical@) {
            let seen2 = seen.push(e.canonical@);
            let acc2 = acc.push(e);
            assert forall|c: Seq<char>| seq_contains_chars(seen2, c) implies exists|x: int|
                0 <= x < acc2.len() && (#[trigger] acc2[x]).canonical@ == c by {
                let k = choose|k: int| 0 <= k < seen2.len() && seen2[k] == c;
                if k < seen.len() {
                    assert(seq_contains_chars(seen, c));
                    let x = choose|x: int| 0 <= x < acc.len() && (#[trigger] acc[x]).canonical@
                        == c;
                    assert(acc2[x].canonical@ == c);
                } else {
                    assert(acc2[acc.len() as int].canonical@ == c);
                }
            }
            assert forall|c: Seq<char>|
                (exists|x: int| 0 <= x < acc2.len() && (#[trigger] acc2[x]).canonical@ == c)
                    implies seq_contains_chars(seen2, c) by {
                let x = choose|x: int| 0 <= x < acc2.len() && (#[trigger] acc2[x]).canonical@ == c;
                if x < acc.len() {
                    assert(seq_contains_chars(seen, c));
                    let k = choose|k: int| 0 <= k < seen.len() && seen[k] == c;
                    assert(seen2[k] == c);
                } else {
                    assert(seen2[seen.len() as int] == c);
                }
            }
            lemma_plan_from_props(entries, i + 1, seen2, acc2);
            let r1 = spec_plan_from(entries, i + 1, seen2, acc2);
            assert(r == r1);
            assert forall|x: int| 0 <= x < r.len() implies (#[trigger] r[x]).is_regular_file by {
                assert(r[x] == r1[x]);
            }
            assert forall|x: int, y: int| 0 <= x < y < r.len() implies r[x].canonical@
                != r[y].canonical@ by {
                assert(r[x] == r1[x] && r[y] == r1[y]);
            }
            assert forall|j: int|
                i <= j < entries.len() && (#[trigger] entries[j]).is_regular_file implies exists|
                x: int,
            | 0 <= x < r.len() && r[x].canonical@ == entries[j].canonical@ by {
                if j == i {
                    assert(seen2[seen.len() as int] == e.canonical@);
                    assert(seq_contains_chars(seen2, e.canonical@));
                    let x = choose|x: int|
                        0 <= x < r1.len() && (#[trigger] r1[x]).canonical@ == e.canonical@;
                    assert(r[x] == r1[x]);
                    assert(r[x].canonical@ == entries[j].canonical@);
                } else {
                    let x = choose|x: int|
                        0 <= x < r1.len() && (#[trigger] r1[x]).canonical@
                            == entries[j].canonical@;
                    assert(r[x] == r1[x]);
                    assert(r[x].canonical@ == entries[j].canonical@);
                }
            }
            assert forall|c: Seq<char>| seq_contains_chars(seen, c) implies exists|x: int|
                0 <= x < r.len() && (#[trigger] r[x]).canonical@ == c by {
                let k = choose|k: int| 0 <= k < seen.len() && seen[k] == c;
                assert(seen2[k] == c);
                assert(seq_contains_chars(seen2, c));
                let x = choose|x: int| 0 <= x < r1.len() && (#[trigger] r1[x]).canonical@ == c;
                assert(r[x] == r1[x]);
                assert(r[x].canonical@ == c);
            }
        } else {
            lemma_plan_from_props(entries, i + 1, seen, acc);
            let r1 = spec_plan_from(entries, i + 1, seen, acc);
            assert(r == r1);
            assert forall|x: int| 0 <= x < r.len() implies (#[trigger] r[x]).is_regular_file by {
                assert(r[x] == r1[x]);
            }
            assert forall|x: int, y: int| 0 <= x < y < r.len() implies r[x].canonical@
                != r[y].canonical@ by {
                assert(r[x] == r1[x] && r[y] == r1[y]);
            }
            assert forall|j: int|
                i <= j < entries.len() && (#[trigger] entries[j]).is_regular_file implies exists|
                x: int,
            | 0 <= x < r.len() && r[x].canonical@ == entries[j].canonical@ by {
                if j == i {
                    assert(seq_contains_chars(seen, e.canonical@));
                    let x = choose|x: int|
                        0 <= x < r1.len() && (#[trigger] r1[x]).canonical@ == e.canonical@;
                    assert(r[x] == r1[x]);
                    assert(r[x].canonical@ == entries[j].canonical@);
                } else {
                    let x = choose|x: int|
                        0 <= x < r1.len() && (#[trigger] r1[x]).canonical@
                            == entries[j].canonical@;
                    assert(r[x] == r1[x]);
                    assert(r[x].canonical@ == entries[j].canonical@);
                }
            }
            assert forall|c: Seq<char>| seq_contains_chars(seen, c) implies exists|x: int|
                0 <= x < r.len() && (#[trigger] r[x]).canonical@ == c by {
                let x = choose|x: int| 0 <= x < r1.len() && (#[trigger] r1[x]).canonical@ == c;
                assert(r[x] == r1[x]);
                assert(r[x].canonical@ == c);
            }
        }
    }
}

} // verus!
