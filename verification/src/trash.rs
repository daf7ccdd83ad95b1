//! The trash: which requested wallpapers a batch moves to the trash, brings
//! back or deletes for good, what their collection memberships and the
//! monitors showing them become, and which trashed wallpapers have outlived
//! the retention period.
use vstd::prelude::*;

use crate::collection::{CollectionEntry, TRASH_SORT_ORDER};
use crate::scheduler::contains_id;
use crate::text::{text_before, text_less};

verus! {

/// What the store holds for a requested wallpaper when the batch starts.
#[derive(Debug, Clone, Copy, PartialEq, Eq, Structural)]
pub enum Lookup {
    /// No such wallpaper.
    Missing,
    /// Present and not in the trash.
    Active,
    /// Present and in the trash.
    Trashed,
}

/// A batch operation on wallpapers.
#[derive(Debug, Clone, Copy, PartialEq, Eq, Structural)]
pub enum BatchOp {
    /// Move to the trash.
    Trash,
    /// Bring back from the trash.
    Restore,
    /// Delete for good, in the trash or not.
    Delete,
}

/// Whether `op` acts on a wallpaper found in state `l`.
pub open spec fn acts_on(op: BatchOp, l: Lookup) -> bool {
    match op {
        BatchOp::Trash => l == Lookup::Active,
        BatchOp::Restore => l == Lookup::Trashed,
        BatchOp::Delete => l != Lookup::Missing,
    }
}

/// The state `op` leaves a wallpaper it acted on in.
pub open spec fn state_after(op: BatchOp) -> Lookup {
    match op {
        BatchOp::Trash => Lookup::Trashed,
        BatchOp::Restore => Lookup::Active,
        BatchOp::Delete => Lookup::Missing,
    }
}

/// The wallpapers a batch acts on, in request order: those found in a state
/// the operation applies to, each once (a repeated id finds the wallpaper
/// already changed by its first occurrence).
pub open spec fn targets_spec(op: BatchOp, ids: Seq<i32>, found: Seq<Lookup>) -> Seq<i32>
    decreases ids.len(),
{
    if ids.len() == 0 {
        Seq::empty()
    } else {
        let prev = targets_spec(op, ids.drop_last(), found.drop_last());
        let w = ids.last();
        if acts_on(op, found.last()) && !prev.contains(w) {
            prev.push(w)
        } else {
            prev
        }
    }
}

/// Whether `op` acts on a wallpaper found in state `l`.
pub fn acts(op: BatchOp, l: Lookup) -> (r: bool)
    ensures
        r == acts_on(op, l),
{
    match op {
        BatchOp::Trash => l == Lookup::Active,
        BatchOp::Restore => l == Lookup::Trashed,
        BatchOp::Delete => l != Lookup::Missing,
    }
}

/// An id is a target exactly when one of its occurrences was found in a
/// state the operation applies to, and no id is a target twice.
pub proof fn targets_are_the_acting_ids(op: BatchOp, ids: Seq<i32>, found: Seq<Lookup>)
    requires
        found.len() == ids.len(),
    ensures
        targets_spec(op, ids, found).no_duplicates(),
        forall|w: i32|
            #![trigger targets_spec(op, ids, found).contains(w)]
            targets_spec(op, ids, found).contains(w) <==> exists|i: int|
                0 <= i < ids.len() && ids[i] == w && acts_on(op, found[i]),
    decreases ids.len(),
{
    if ids.len() > 0 {
        let a = ids.drop_last();
        let f = found.drop_last();
        targets_are_the_acting_ids(op, a, f);
        let prev = targets_spec(op, a, f);
        let n = ids.len() - 1;
        assert forall|w: i32|
            #![trigger targets_spec(op, ids, found).contains(w)]
            targets_spec(op, ids, found).contains(w) <==> exists|i: int|
                0 <= i < ids.len() && ids[i] == w && acts_on(op, found[i]) by {
            if targets_spec(op, ids, found).contains(w) {
                if prev.contains(w) {
                    let i = choose|i: int| 0 <= i < a.len() && a[i] == w && acts_on(op, f[i]);
                    assert(ids[i] == a[i] && found[i] == f[i]);
                } else {
                    assert(ids[n] == w);
                }
            }
            if exists|i: int| 0 <= i < ids.len() && ids[i] == w && acts_on(op, found[i]) {
                let i = choose|i: int| 0 <= i < ids.len() && ids[i] == w && acts_on(op, found[i]);
                if i < n {
                    assert(a[i] == ids[i] && f[i] == found[i]);
                    assert(prev.contains(w));
                    if !(acts_on(op, found.last()) && !prev.contains(ids.last())) {
                    } else {
                        assert(prev.push(ids.last())[prev.len() as int] == ids.last());
                        let j = choose|j: int| 0 <= j < prev.len() && prev[j] == w;
                        assert(prev.push(ids.last())[j] == w);
                    }
                } else {
                    if !prev.contains(w) {
                        assert(prev.push(w)[prev.len() as int] == w);
                    }
                }
            }
        }
        if acts_on(op, found.last()) && !prev.contains(ids.last()) {
            assert(prev.push(ids.last()).no_duplicates()) by {
                assert forall|x: int, y: int|
                    0 <= x < prev.len() + 1 && 0 <= y < prev.len() + 1 && x != y implies prev.push(
                        ids.last(),
                    )[x] != prev.push(ids.last())[y] by {
                    if x < prev.len() && y < prev.len() {
                    } else if x < prev.len() {
                        assert(prev.contains(prev[x]));
                    } else {
                        assert(prev.contains(prev[y]));
                    }
                }
            }
        }
    }
}

/// The wallpapers a batch acts on, given what the store held for each
/// requested id when the batch started; its length is the count the batch
/// reports.
pub fn batch_targets(op: BatchOp, ids: &Vec<i32>, found: &Vec<Lookup>) -> (r: Vec<i32>)
    requires
        found.len() == ids.len(),
    ensures
        r@ == targets_spec(op, ids@, found@),
        r@.no_duplicates(),
        forall|w: i32|
            #![trigger r@.contains(w)]
            r@.contains(w) <==> exists|i: int|
                0 <= i < ids@.len() && ids@[i] == w && acts_on(op, found@[i]),
{
    let ghost a = ids@;
    let ghost f = found@;
    let mut out: Vec<i32> = Vec::new();
    let mut i: usize = 0;
    while i < ids.len()
        invariant
            a == ids@,
            f == found@,
            a.len() == f.len(),
            i <= a.len(),
            out@ == targets_spec(op, a.subrange(0, i as int), f.subrange(0, i as int)),
        decreases a.len() - i,
    {
        assert(a.subrange(0, i + 1).drop_last() =~= a.subrange(0, i as int));
        assert(f.subrange(0, i + 1).drop_last() =~= f.subrange(0, i as int));
        assert(a.subrange(0, i + 1).last() == a[i as int]);
        assert(f.subrange(0, i + 1).last() == f[i as int]);
        let w = ids[i];
        if acts(op, found[i]) && !contains_id(&out, w) {
            out.push(w);
        }
        i = i + 1;
    }
    assert(a.subrange(0, a.len() as int) =~= a);
    assert(f.subrange(0, f.len() as int) =~= f);
    proof {
        targets_are_the_acting_ids(op, a, f);
    }
    out
}


/// What the store holds for each of `ids` when wallpaper `w` is in state `st(w)`.
pub open spec fn lookups(ids: Seq<i32>, st: spec_fn(i32) -> Lookup) -> Seq<Lookup> {
    Seq::new(ids.len(), |i: int| st(ids[i]))
}

/// The states after a batch `op` acted on `targets`, starting from `st`.
pub open spec fn store_after(op: BatchOp, st: spec_fn(i32) -> Lookup, targets: Seq<i32>) -> spec_fn(
    i32,
) -> Lookup {
    |w: i32|
        if targets.contains(w) {
            state_after(op)
        } else {
            st(w)
        }
}

/// Two batches over the same ids whose operations apply at the same
/// positions act on the same wallpapers.
proof fn lemma_targets_agree(op1: BatchOp, op2: BatchOp, ids: Seq<i32>, f1: Seq<Lookup>, f2: Seq<Lookup>)
    requires
        f1.len() == ids.len(),
        f2.len() == ids.len(),
        forall|i: int| 0 <= i < ids.len() ==> acts_on(op1, #[trigger] f1[i]) == acts_on(op2, f2[i]),
    ensures
        targets_spec(op1, ids, f1) == targets_spec(op2, ids, f2),
    decreases ids.len(),
{
    if ids.len() > 0 {
        let n = ids.len() - 1;
        assert forall|i: int| 0 <= i < n implies acts_on(op1, #[trigger] f1.drop_last()[i]) == acts_on(
            op2,
            f2.drop_last()[i],
        ) by {
            assert(f1.drop_last()[i] == f1[i]);
            assert(f2.drop_last()[i] == f2[i]);
        }
        lemma_targets_agree(op1, op2, ids.drop_last(), f1.drop_last(), f2.drop_last());
        assert(acts_on(op1, f1[n]) == acts_on(op2, f2[n]));
    }
}

/// A batch over ids none of which it applies to acts on nothing.
proof fn lemma_no_targets(op: BatchOp, ids: Seq<i32>, f: Seq<Lookup>)
    requires
        f.len() == ids.len(),
        forall|i: int| 0 <= i < ids.len() ==> !acts_on(op, #[trigger] f[i]),
    ensures
        targets_spec(op, ids, f) == Seq::<i32>::empty(),
    decreases ids.len(),
{
    if ids.len() > 0 {
        let n = ids.len() - 1;
        assert forall|i: int| 0 <= i < n implies !acts_on(op, #[trigger] f.drop_last()[i]) by {
            assert(f.drop_last()[i] == f[i]);
        }
        lemma_no_targets(op, ids.drop_last(), f.drop_last());
        assert(!acts_on(op, f[n]));
    }
}

/// Running the same batch twice: the second run acts on nothing (what was
/// trashed is in the trash, what was restored is out of it, what was deleted
/// is gone).
pub proof fn repeated_batch_acts_on_nothing(op: BatchOp, ids: Seq<i32>, st: spec_fn(i32) -> Lookup)
    ensures
        ({
            let t = targets_spec(op, ids, lookups(ids, st));
            targets_spec(op, ids, lookups(ids, store_after(op, st, t))) == Seq::<i32>::empty()
        }),
{
    let f = lookups(ids, st);
    let t = targets_spec(op, ids, f);
    let st2 = store_after(op, st, t);
    let f2 = lookups(ids, st2);
    targets_are_the_acting_ids(op, ids, f);
    assert forall|i: int| 0 <= i < ids.len() implies !acts_on(op, #[trigger] f2[i]) by {
        let w = ids[i];
        if t.contains(w) {
            assert(st2(w) == state_after(op));
        } else {
            assert(f[i] == st(w));
            assert(!acts_on(op, f[i]));
        }
    }
    lemma_no_targets(op, ids, f2);
}

/// Restoring a batch just moved to the trash brings back exactly the
/// wallpapers it took, in the same order, provided none of the requested
/// wallpapers was in the trash already.
pub proof fn restore_undoes_trash(ids: Seq<i32>, st: spec_fn(i32) -> Lookup)
    requires
        forall|i: int| 0 <= i < ids.len() ==> st(#[trigger] ids[i]) != Lookup::Trashed,
    ensures
        ({
            let t = targets_spec(BatchOp::Trash, ids, lookups(ids, st));
            targets_spec(BatchOp::Restore, ids, lookups(ids, store_after(BatchOp::Trash, st, t)))
                == t
        }),
{
    let f = lookups(ids, st);
    let t = targets_spec(BatchOp::Trash, ids, f);
    let st2 = store_after(BatchOp::Trash, st, t);
    let f2 = lookups(ids, st2);
    targets_are_the_acting_ids(BatchOp::Trash, ids, f);
    assert forall|i: int| 0 <= i < ids.len() implies acts_on(BatchOp::Restore, #[trigger] f2[i])
        == acts_on(BatchOp::Trash, f[i]) by {
        let w = ids[i];
        assert(f[i] == st(w));
        if t.contains(w) {
            assert(st2(w) == Lookup::Trashed);
            let j = choose|j: int|
                0 <= j < ids.len() && ids[j] == w && acts_on(BatchOp::Trash, f[j]);
            assert(f[j] == st(ids[j]));
        } else {
            assert(st2(w) == st(w));
            if acts_on(BatchOp::Trash, f[i]) {
                assert(t.contains(w));
            }
        }
    }
    lemma_targets_agree(BatchOp::Restore, BatchOp::Trash, ids, f2, f);
}


/// The collections holding one of `targets`, each once, where `links` are the
/// membership rows as (collection, wallpaper) pairs: those whose members must
/// be renumbered after the batch.
pub fn affected_collections(links: &Vec<(i32, i32)>, targets: &Vec<i32>) -> (r: Vec<i32>)
    ensures
        r@.no_duplicates(),
        forall|c: i32|
            #![trigger r@.contains(c)]
            r@.contains(c) <==> exists|k: int|
                0 <= k < links@.len() && links@[k].0 == c && targets@.contains(links@[k].1),
{
    let ghost l = links@;
    let mut out: Vec<i32> = Vec::new();
    let mut i: usize = 0;
    while i < links.len()
        invariant
            l == links@,
            i <= l.len(),
            out@.no_duplicates(),
            forall|c: i32|
                #![trigger out@.contains(c)]
                out@.contains(c) <==> exists|k: int|
                    0 <= k < i && l[k].0 == c && targets@.contains(l[k].1),
        decreases l.len() - i,
    {
        let (c, w) = links[i];
        if contains_id(targets, w) && !contains_id(&out, c) {
            let ghost old_out = out@;
            out.push(c);
            proof {
                assert forall|x: int, y: int|
                    0 <= x < out@.len() && 0 <= y < out@.len() && x != y implies out@[x]
                    != out@[y] by {
                    if x < old_out.len() && y < old_out.len() {
                        assert(out@[x] == old_out[x] && out@[y] == old_out[y]);
                    } else if x < old_out.len() {
                        assert(old_out.contains(old_out[x]));
                        assert(out@[x] == old_out[x]);
                    } else {
                        assert(old_out.contains(old_out[y]));
                        assert(out@[y] == old_out[y]);
                    }
                }
                assert forall|d: i32|
                    #![trigger out@.contains(d)]
                    out@.contains(d) <==> exists|k: int|
                        0 <= k < i + 1 && l[k].0 == d && targets@.contains(l[k].1) by {
                    if out@.contains(d) {
                        let j = choose|j: int| 0 <= j < out@.len() && out@[j] == d;
                        if j < old_out.len() {
                            assert(old_out[j] == d);
                            assert(old_out.contains(d));
                        } else {
                            assert(l[i as int].0 == d);
                        }
                    }
                    if exists|k: int| 0 <= k < i + 1 && l[k].0 == d && targets@.contains(l[k].1) {
                        let k = choose|k: int|
                            0 <= k < i + 1 && l[k].0 == d && targets@.contains(l[k].1);
                        if k < i {
                            assert(old_out.contains(d));
                            let j = choose|j: int| 0 <= j < old_out.len() && old_out[j] == d;
                            assert(out@[j] == d);
                        } else {
                            assert(out@[old_out.len() as int] == d);
                        }
                    }
                }
            }
        } else {
            proof {
                assert forall|d: i32|
                    #![trigger out@.contains(d)]
                    out@.contains(d) <==> exists|k: int|
                        0 <= k < i + 1 && l[k].0 == d && targets@.contains(l[k].1) by {
                    if exists|k: int| 0 <= k < i + 1 && l[k].0 == d && targets@.contains(l[k].1) {
                        let k = choose|k: int|
                            0 <= k < i + 1 && l[k].0 == d && targets@.contains(l[k].1);
                        if k == i {
                            assert(out@.contains(c));
                        }
                    }
                }
            }
        }
        i = i + 1;
    }
    out
}

/// A member after its wallpaper went to the trash: parked at the trash
/// position when the wallpaper is one of `trashed`, unchanged otherwise.
pub open spec fn parked(e: CollectionEntry, trashed: Seq<i32>) -> CollectionEntry {
    if trashed.contains(e.wallpaper_id) {
        CollectionEntry { wallpaper_id: e.wallpaper_id, sort_order: TRASH_SORT_ORDER }
    } else {
        e
    }
}

/// The members of a collection after `trashed` went to the trash: theirs are
/// parked at the trash position, the others keep theirs.
pub fn park_members(rows: &Vec<CollectionEntry>, trashed: &Vec<i32>) -> (r: Vec<CollectionEntry>)
    ensures
        r@.len() == rows@.len(),
        forall|i: int| 0 <= i < rows@.len() ==> #[trigger] r@[i] == parked(rows@[i], trashed@),
{
    let mut out: Vec<CollectionEntry> = Vec::new();
    let mut i: usize = 0;
    while i < rows.len()
        invariant
            i <= rows@.len(),
            out@.len() == i,
            forall|k: int| 0 <= k < i ==> #[trigger] out@[k] == parked(rows@[k], trashed@),
        decreases rows@.len() - i,
    {
        let e = rows[i];
        if contains_id(trashed, e.wallpaper_id) {
            out.push(CollectionEntry { wallpaper_id: e.wallpaper_id, sort_order: TRASH_SORT_ORDER });
        } else {
            out.push(e);
        }
        i = i + 1;
    }
    out
}

/// The members of `rows` whose wallpaper is not one of `deleted`, in order.
pub open spec fn kept_spec(rows: Seq<CollectionEntry>, deleted: Seq<i32>) -> Seq<CollectionEntry>
    decreases rows.len(),
{
    if rows.len() == 0 {
        Seq::empty()
    } else {
        let p = kept_spec(rows.drop_last(), deleted);
        if deleted.contains(rows.last().wallpaper_id) {
            p
        } else {
            p.push(rows.last())
        }
    }
}

/// The members of a collection that remain once `deleted` are gone for good.
pub fn drop_members(rows: &Vec<CollectionEntry>, deleted: &Vec<i32>) -> (r: Vec<CollectionEntry>)
    ensures
        r@ == kept_spec(rows@, deleted@),
{
    let ghost s = rows@;
    let mut out: Vec<CollectionEntry> = Vec::new();
    let mut i: usize = 0;
    while i < rows.len()
        invariant
            s == rows@,
            i <= s.len(),
            out@ == kept_spec(s.subrange(0, i as int), deleted@),
        decreases s.len() - i,
    {
        assert(s.subrange(0, i + 1).drop_last() =~= s.subrange(0, i as int));
        assert(s.subrange(0, i + 1).last() == s[i as int]);
        let e = rows[i];
        if !contains_id(deleted, e.wallpaper_id) {
            out.push(e);
        }
        i = i + 1;
    }
    assert(s.subrange(0, s.len() as int) =~= s);
    out
}

/// No member that remains is one of the deleted wallpapers, and every member
/// that is not deleted remains.
pub proof fn deleted_members_are_gone(rows: Seq<CollectionEntry>, deleted: Seq<i32>, e: CollectionEntry)
    ensures
        kept_spec(rows, deleted).contains(e) <==> (rows.contains(e) && !deleted.contains(
            e.wallpaper_id,
        )),
    decreases rows.len(),
{
    if rows.len() > 0 {
        let p = rows.drop_last();
        deleted_members_are_gone(p, deleted, e);
        let k = kept_spec(p, deleted);
        if rows.contains(e) && !deleted.contains(e.wallpaper_id) {
            let j = choose|j: int| 0 <= j < rows.len() && rows[j] == e;
            if j < rows.len() - 1 {
                assert(p[j] == e);
                assert(p.contains(e));
                if !deleted.contains(rows.last().wallpaper_id) {
                    let m = choose|m: int| 0 <= m < k.len() && k[m] == e;
                    assert(k.push(rows.last())[m] == e);
                }
            } else {
                assert(k.push(rows.last())[k.len() as int] == e);
            }
        }
        if kept_spec(rows, deleted).contains(e) {
            let m = choose|m: int|
                0 <= m < kept_spec(rows, deleted).len() && kept_spec(rows, deleted)[m] == e;
            if m < k.len() {
                if !deleted.contains(rows.last().wallpaper_id) {
                    assert(k.push(rows.last())[m] == k[m]);
                }
                assert(k.contains(e));
                let j = choose|j: int| 0 <= j < p.len() && p[j] == e;
                assert(rows[j] == e);
            } else {
                assert(rows[rows.len() - 1] == e);
            }
        }
    }
}

/// The wallpaper a monitor shows after `removed` left the store or went to
/// the trash: nothing when it showed one of them, else what it showed.
pub fn released_reference(current: Option<i32>, removed: &Vec<i32>) -> (r: Option<i32>)
    ensures
        r == (match current {
            Some(w) => if removed@.contains(w) {
                None
            } else {
                Some(w)
            },
            None => None,
        }),
{
    match current {
        Some(w) => if contains_id(removed, w) {
            None
        } else {
            Some(w)
        },
        None => None,
    }
}


/// The trashed wallpapers of `trashed`, as (id, time moved to the trash),
/// that were moved there before `cutoff`, in order.
pub open spec fn expired_spec(trashed: Seq<(i32, String)>, cutoff: Seq<char>) -> Seq<i32>
    decreases trashed.len(),
{
    if trashed.len() == 0 {
        Seq::empty()
    } else {
        let p = expired_spec(trashed.drop_last(), cutoff);
        if text_less(trashed.last().1@, cutoff) {
            p.push(trashed.last().0)
        } else {
            p
        }
    }
}

/// The trashed wallpapers to delete for good: those moved to the trash before
/// `cutoff` (now minus the retention period, in the same timestamp form).
pub fn expired_ids(trashed: &Vec<(i32, String)>, cutoff: &str) -> (r: Vec<i32>)
    ensures
        r@ == expired_spec(trashed@, cutoff@),
{
    let ghost s = trashed@;
    let mut out: Vec<i32> = Vec::new();
    let mut i: usize = 0;
    while i < trashed.len()
        invariant
            s == trashed@,
            i <= s.len(),
            out@ == expired_spec(s.subrange(0, i as int), cutoff@),
        decreases s.len() - i,
    {
        assert(s.subrange(0, i + 1).drop_last() =~= s.subrange(0, i as int));
        assert(s.subrange(0, i + 1).last() == s[i as int]);
        if text_before(trashed[i].1.as_str(), cutoff) {
            out.push(trashed[i].0);
        }
        i = i + 1;
    }
    assert(s.subrange(0, s.len() as int) =~= s);
    out
}

} // verus!
