//! Tags: name rules, the de-duplicated id list a batch of names resolves to,
//! and which wallpaper-tag links a tagging or a tag set edit adds or removes.
use vstd::prelude::*;

use crate::scheduler::contains_id;
use crate::text::{
    lemma_text_less_irreflexive, lemma_text_less_total, lemma_text_less_transitive, text_before,
    text_less, trim, trim_spec,
};

verus! {

/// Why a tag name is refused.
#[derive(Debug, Clone, Copy, PartialEq, Eq, Structural)]
pub enum TagNameError {
    /// Nothing but whitespace.
    Empty,
}

/// The name a tag is stored under: the input trimmed, refused when empty.
pub fn normalize_tag_name(name: &str) -> (r: Result<String, TagNameError>)
    ensures
        match r {
            Ok(s) => s@ == trim_spec(name@) && s@.len() > 0,
            Err(_) => trim_spec(name@).len() == 0,
        },
{
    let t = trim(name);
    if t.as_str().unicode_len() == 0 {
        Err(TagNameError::Empty)
    } else {
        Ok(t)
    }
}

/// The ids of `ids` with repetitions removed, first occurrences kept in order.
pub open spec fn dedup_spec(ids: Seq<i32>) -> Seq<i32>
    decreases ids.len(),
{
    if ids.len() == 0 {
        Seq::empty()
    } else {
        let p = dedup_spec(ids.drop_last());
        if p.contains(ids.last()) {
            p
        } else {
            p.push(ids.last())
        }
    }
}

/// Removes repeated ids, keeping the first occurrence of each in order.
pub fn dedup_ids(ids: &Vec<i32>) -> (r: Vec<i32>)
    ensures
        r@ == dedup_spec(ids@),
{
    let ghost s = ids@;
    let mut out: Vec<i32> = Vec::new();
    let mut i: usize = 0;
    while i < ids.len()
        invariant
            s == ids@,
            i <= s.len(),
            out@ == dedup_spec(s.subrange(0, i as int)),
        decreases s.len() - i,
    {
        assert(s.subrange(0, i + 1).drop_last() =~= s.subrange(0, i as int));
        assert(s.subrange(0, i + 1).last() == s[i as int]);
        if !contains_id(&out, ids[i]) {
            out.push(ids[i]);
        }
        i = i + 1;
    }
    assert(s.subrange(0, s.len() as int) =~= s);
    out
}

/// De-duplication keeps exactly the ids of the input, each once.
pub proof fn dedup_keeps_each_id_once(ids: Seq<i32>)
    ensures
        forall|x: i32| #[trigger] dedup_spec(ids).contains(x) == ids.contains(x),
        dedup_spec(ids).no_duplicates(),
    decreases ids.len(),
{
    if ids.len() > 0 {
        let p = ids.drop_last();
        dedup_keeps_each_id_once(p);
        assert forall|x: i32| #[trigger] dedup_spec(ids).contains(x) == ids.contains(x) by {
            if ids.contains(x) {
                let k = choose|k: int| 0 <= k < ids.len() && ids[k] == x;
                if k < p.len() {
                    assert(p[k] == x);
                    assert(p.contains(x));
                }
            }
            if p.contains(x) {
                let k = choose|k: int| 0 <= k < p.len() && p[k] == x;
                assert(ids[k] == x);
            }
            if dedup_spec(ids).contains(x) && !dedup_spec(p).contains(x) {
                assert(x == ids.last());
                assert(ids[ids.len() - 1] == x);
            }
            assert(dedup_spec(p).push(ids.last())[dedup_spec(p).len() as int] == ids.last());
            if dedup_spec(p).contains(x) {
                let k = choose|k: int| 0 <= k < dedup_spec(p).len() && dedup_spec(p)[k] == x;
                assert(dedup_spec(p).push(ids.last())[k] == x);
            }
        }
    }
}

/// The ids of `a` that are not in `b`, in the order of `a`.
pub open spec fn minus_spec(a: Seq<i32>, b: Seq<i32>) -> Seq<i32>
    decreases a.len(),
{
    if a.len() == 0 {
        Seq::empty()
    } else {
        let p = minus_spec(a.drop_last(), b);
        if b.contains(a.last()) {
            p
        } else {
            p.push(a.last())
        }
    }
}

/// The ids of `a` that are not in `b`.
pub fn minus_ids(a: &Vec<i32>, b: &Vec<i32>) -> (r: Vec<i32>)
    ensures
        r@ == minus_spec(a@, b@),
{
    let ghost s = a@;
    let mut out: Vec<i32> = Vec::new();
    let mut i: usize = 0;
    while i < a.len()
        invariant
            s == a@,
            i <= s.len(),
            out@ == minus_spec(s.subrange(0, i as int), b@),
        decreases s.len() - i,
    {
        assert(s.subrange(0, i + 1).drop_last() =~= s.subrange(0, i as int));
        assert(s.subrange(0, i + 1).last() == s[i as int]);
        if !contains_id(b, a[i]) {
            out.push(a[i]);
        }
        i = i + 1;
    }
    assert(s.subrange(0, s.len() as int) =~= s);
    out
}

/// The link changes that give a wallpaper exactly the tags `target`, given
/// the tags `current` it has: tags to add, then tags to remove.
pub fn tag_set_changes(target: &Vec<i32>, current: &Vec<i32>) -> (r: (Vec<i32>, Vec<i32>))
    ensures
        r.0@ == minus_spec(target@, current@),
        r.1@ == minus_spec(current@, target@),
{
    (minus_ids(target, current), minus_ids(current, target))
}

proof fn lemma_minus_contains(a: Seq<i32>, b: Seq<i32>, x: i32)
    ensures
        minus_spec(a, b).contains(x) == (a.contains(x) && !b.contains(x)),
    decreases a.len(),
{
    if a.len() > 0 {
        let p = a.drop_last();
        lemma_minus_contains(p, b, x);
        let mp = minus_spec(p, b);
        if a.contains(x) && !b.contains(x) {
            let k = choose|k: int| 0 <= k < a.len() && a[k] == x;
            if k < p.len() {
                assert(p[k] == x);
            } else {
                assert(minus_spec(a, b) == mp.push(a.last()));
                assert(mp.push(a.last())[mp.len() as int] == x);
            }
        }
        if p.contains(x) {
            let k = choose|k: int| 0 <= k < p.len() && p[k] == x;
            assert(a[k] == x);
        }
        if mp.contains(x) && !b.contains(a.last()) {
            let k = choose|k: int| 0 <= k < mp.len() && mp[k] == x;
            assert(mp.push(a.last())[k] == x);
        }
        if !b.contains(a.last()) && minus_spec(a, b).contains(x) && !mp.contains(x) {
            let k = choose|k: int| 0 <= k < minus_spec(a, b).len() && minus_spec(a, b)[k] == x;
            assert(k == mp.len());
            assert(a[a.len() - 1] == x);
        }
    }
}

/// After the changes a wallpaper has exactly the target tags: a tag is linked
/// afterwards iff it was linked and not removed, or added.
pub proof fn tag_set_changes_reach_target(target: Seq<i32>, current: Seq<i32>, x: i32)
    ensures
        ((current.contains(x) && !minus_spec(current, target).contains(x)) || minus_spec(
            target,
            current,
        ).contains(x)) == target.contains(x),
{
    lemma_minus_contains(target, current, x);
    lemma_minus_contains(current, target, x);
}

/// The links a tagging inserts, walking the wallpapers and then the tags:
/// each pair that is neither linked already nor inserted earlier.
pub open spec fn tag_links_spec(
    existing: Seq<(i32, i32)>,
    wallpapers: Seq<i32>,
    tags: Seq<i32>,
) -> Seq<(i32, i32)>
    decreases wallpapers.len(), tags.len(),
{
    if wallpapers.len() == 0 {
        Seq::empty()
    } else {
        let p = tag_links_spec(existing, wallpapers.drop_last(), tags);
        p + links_for(existing + p, wallpapers.last(), tags)
    }
}

/// The links of wallpaper `w` to `tags` that `known` does not hold yet.
pub open spec fn links_for(known: Seq<(i32, i32)>, w: i32, tags: Seq<i32>) -> Seq<(i32, i32)>
    decreases tags.len(),
{
    if tags.len() == 0 {
        Seq::empty()
    } else {
        let p = links_for(known, w, tags.drop_last());
        if (known + p).contains((w, tags.last())) {
            p
        } else {
            p.push((w, tags.last()))
        }
    }
}

/// Whether `links` holds every pair of a wallpaper of `wallpapers` and a
/// tag of `tags`.
pub open spec fn links_all(links: Seq<(i32, i32)>, wallpapers: Seq<i32>, tags: Seq<i32>) -> bool {
    forall|i: int, j: int|
        0 <= i < wallpapers.len() && 0 <= j < tags.len() ==> links.contains(
            (#[trigger] wallpapers[i], #[trigger] tags[j]),
        )
}

proof fn lemma_links_for_covers(known: Seq<(i32, i32)>, w: i32, tags: Seq<i32>)
    ensures
        forall|j: int| 0 <= j < tags.len() ==> (known + links_for(known, w, tags)).contains(
            (w, #[trigger] tags[j]),
        ),
    decreases tags.len(),
{
    if tags.len() > 0 {
        let tp = tags.drop_last();
        lemma_links_for_covers(known, w, tp);
        let p = links_for(known, w, tp);
        let l = links_for(known, w, tags);
        assert forall|j: int| 0 <= j < tags.len() implies (known + l).contains((w, #[trigger] tags[j])) by {
            if j < tp.len() {
                assert(tp[j] == tags[j]);
                assert((known + p).contains((w, tp[j])));
                let k = choose|k: int| 0 <= k < (known + p).len() && (known + p)[k] == (w, tp[j]);
                if !(known + p).contains((w, tags.last())) {
                    assert((known + l)[k] == (known + p)[k]);
                }
            } else {
                if (known + p).contains((w, tags.last())) {
                } else {
                    assert((known + l)[(known + l).len() - 1] == (w, tags.last()));
                }
            }
        }
    }
}

proof fn lemma_links_for_none(known: Seq<(i32, i32)>, w: i32, tags: Seq<i32>)
    requires
        forall|j: int| 0 <= j < tags.len() ==> known.contains((w, #[trigger] tags[j])),
    ensures
        links_for(known, w, tags) == Seq::<(i32, i32)>::empty(),
    decreases tags.len(),
{
    if tags.len() > 0 {
        let tp = tags.drop_last();
        assert forall|j: int| 0 <= j < tp.len() implies known.contains((w, #[trigger] tp[j])) by {
            assert(tp[j] == tags[j]);
        }
        lemma_links_for_none(known, w, tp);
        assert(known + Seq::<(i32, i32)>::empty() =~= known);
        assert(known.contains((w, tags[tags.len() - 1])));
    }
}

proof fn lemma_tag_links_cover(existing: Seq<(i32, i32)>, wallpapers: Seq<i32>, tags: Seq<i32>)
    ensures
        links_all(existing + tag_links_spec(existing, wallpapers, tags), wallpapers, tags),
    decreases wallpapers.len(),
{
    if wallpapers.len() > 0 {
        let wp = wallpapers.drop_last();
        lemma_tag_links_cover(existing, wp, tags);
        let p = tag_links_spec(existing, wp, tags);
        let w = wallpapers.last();
        let lf = links_for(existing + p, w, tags);
        lemma_links_for_covers(existing + p, w, tags);
        let all = existing + tag_links_spec(existing, wallpapers, tags);
        assert(all =~= (existing + p) + lf);
        assert forall|i: int, j: int|
            0 <= i < wallpapers.len() && 0 <= j < tags.len() implies all.contains(
            (#[trigger] wallpapers[i], #[trigger] tags[j]),
        ) by {
            if i < wp.len() {
                assert(wp[i] == wallpapers[i]);
                assert((existing + p).contains((wp[i], tags[j])));
                let k = choose|k: int|
                    0 <= k < (existing + p).len() && (existing + p)[k] == (wp[i], tags[j]);
                assert(all[k] == (existing + p)[k]);
            } else {
                assert((existing + p + lf).contains((w, tags[j])));
            }
        }
    }
}

proof fn lemma_tag_links_none(known: Seq<(i32, i32)>, wallpapers: Seq<i32>, tags: Seq<i32>)
    requires
        links_all(known, wallpapers, tags),
    ensures
        tag_links_spec(known, wallpapers, tags) == Seq::<(i32, i32)>::empty(),
    decreases wallpapers.len(),
{
    if wallpapers.len() > 0 {
        let wp = wallpapers.drop_last();
        assert(links_all(known, wp, tags)) by {
            assert forall|i: int, j: int|
                0 <= i < wp.len() && 0 <= j < tags.len() implies known.contains(
                (#[trigger] wp[i], #[trigger] tags[j]),
            ) by {
                assert(wp[i] == wallpapers[i]);
            }
        }
        lemma_tag_links_none(known, wp, tags);
        let w = wallpapers.last();
        assert(known + Seq::<(i32, i32)>::empty() =~= known);
        assert forall|j: int| 0 <= j < tags.len() implies known.contains((w, #[trigger] tags[j])) by {
            assert(wallpapers[wallpapers.len() - 1] == w);
        }
        lemma_links_for_none(known, w, tags);
        assert(Seq::<(i32, i32)>::empty() + Seq::<(i32, i32)>::empty() =~= Seq::<(i32, i32)>::empty());
    }
}

/// After a tagging every wallpaper carries every tag, so that the same
/// tagging repeated right away inserts nothing.
pub proof fn tagging_twice_inserts_nothing(existing: Seq<(i32, i32)>, wallpapers: Seq<i32>, tags: Seq<i32>)
    ensures
        links_all(existing + tag_links_spec(existing, wallpapers, tags), wallpapers, tags),
        tag_links_spec(existing + tag_links_spec(existing, wallpapers, tags), wallpapers, tags)
            == Seq::<(i32, i32)>::empty(),
{
    lemma_tag_links_cover(existing, wallpapers, tags);
    lemma_tag_links_none(existing + tag_links_spec(existing, wallpapers, tags), wallpapers, tags);
}

proof fn lemma_links_for_fresh(known: Seq<(i32, i32)>, w: i32, tags: Seq<i32>)
    ensures
        links_for(known, w, tags).no_duplicates(),
        forall|x: (i32, i32)|
            #[trigger] links_for(known, w, tags).contains(x) ==> !known.contains(x) && x.0 == w
                && tags.contains(x.1),
    decreases tags.len(),
{
    if tags.len() > 0 {
        let tp = tags.drop_last();
        lemma_links_for_fresh(known, w, tp);
        let p = links_for(known, w, tp);
        let t = tags.last();
        assert forall|x: (i32, i32)| #[trigger] links_for(known, w, tags).contains(x) implies !known.contains(x) && x.0 == w
            && tags.contains(x.1) by {
            let l = links_for(known, w, tags);
            let k = choose|k: int| 0 <= k < l.len() && l[k] == x;
            if k < p.len() {
                assert(p[k] == x);
                assert(p.contains(x));
                let j = choose|j: int| 0 <= j < tp.len() && tp[j] == x.1;
                assert(tags[j] == x.1);
            } else {
                assert(x == (w, t));
                assert(!(known + p).contains((w, t)));
                if known.contains(x) {
                    let j = choose|j: int| 0 <= j < known.len() && known[j] == x;
                    assert((known + p)[j] == x);
                }
                assert(tags[tags.len() - 1] == t);
            }
        }
        if !(known + p).contains((w, t)) {
            assert forall|a: int, b: int|
                0 <= a < p.len() + 1 && 0 <= b < p.len() + 1 && a != b implies p.push((w, t))[a] != p.push((w, t))[b] by {
                if a < p.len() && b < p.len() {
                } else if a < p.len() {
                    assert((known + p)[known.len() + a] == p[a]);
                } else {
                    assert((known + p)[known.len() + b] == p[b]);
                }
            }
        }
    }
}

proof fn lemma_tag_links_fresh(existing: Seq<(i32, i32)>, wallpapers: Seq<i32>, tags: Seq<i32>)
    ensures
        tag_links_spec(existing, wallpapers, tags).no_duplicates(),
        forall|x: (i32, i32)|
            #[trigger] tag_links_spec(existing, wallpapers, tags).contains(x) ==> !existing.contains(x)
                && wallpapers.contains(x.0) && tags.contains(x.1),
    decreases wallpapers.len(),
{
    if wallpapers.len() > 0 {
        let wp = wallpapers.drop_last();
        lemma_tag_links_fresh(existing, wp, tags);
        let p = tag_links_spec(existing, wp, tags);
        let w = wallpapers.last();
        let lf = links_for(existing + p, w, tags);
        lemma_links_for_fresh(existing + p, w, tags);
        let all = tag_links_spec(existing, wallpapers, tags);
        assert(all == p + lf);
        assert forall|x: (i32, i32)| #[trigger] all.contains(x) implies !existing.contains(x)
            && wallpapers.contains(x.0) && tags.contains(x.1) by {
            let k = choose|k: int| 0 <= k < all.len() && all[k] == x;
            if k < p.len() {
                assert(p[k] == x);
                assert(p.contains(x));
                let j = choose|j: int| 0 <= j < wp.len() && wp[j] == x.0;
                assert(wallpapers[j] == x.0);
            } else {
                assert(lf[k - p.len()] == x);
                assert(lf.contains(x));
                if existing.contains(x) {
                    let j = choose|j: int| 0 <= j < existing.len() && existing[j] == x;
                    assert((existing + p)[j] == x);
                }
                assert(wallpapers[wallpapers.len() - 1] == w);
            }
        }
        assert forall|a: int, b: int|
            0 <= a < all.len() && 0 <= b < all.len() && a != b implies all[a] != all[b] by {
            if a < p.len() && b < p.len() {
            } else if a >= p.len() && b >= p.len() {
                assert(all[a] == lf[a - p.len()] && all[b] == lf[b - p.len()]);
            } else if a < p.len() {
                assert(all[b] == lf[b - p.len()]);
                assert(lf.contains(all[b]));
                assert((existing + p)[existing.len() + a] == p[a]);
            } else {
                assert(all[a] == lf[a - p.len()]);
                assert(lf.contains(all[a]));
                assert((existing + p)[existing.len() + b] == p[b]);
            }
        }
    }
}

/// A tagging inserts exactly the pairs of a requested wallpaper and a
/// requested tag that are not linked yet, each once: so it inserts as many
/// links as there are such distinct pairs.
pub proof fn tagging_inserts_each_missing_pair_once(
    existing: Seq<(i32, i32)>,
    wallpapers: Seq<i32>,
    tags: Seq<i32>,
)
    ensures
        tag_links_spec(existing, wallpapers, tags).no_duplicates(),
        forall|x: (i32, i32)|
            #[trigger] tag_links_spec(existing, wallpapers, tags).contains(x) <==> (wallpapers.contains(
                x.0,
            ) && tags.contains(x.1) && !existing.contains(x)),
{
    lemma_tag_links_fresh(existing, wallpapers, tags);
    lemma_tag_links_cover(existing, wallpapers, tags);
    let t = tag_links_spec(existing, wallpapers, tags);
    assert forall|x: (i32, i32)|
        wallpapers.contains(x.0) && tags.contains(x.1) && !existing.contains(x) implies #[trigger] t.contains(x) by {
        let i = choose|i: int| 0 <= i < wallpapers.len() && wallpapers[i] == x.0;
        let j = choose|j: int| 0 <= j < tags.len() && tags[j] == x.1;
        assert((existing + t).contains((wallpapers[i], tags[j])));
        let k = choose|k: int| 0 <= k < (existing + t).len() && (existing + t)[k] == x;
        if k < existing.len() {
            assert(existing[k] == x);
        } else {
            assert(t[k - existing.len()] == x);
        }
    }
}

fn contains_link(links: &Vec<(i32, i32)>, w: i32, t: i32) -> (r: bool)
    ensures
        r == links@.contains((w, t)),
{
    let mut i: usize = 0;
    while i < links.len()
        invariant
            i <= links.len(),
            forall|j: int| 0 <= j < i ==> links@[j] != (w, t),
        decreases links.len() - i,
    {
        if links[i].0 == w && links[i].1 == t {
            assert(links@[i as int] == (w, t));
            return true;
        }
        i = i + 1;
    }
    false
}

/// The wallpaper-tag links to insert when every wallpaper of `wallpapers`
/// gets every tag of `tags`, given the links `existing` of those wallpapers;
/// nothing is linked twice.
pub fn plan_tag_links(existing: &Vec<(i32, i32)>, wallpapers: &Vec<i32>, tags: &Vec<i32>) -> (r: Vec<(i32, i32)>)
    ensures
        r@ == tag_links_spec(existing@, wallpapers@, tags@),
{
    let ghost ws = wallpapers@;
    let ghost ts = tags@;
    let mut known: Vec<(i32, i32)> = Vec::new();
    let mut k: usize = 0;
    while k < existing.len()
        invariant
            k <= existing.len(),
            known@ == existing@.subrange(0, k as int),
        decreases existing.len() - k,
    {
        known.push(existing[k]);
        assert(known@ =~= existing@.subrange(0, k + 1));
        k = k + 1;
    }
    let mut out: Vec<(i32, i32)> = Vec::new();
    let mut i: usize = 0;
    assert(known@ =~= existing@ + out@);
    while i < wallpapers.len()
        invariant
            ws == wallpapers@,
            ts == tags@,
            i <= ws.len(),
            out@ == tag_links_spec(existing@, ws.subrange(0, i as int), ts),
            known@ == existing@ + out@,
        decreases ws.len() - i,
    {
        assert(ws.subrange(0, i + 1).drop_last() =~= ws.subrange(0, i as int));
        assert(ws.subrange(0, i + 1).last() == ws[i as int]);
        let w = wallpapers[i];
        let ghost base = known@;
        let ghost out0 = out@;
        let mut added: Vec<(i32, i32)> = Vec::new();
        let mut j: usize = 0;
        while j < tags.len()
            invariant
                ts == tags@,
                j <= ts.len(),
                added@ == links_for(base, w, ts.subrange(0, j as int)),
                known@ == base + added@,
                out@ == out0 + added@,
            decreases ts.len() - j,
        {
            assert(ts.subrange(0, j + 1).drop_last() =~= ts.subrange(0, j as int));
            assert(ts.subrange(0, j + 1).last() == ts[j as int]);
            let t = tags[j];
            if !contains_link(&known, w, t) {
                known.push((w, t));
                out.push((w, t));
                added.push((w, t));
                assert(known@ =~= base + added@);
                assert(out@ =~= out0 + added@);
            }
            j = j + 1;
        }
        assert(ts.subrange(0, ts.len() as int) =~= ts);
        assert(base == existing@ + out0);
        i = i + 1;
    }
    assert(ws.subrange(0, ws.len() as int) =~= ws);
    out
}

/// Whether all of `ids` exist, given how many distinct tags of those ids the
/// store found: the empty list trivially does.
pub fn all_tag_ids_exist(found: u64, ids: &Vec<i32>) -> (r: bool)
    ensures
        r == (ids@.len() == 0 || found == dedup_spec(ids@).len()),
{
    if ids.len() == 0 {
        return true;
    }
    let distinct = dedup_ids(ids);
    found == distinct.len() as u64
}


// ---------------------------------------------------------------------------
// listing order

/// A tag with the number of wallpapers outside the trash that carry it.
pub struct TagWithCount {
    pub id: i32,
    pub name: String,
    pub created_at: String,
    pub wallpaper_count: i64,
}

/// Whether tag `a` is listed before tag `b`: the tag on more wallpapers
/// first, between equal counts the smaller name.
pub open spec fn listed_before(a: TagWithCount, b: TagWithCount) -> bool {
    a.wallpaper_count > b.wallpaper_count || (a.wallpaper_count == b.wallpaper_count && text_less(
        a.name@,
        b.name@,
    ))
}

/// Whether the tag at position `i` of `tags` is listed before the one at `j`:
/// by `listed_before`, and tags that tie keep their order.
pub open spec fn ranks_before(tags: Seq<TagWithCount>, i: int, j: int) -> bool {
    listed_before(tags[i], tags[j]) || (!listed_before(tags[j], tags[i]) && i < j)
}

/// Whether `order` lists every position of `tags` once, in listing order.
pub open spec fn is_listing_order(tags: Seq<TagWithCount>, order: Seq<usize>) -> bool {
    &&& order.len() == tags.len()
    &&& order.no_duplicates()
    &&& forall|k: int| 0 <= k < order.len() ==> #[trigger] order[k] < tags.len()
    &&& forall|x: int, y: int|
        0 <= x < y < order.len() ==> ranks_before(tags, #[trigger] order[x] as int, #[trigger] order[y] as int)
}

/// No tag is listed before itself, and of two tags at most one is listed
/// before the other.
proof fn lemma_listed_before_asymmetric(a: TagWithCount, b: TagWithCount)
    ensures
        listed_before(a, b) ==> !listed_before(b, a),
{
    lemma_text_less_irreflexive(a.name@, 0);
    if listed_before(a, b) && listed_before(b, a) {
        lemma_text_less_transitive(a.name@, b.name@, a.name@, 0);
    }
}

/// Whenever `a` is listed before `c`, any `b` is listed after `a` or before
/// `c` (the order is a strict weak order).
proof fn lemma_listed_before_splits(a: TagWithCount, b: TagWithCount, c: TagWithCount)
    requires
        listed_before(a, c),
    ensures
        listed_before(a, b) || listed_before(b, c),
{
    if a.wallpaper_count == c.wallpaper_count && b.wallpaper_count == a.wallpaper_count {
        if !text_less(a.name@, b.name@) {
            if text_less(b.name@, a.name@) {
                lemma_text_less_transitive(b.name@, a.name@, c.name@, 0);
            } else {
                lemma_text_less_total(a.name@, b.name@, 0);
                assert(a.name@ =~= b.name@);
            }
        }
    }
}

/// Whether tag `a` is listed before tag `b`.
pub fn listed_first(a: &TagWithCount, b: &TagWithCount) -> (r: bool)
    ensures
        r == listed_before(*a, *b),
{
    a.wallpaper_count > b.wallpaper_count || (a.wallpaper_count == b.wallpaper_count && text_before(
        a.name.as_str(),
        b.name.as_str(),
    ))
}

/// The positions of `tags` in listing order: most used first, then by name,
/// ties in their given order.
pub fn listing_order(tags: &Vec<TagWithCount>) -> (r: Vec<usize>)
    ensures
        is_listing_order(tags@, r@),
{
    let ghost t = tags@;
    let mut out: Vec<usize> = Vec::new();
    let mut k: usize = 0;
    while k < tags.len()
        invariant
            t == tags@,
            k <= t.len(),
            out@.len() == k,
            out@.no_duplicates(),
            forall|m: int| 0 <= m < out@.len() ==> #[trigger] out@[m] < k,
            forall|x: int, y: int|
                0 <= x < y < out@.len() ==> ranks_before(t, #[trigger] out@[x] as int, #[trigger] out@[y] as int),
        decreases t.len() - k,
    {
        // the first member the new tag is listed before
        let mut p: usize = 0;
        while p < out.len() && !listed_first(&tags[k], &tags[out[p]])
            invariant
                t == tags@,
                k < t.len(),
                p <= out@.len(),
                forall|m: int| 0 <= m < out@.len() ==> #[trigger] out@[m] < k,
                forall|m: int| 0 <= m < p ==> !listed_before(t[k as int], t[#[trigger] out@[m] as int]),
            decreases out@.len() - p,
        {
            p = p + 1;
        }
        let ghost o = out@;
        out.insert(p, k);
        proof {
            let n = out@;
            assert(n == o.insert(p as int, k));
            assert forall|m: int| 0 <= m < n.len() implies #[trigger] n[m] < k + 1 by {
                if m < p {
                    assert(n[m] == o[m]);
                } else if m > p {
                    assert(n[m] == o[m - 1]);
                }
            }
            assert forall|x: int, y: int| 0 <= x < y < n.len() && n[x] == n[y] implies false by {
                if x < p && y > p {
                    assert(n[x] == o[x] && n[y] == o[y - 1]);
                } else if x > p {
                    assert(n[x] == o[x - 1] && n[y] == o[y - 1]);
                } else if y < p {
                    assert(n[x] == o[x] && n[y] == o[y]);
                } else if x == p {
                    assert(n[y] == o[y - 1]);
                } else {
                    assert(n[x] == o[x]);
                }
            }
            assert forall|x: int, y: int|
                0 <= x < y < n.len() implies ranks_before(t, #[trigger] n[x] as int, #[trigger] n[y] as int) by {
                if y < p {
                    assert(n[x] == o[x] && n[y] == o[y]);
                } else if x > p {
                    assert(n[x] == o[x - 1] && n[y] == o[y - 1]);
                } else if x < p && y > p {
                    assert(n[x] == o[x] && n[y] == o[y - 1]);
                } else if y == p {
                    assert(n[x] == o[x]);
                    assert(!listed_before(t[k as int], t[o[x] as int]));
                    assert(o[x] < k);
                } else {
                    // x == p: the new tag against a later member
                    assert(n[y] == o[y - 1]);
                    let b = t[o[y - 1] as int];
                    assert(p < o.len());
                    let a = t[o[p as int] as int];
                    assert(listed_before(t[k as int], a));
                    if y - 1 > p {
                        assert(ranks_before(t, o[p as int] as int, o[y - 1] as int));
                        lemma_listed_before_asymmetric(a, b);
                        lemma_listed_before_splits(t[k as int], b, a);
                    }
                }
            }
        }
        k = k + 1;
    }
    out
}

/// Whether `a` and `b` hold the same tag.
pub open spec fn same_tag(a: TagWithCount, b: TagWithCount) -> bool {
    a.id == b.id && a.name@ == b.name@ && a.created_at@ == b.created_at@ && a.wallpaper_count
        == b.wallpaper_count
}

/// The tags in listing order: most used first, then by name.
pub fn sort_tags(tags: &Vec<TagWithCount>) -> (r: Vec<TagWithCount>)
    ensures
        exists|order: Seq<usize>|
            is_listing_order(tags@, order) && order.len() == r@.len() && forall|k: int|
                0 <= k < order.len() ==> same_tag(#[trigger] r@[k], tags@[order[k] as int]),
{
    let order = listing_order(tags);
    let mut out: Vec<TagWithCount> = Vec::new();
    let mut i: usize = 0;
    while i < order.len()
        invariant
            is_listing_order(tags@, order@),
            i <= order@.len(),
            out@.len() == i,
            forall|k: int| 0 <= k < i ==> same_tag(#[trigger] out@[k], tags@[order@[k] as int]),
        decreases order@.len() - i,
    {
        let t = &tags[order[i]];
        out.push(
            TagWithCount {
                id: t.id,
                name: t.name.clone(),
                created_at: t.created_at.clone(),
                wallpaper_count: t.wallpaper_count,
            },
        );
        i = i + 1;
    }
    assert(is_listing_order(tags@, order@) && order@.len() == out@.len());
    out
}

} // verus!
