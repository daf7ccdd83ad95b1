//! Collections: name rules, the carousel order of their members (the
//! `sort_order` cursor), and how that order is kept dense when members are
//! added, reordered, moved to the trash or restored.
use vstd::prelude::*;

use crate::text::{char_count, str_eq, trim, trim_spec};

verus! {

/// The longest collection name, in characters.
pub const MAX_NAME_CHARS: usize = 32;

/// Why a collection name is refused.
#[derive(Debug, Clone, Copy, PartialEq, Eq, Structural)]
pub enum NameError {
    /// Nothing but whitespace.
    Empty,
    /// More than 32 characters once trimmed.
    TooLong,
}

/// Checks a collection name: trimmed, it must be non-empty and at most 32
/// characters long.
pub fn validate_name(name: &str) -> (r: Result<(), NameError>)
    ensures
        r == (if trim_spec(name@).len() == 0 {
            Err(NameError::Empty)
        } else if trim_spec(name@).len() > MAX_NAME_CHARS {
            Err(NameError::TooLong)
        } else {
            Ok(())
        }),
{
    let t = trim(name);
    let n = char_count(t.as_str());
    if n == 0 {
        Err(NameError::Empty)
    } else if n > MAX_NAME_CHARS {
        Err(NameError::TooLong)
    } else {
        Ok(())
    }
}

/// One member of a collection: the wallpaper and its position.
#[derive(Debug, Clone, Copy, PartialEq, Eq, Structural)]
pub struct CollectionEntry {
    pub wallpaper_id: i32,
    pub sort_order: i32,
}

/// The position members in the trash are parked at, before every visible one.
pub const TRASH_SORT_ORDER: i32 = -1;

/// Which member a cursor move looks for.
#[derive(Debug, Clone, Copy, PartialEq, Eq, Structural)]
pub enum Seek {
    /// The lowest position above the given one.
    After(i32),
    /// The highest position below the given one.
    Before(i32),
    /// The lowest position.
    First,
    /// The highest position.
    Last,
}

/// Whether a member is a candidate for `seek`: members parked in the trash
/// never are.
pub open spec fn admissible(e: CollectionEntry, seek: Seek) -> bool {
    visible(e) && match seek {
        Seek::After(o) => e.sort_order > o,
        Seek::Before(o) => e.sort_order < o,
        Seek::First => true,
        Seek::Last => true,
    }
}

/// Whether candidate `a` is strictly better than `b` for `seek`.
pub open spec fn better(a: CollectionEntry, b: CollectionEntry, seek: Seek) -> bool {
    match seek {
        Seek::After(_) | Seek::First => a.sort_order < b.sort_order,
        Seek::Before(_) | Seek::Last => a.sort_order > b.sort_order,
    }
}

/// The index of the best candidate for `seek`; among equal positions the
/// earliest member wins.
pub open spec fn seek_index(rows: Seq<CollectionEntry>, seek: Seek) -> Option<int>
    decreases rows.len(),
{
    if rows.len() == 0 {
        None
    } else {
        let i = rows.len() - 1;
        let e = rows.last();
        match seek_index(rows.drop_last(), seek) {
            None => if admissible(e, seek) {
                Some(i)
            } else {
                None
            },
            Some(b) => if admissible(e, seek) && better(e, rows[b], seek) {
                Some(i)
            } else {
                Some(b)
            },
        }
    }
}

proof fn lemma_seek_index(rows: Seq<CollectionEntry>, seek: Seek)
    ensures
        seek_index(rows, seek) matches Some(b) ==> 0 <= b < rows.len() && admissible(
            rows[b],
            seek,
        ) && forall|j: int|
            0 <= j < rows.len() && admissible(#[trigger] rows[j], seek) ==> !better(
                rows[j],
                rows[b],
                seek,
            ),
        (seek_index(rows, seek) is None) == (forall|j: int|
            0 <= j < rows.len() ==> !admissible(#[trigger] rows[j], seek)),
    decreases rows.len(),
{
    if rows.len() > 0 {
        let p = rows.drop_last();
        let i = rows.len() - 1;
        let e = rows.last();
        lemma_seek_index(p, seek);
        assert forall|j: int| 0 <= j < p.len() implies #[trigger] p[j] == rows[j] by {}
        match seek_index(p, seek) {
            Some(b) => {
                assert(rows[b] == p[b]);
                if admissible(e, seek) && better(e, rows[b], seek) {
                    assert forall|j: int|
                        0 <= j < rows.len() && admissible(#[trigger] rows[j], seek) implies !better(
                        rows[j],
                        e,
                        seek,
                    ) by {
                        if j < p.len() {
                            assert(p[j] == rows[j]);
                            assert(!better(p[j], p[b], seek));
                        }
                    }
                } else {
                    assert forall|j: int|
                        0 <= j < rows.len() && admissible(#[trigger] rows[j], seek) implies !better(
                        rows[j],
                        rows[b],
                        seek,
                    ) by {
                        if j < p.len() {
                            assert(p[j] == rows[j]);
                        }
                    }
                }
            },
            None => {
                if admissible(e, seek) {
                    assert forall|j: int|
                        0 <= j < rows.len() && admissible(#[trigger] rows[j], seek) implies !better(
                        rows[j],
                        e,
                        seek,
                    ) by {
                        if j < p.len() {
                            assert(p[j] == rows[j]);
                            assert(!admissible(p[j], seek));
                        }
                    }
                } else {
                    assert forall|j: int| 0 <= j < rows.len() implies !admissible(
                        #[trigger] rows[j],
                        seek,
                    ) by {
                        if j < p.len() {
                            assert(p[j] == rows[j]);
                        }
                    }
                }
            },
        }
    }
}

/// The index of the best candidate for `seek`.
pub fn find_index(rows: &Vec<CollectionEntry>, seek: Seek) -> (r: Option<usize>)
    ensures
        match (r, seek_index(rows@, seek)) {
            (Some(a), Some(b)) => a == b,
            (None, None) => true,
            _ => false,
        },
{
    let ghost s = rows@;
    let mut best: Option<usize> = None;
    let mut i: usize = 0;
    while i < rows.len()
        invariant
            s == rows@,
            i <= s.len(),
            match (best, seek_index(s.subrange(0, i as int), seek)) {
                (Some(a), Some(b)) => a == b && (a as int) < i,
                (None, None) => true,
                _ => false,
            },
        decreases s.len() - i,
    {
        let ghost pre = s.subrange(0, i as int);
        assert(s.subrange(0, i + 1).drop_last() =~= pre);
        assert(s.subrange(0, i + 1).last() == s[i as int]);
        let e = rows[i];
        let ok = e.sort_order != TRASH_SORT_ORDER && match seek {
            Seek::After(o) => e.sort_order > o,
            Seek::Before(o) => e.sort_order < o,
            Seek::First => true,
            Seek::Last => true,
        };
        if ok {
            match best {
                None => {
                    best = Some(i);
                },
                Some(b) => {
                    let cur = rows[b];
                    assert(s.subrange(0, i + 1)[b as int] == cur);
                    let improves = match seek {
                        Seek::After(_) | Seek::First => e.sort_order < cur.sort_order,
                        Seek::Before(_) | Seek::Last => e.sort_order > cur.sort_order,
                    };
                    if improves {
                        best = Some(i);
                    }
                },
            }
        } else {
            match best {
                Some(b) => {
                    assert(s.subrange(0, i + 1)[b as int] == s[b as int]);
                },
                None => {},
            }
        }
        i = i + 1;
    }
    assert(s.subrange(0, s.len() as int) =~= s);
    best
}

/// The index of the member showing wallpaper `w`, the first if several.
pub open spec fn position_of(rows: Seq<CollectionEntry>, w: i32) -> Option<int>
    decreases rows.len(),
{
    if rows.len() == 0 {
        None
    } else {
        match position_of(rows.drop_last(), w) {
            Some(i) => Some(i),
            None => if rows.last().wallpaper_id == w {
                Some(rows.len() - 1)
            } else {
                None
            },
        }
    }
}

proof fn lemma_position_of(rows: Seq<CollectionEntry>, w: i32)
    ensures
        position_of(rows, w) matches Some(i) ==> 0 <= i < rows.len() && rows[i].wallpaper_id == w
            && forall|j: int| 0 <= j < i ==> #[trigger] rows[j].wallpaper_id != w,
        (position_of(rows, w) is None) == (forall|j: int|
            0 <= j < rows.len() ==> #[trigger] rows[j].wallpaper_id != w),
    decreases rows.len(),
{
    if rows.len() > 0 {
        let p = rows.drop_last();
        lemma_position_of(p, w);
        assert forall|j: int| 0 <= j < p.len() implies #[trigger] p[j] == rows[j] by {}
        match position_of(p, w) {
            Some(i) => {
                assert(rows[i] == p[i]);
                assert forall|j: int| 0 <= j < i implies #[trigger] rows[j].wallpaper_id != w by {
                    assert(rows[j] == p[j]);
                }
            },
            None => {
                assert forall|j: int| 0 <= j < p.len() implies #[trigger] rows[j].wallpaper_id != w by {
                    assert(rows[j] == p[j]);
                }
            },
        }
    }
}

/// The index of the member showing wallpaper `w`.
pub fn find_position(rows: &Vec<CollectionEntry>, w: i32) -> (r: Option<usize>)
    ensures
        match (r, position_of(rows@, w)) {
            (Some(a), Some(b)) => a == b,
            (None, None) => true,
            _ => false,
        },
{
    let ghost s = rows@;
    let mut i: usize = 0;
    while i < rows.len()
        invariant
            s == rows@,
            i <= s.len(),
            position_of(s.subrange(0, i as int), w) is None,
        decreases s.len() - i,
    {
        assert(s.subrange(0, i + 1).drop_last() =~= s.subrange(0, i as int));
        assert(s.subrange(0, i + 1).last() == s[i as int]);
        if rows[i].wallpaper_id == w {
            proof {
                lemma_position_prefix(s, i + 1, w);
            }
            return Some(i);
        }
        i = i + 1;
    }
    assert(s.subrange(0, s.len() as int) =~= s);
    None
}

proof fn lemma_position_prefix(s: Seq<CollectionEntry>, k: int, w: i32)
    requires
        0 <= k <= s.len(),
        position_of(s.subrange(0, k), w) is Some,
    ensures
        position_of(s, w) == position_of(s.subrange(0, k), w),
    decreases s.len() - k,
{
    if k < s.len() {
        assert(s.subrange(0, k + 1).drop_last() =~= s.subrange(0, k));
        lemma_position_prefix(s, k + 1, w);
    } else {
        assert(s.subrange(0, k) =~= s);
    }
}

/// The wallpaper of the best member for `seek`.
pub open spec fn seek_wallpaper(rows: Seq<CollectionEntry>, seek: Seek) -> Option<i32> {
    match seek_index(rows, seek) {
        Some(i) => Some(rows[i].wallpaper_id),
        None => None,
    }
}

/// The sequential successor of `current`: the member with the next higher
/// position, wrapping to the first member; a wallpaper that is not a member
/// (or none) also starts from the first.
pub open spec fn sequential_next(rows: Seq<CollectionEntry>, current: Option<i32>) -> Option<i32> {
    match current {
        Some(c) => match position_of(rows, c) {
            Some(p) => match seek_index(rows, Seek::After(rows[p].sort_order)) {
                Some(_) => seek_wallpaper(rows, Seek::After(rows[p].sort_order)),
                None => seek_wallpaper(rows, Seek::First),
            },
            None => seek_wallpaper(rows, Seek::First),
        },
        None => seek_wallpaper(rows, Seek::First),
    }
}

/// The sequential predecessor of `current`, wrapping to the last member.
pub open spec fn sequential_prev(rows: Seq<CollectionEntry>, current: Option<i32>) -> Option<i32> {
    match current {
        Some(c) => match position_of(rows, c) {
            Some(p) => match seek_index(rows, Seek::Before(rows[p].sort_order)) {
                Some(_) => seek_wallpaper(rows, Seek::Before(rows[p].sort_order)),
                None => seek_wallpaper(rows, Seek::Last),
            },
            None => seek_wallpaper(rows, Seek::Last),
        },
        None => seek_wallpaper(rows, Seek::Last),
    }
}

fn seek_wallpaper_exec(rows: &Vec<CollectionEntry>, seek: Seek) -> (r: Option<i32>)
    ensures
        r == seek_wallpaper(rows@, seek),
{
    proof {
        lemma_seek_index(rows@, seek);
    }
    match find_index(rows, seek) {
        Some(i) => Some(rows[i].wallpaper_id),
        None => None,
    }
}

/// Members other than `current` that a random pick may land on: those not
/// parked in the trash.
pub open spec fn random_candidates(rows: Seq<CollectionEntry>, current: Option<i32>) -> Seq<i32>
    decreases rows.len(),
{
    if rows.len() == 0 {
        Seq::empty()
    } else {
        let p = random_candidates(rows.drop_last(), current);
        if current == Some(rows.last().wallpaper_id) || !visible(rows.last()) {
            p
        } else {
            p.push(rows.last().wallpaper_id)
        }
    }
}

/// A random successor: the candidate that `pick` (a random number) selects,
/// or the first member when `current` is the only one.
pub open spec fn random_next(rows: Seq<CollectionEntry>, current: Option<i32>, pick: u64) -> Option<i32> {
    let c = random_candidates(rows, current);
    if c.len() > 0 {
        Some(c[(pick as int) % (c.len() as int)])
    } else {
        seek_wallpaper(rows, Seek::First)
    }
}

fn random_next_exec(rows: &Vec<CollectionEntry>, current: Option<i32>, pick: u64) -> (r: Option<i32>)
    ensures
        r == random_next(rows@, current, pick),
{
    let ghost s = rows@;
    let mut cands: Vec<i32> = Vec::new();
    let mut i: usize = 0;
    while i < rows.len()
        invariant
            s == rows@,
            i <= s.len(),
            cands@ == random_candidates(s.subrange(0, i as int), current),
        decreases s.len() - i,
    {
        assert(s.subrange(0, i + 1).drop_last() =~= s.subrange(0, i as int));
        assert(s.subrange(0, i + 1).last() == s[i as int]);
        let w = rows[i].wallpaper_id;
        if current != Some(w) && rows[i].sort_order != TRASH_SORT_ORDER {
            cands.push(w);
        }
        i = i + 1;
    }
    assert(s.subrange(0, s.len() as int) =~= s);
    if cands.len() > 0 {
        let k = (pick % (cands.len() as u64)) as usize;
        Some(cands[k])
    } else {
        seek_wallpaper_exec(rows, Seek::First)
    }
}

/// Whether a play mode is `random` (any other mode plays in order).
pub fn is_random_mode(play_mode: &str) -> (r: bool)
    ensures
        r == (play_mode@ == "random"@),
{
    str_eq(play_mode, "random")
}

/// The wallpaper after `current` in a collection whose members are `rows`:
/// a random other member in `random` mode (selected by `pick`), else the
/// sequential successor.
pub fn next_wallpaper_id(rows: &Vec<CollectionEntry>, current: Option<i32>, play_mode: &str, pick: u64) -> (r:
    Option<i32>)
    ensures
        r == (if play_mode@ == "random"@ {
            random_next(rows@, current, pick)
        } else {
            sequential_next(rows@, current)
        }),
{
    if is_random_mode(play_mode) {
        return random_next_exec(rows, current, pick);
    }
    proof {
        lemma_position_of(rows@, match current {
            Some(c) => c,
            None => 0,
        });
    }
    match current {
        Some(c) => match find_position(rows, c) {
            Some(p) => {
                let o = rows[p].sort_order;
                proof {
                    lemma_seek_index(rows@, Seek::After(o));
                }
                match find_index(rows, Seek::After(o)) {
                    Some(i) => Some(rows[i].wallpaper_id),
                    None => seek_wallpaper_exec(rows, Seek::First),
                }
            },
            None => seek_wallpaper_exec(rows, Seek::First),
        },
        None => seek_wallpaper_exec(rows, Seek::First),
    }
}

/// The wallpaper before `current`: in `random` mode the same as the next one,
/// else the sequential predecessor.
pub fn prev_wallpaper_id(rows: &Vec<CollectionEntry>, current: Option<i32>, play_mode: &str, pick: u64) -> (r:
    Option<i32>)
    ensures
        r == (if play_mode@ == "random"@ {
            random_next(rows@, current, pick)
        } else {
            sequential_prev(rows@, current)
        }),
{
    if is_random_mode(play_mode) {
        return random_next_exec(rows, current, pick);
    }
    proof {
        lemma_position_of(rows@, match current {
            Some(c) => c,
            None => 0,
        });
    }
    match current {
        Some(c) => match find_position(rows, c) {
            Some(p) => {
                let o = rows[p].sort_order;
                proof {
                    lemma_seek_index(rows@, Seek::Before(o));
                }
                match find_index(rows, Seek::Before(o)) {
                    Some(i) => Some(rows[i].wallpaper_id),
                    None => seek_wallpaper_exec(rows, Seek::Last),
                }
            },
            None => seek_wallpaper_exec(rows, Seek::Last),
        },
        None => seek_wallpaper_exec(rows, Seek::Last),
    }
}

/// Whether `w` is the wallpaper of a member outside the trash.
pub open spec fn shown_member(rows: Seq<CollectionEntry>, w: i32) -> bool {
    exists|k: int| 0 <= k < rows.len() && #[trigger] rows[k].wallpaper_id == w && visible(rows[k])
}

proof fn lemma_random_candidates_visible(rows: Seq<CollectionEntry>, current: Option<i32>)
    ensures
        forall|j: int|
            0 <= j < random_candidates(rows, current).len() ==> shown_member(
                rows,
                #[trigger] random_candidates(rows, current)[j],
            ),
    decreases rows.len(),
{
    if rows.len() > 0 {
        let p = rows.drop_last();
        lemma_random_candidates_visible(p, current);
        let c = random_candidates(p, current);
        assert forall|j: int|
            0 <= j < random_candidates(rows, current).len() implies shown_member(
            rows,
            #[trigger] random_candidates(rows, current)[j],
        ) by {
            let w = random_candidates(rows, current)[j];
            if j < c.len() {
                assert(w == c[j]);
                assert(shown_member(p, w));
                let k = choose|k: int| 0 <= k < p.len() && #[trigger] p[k].wallpaper_id == w && visible(p[k]);
                assert(rows[k] == p[k]);
            } else {
                assert(rows[rows.len() - 1].wallpaper_id == w);
            }
        }
    }
}

/// Stepping through a collection never lands on a wallpaper parked in the
/// trash: whatever the next or previous wallpaper is, sequential or random,
/// it belongs to a member outside the trash.
pub proof fn steps_skip_the_trash(rows: Seq<CollectionEntry>, current: Option<i32>, pick: u64)
    ensures
        sequential_next(rows, current) matches Some(w) ==> shown_member(rows, w),
        sequential_prev(rows, current) matches Some(w) ==> shown_member(rows, w),
        random_next(rows, current, pick) matches Some(w) ==> shown_member(rows, w),
{
    lemma_seek_index(rows, Seek::First);
    lemma_seek_index(rows, Seek::Last);
    lemma_random_candidates_visible(rows, current);
    match current {
        Some(c) => match position_of(rows, c) {
            Some(p) => {
                lemma_position_of(rows, c);
                lemma_seek_index(rows, Seek::After(rows[p].sort_order));
                lemma_seek_index(rows, Seek::Before(rows[p].sort_order));
            },
            None => {},
        },
        None => {},
    }
    let cands = random_candidates(rows, current);
    if cands.len() > 0 {
        let j = (pick as int) % (cands.len() as int);
        assert(shown_member(rows, cands[j]));
    }
}

/// Whether members hold distinct wallpapers at distinct positions.
pub open spec fn well_ordered(rows: Seq<CollectionEntry>) -> bool {
    forall|i: int, j: int|
        0 <= i < rows.len() && 0 <= j < rows.len() && i != j ==> #[trigger] rows[i].sort_order
            != #[trigger] rows[j].sort_order && rows[i].wallpaper_id != rows[j].wallpaper_id
}

/// In a collection whose members are distinct wallpapers at distinct
/// positions, stepping forward from a member outside the trash and then back
/// returns to the wallpaper one started from.
pub proof fn sequential_prev_undoes_next(rows: Seq<CollectionEntry>, c: i32)
    requires
        well_ordered(rows),
        position_of(rows, c) is Some,
        visible(rows[position_of(rows, c)->0]),
    ensures
        (sequential_next(rows, Some(c)) matches Some(n) && sequential_prev(rows, Some(n)) == Some(c)),
{
    lemma_position_of(rows, c);
    let p = position_of(rows, c)->0;
    let o = rows[p].sort_order;
    lemma_seek_index(rows, Seek::After(o));
    lemma_seek_index(rows, Seek::First);
    lemma_seek_index(rows, Seek::Last);
    match seek_index(rows, Seek::After(o)) {
        Some(k) => {
            let n = rows[k].wallpaper_id;
            lemma_position_of(rows, n);
            let q = position_of(rows, n)->0;
            assert(q == k);
            let on = rows[k].sort_order;
            lemma_seek_index(rows, Seek::Before(on));
            // `c` sits below `n`, and nothing lies strictly between them
            assert(admissible(rows[p], Seek::Before(on)));
            let b = seek_index(rows, Seek::Before(on))->0;
            assert(!better(rows[p], rows[b], Seek::Before(on)));
            if b != p {
                assert(rows[b].sort_order != rows[p].sort_order);
                assert(rows[b].sort_order < on);
                assert(rows[b].sort_order < o);
                assert(false) by {
                    assert(admissible(rows[b], Seek::After(o)) || rows[b].sort_order <= o);
                }
            }
        },
        None => {
            // `c` is the last member; its successor is the first one
            let f = seek_index(rows, Seek::First)->0;
            assert(admissible(rows[p], Seek::First));
            let n = rows[f].wallpaper_id;
            lemma_position_of(rows, n);
            let q = position_of(rows, n)->0;
            assert(q == f);
            let on = rows[f].sort_order;
            lemma_seek_index(rows, Seek::Before(on));
            if seek_index(rows, Seek::Before(on)) is Some {
                let b = seek_index(rows, Seek::Before(on))->0;
                assert(rows[b].sort_order < on);
                assert(!better(rows[b], rows[f], Seek::First));
                assert(false);
            }
            let l = seek_index(rows, Seek::Last)->0;
            assert(!better(rows[p], rows[l], Seek::Last));
            if l != p {
                assert(rows[l].sort_order > o);
                assert(admissible(rows[l], Seek::After(o)));
                assert(false);
            }
        },
    }
}

/// The members a batch adds: each requested wallpaper that is not yet in the
/// collection is appended after the current last position, in request order
/// (the batch itself is not checked for repetitions).
pub open spec fn add_plan_spec(existing: Seq<CollectionEntry>, ids: Seq<i32>, start: int) -> Seq<
    CollectionEntry,
>
    decreases ids.len(),
{
    if ids.len() == 0 {
        Seq::empty()
    } else {
        let p = add_plan_spec(existing, ids.drop_last(), start);
        let w = ids.last();
        if position_of(existing, w) is Some {
            p
        } else {
            p.push(CollectionEntry { wallpaper_id: w, sort_order: (start + p.len()) as i32 })
        }
    }
}

/// The highest position among members, -1 when there are none.
pub open spec fn max_order(rows: Seq<CollectionEntry>) -> int
    decreases rows.len(),
{
    if rows.len() == 0 {
        -1
    } else {
        let m = max_order(rows.drop_last());
        if rows.last().sort_order > m {
            rows.last().sort_order as int
        } else {
            m
        }
    }
}

proof fn lemma_max_order_lower(rows: Seq<CollectionEntry>)
    ensures
        max_order(rows) >= -1,
    decreases rows.len(),
{
    if rows.len() > 0 {
        lemma_max_order_lower(rows.drop_last());
    }
}

proof fn lemma_add_plan_len(existing: Seq<CollectionEntry>, ids: Seq<i32>, start: int)
    ensures
        add_plan_spec(existing, ids, start).len() <= ids.len(),
    decreases ids.len(),
{
    if ids.len() > 0 {
        lemma_add_plan_len(existing, ids.drop_last(), start);
    }
}

/// The highest position among `rows` (-1 when empty).
pub fn max_sort_order(rows: &Vec<CollectionEntry>) -> (r: i32)
    ensures
        r == max_order(rows@),
{
    let ghost s = rows@;
    let mut m: i32 = -1;
    let mut i: usize = 0;
    while i < rows.len()
        invariant
            s == rows@,
            i <= s.len(),
            m == max_order(s.subrange(0, i as int)),
        decreases s.len() - i,
    {
        assert(s.subrange(0, i + 1).drop_last() =~= s.subrange(0, i as int));
        assert(s.subrange(0, i + 1).last() == s[i as int]);
        if rows[i].sort_order > m {
            m = rows[i].sort_order;
        }
        i = i + 1;
    }
    assert(s.subrange(0, s.len() as int) =~= s);
    m
}

/// The members to insert when `ids` are added to a collection with members
/// `existing`: the new ones, appended in order after the last position.
pub fn plan_add_wallpapers(existing: &Vec<CollectionEntry>, ids: &Vec<i32>) -> (r: Vec<CollectionEntry>)
    requires
        max_order(existing@) + ids@.len() <= i32::MAX,
    ensures
        r@ == add_plan_spec(existing@, ids@, max_order(existing@) + 1),
{
    let start = max_sort_order(existing);
    let ghost s = ids@;
    let ghost st = start + 1;
    let mut out: Vec<CollectionEntry> = Vec::new();
    let mut i: usize = 0;
    while i < ids.len()
        invariant
            s == ids@,
            i <= s.len(),
            start == max_order(existing@),
            st == start + 1,
            max_order(existing@) + s.len() <= i32::MAX,
            out@ == add_plan_spec(existing@, s.subrange(0, i as int), st),
            out@.len() <= i,
        decreases s.len() - i,
    {
        assert(s.subrange(0, i + 1).drop_last() =~= s.subrange(0, i as int));
        assert(s.subrange(0, i + 1).last() == s[i as int]);
        let w = ids[i];
        proof {
            lemma_position_of(existing@, w);
        }
        match find_position(existing, w) {
            Some(_) => {},
            None => {
                proof {
                    lemma_max_order_lower(existing@);
                }
                let len = out.len();
                assert(len <= i32::MAX);
                assert(start + 1 + len <= i32::MAX);
                let order: i32 = start + 1 + (len as i32);
                let ghost before = out@;
                out.push(CollectionEntry { wallpaper_id: w, sort_order: order });
                assert(out@ == before.push(
                    CollectionEntry { wallpaper_id: w, sort_order: (st + before.len()) as i32 },
                ));
            },
        }
        i = i + 1;
    }
    assert(s.subrange(0, s.len() as int) =~= s);
    out
}

/// The members after a reorder: each wallpaper of `ids` at its index.
pub open spec fn reorder_spec(ids: Seq<i32>) -> Seq<CollectionEntry> {
    Seq::new(ids.len(), |k: int| CollectionEntry { wallpaper_id: ids[k], sort_order: k as i32 })
}

/// The positions a reorder writes: each wallpaper gets its index in `ids`.
pub fn plan_reorder(ids: &Vec<i32>) -> (r: Vec<CollectionEntry>)
    requires
        ids.len() <= i32::MAX,
    ensures
        r@ == reorder_spec(ids@),
{
    let mut out: Vec<CollectionEntry> = Vec::new();
    let mut i: usize = 0;
    while i < ids.len()
        invariant
            i <= ids.len(),
            ids.len() <= i32::MAX,
            out@.len() == i,
            forall|k: int|
                0 <= k < i ==> #[trigger] out@[k] == (CollectionEntry {
                    wallpaper_id: ids@[k],
                    sort_order: k as i32,
                }),
        decreases ids.len() - i,
    {
        out.push(CollectionEntry { wallpaper_id: ids[i], sort_order: i as i32 });
        i = i + 1;
    }
    assert(out@ =~= reorder_spec(ids@));
    out
}

/// After a reorder the carousel plays the wallpapers in the new order: the
/// one after `ids[i]` is `ids[i + 1]`, wrapping from the last to the first,
/// and the one before is `ids[i - 1]`, wrapping from the first to the last.
pub proof fn reorder_sets_play_order(ids: Seq<i32>, i: int)
    requires
        ids.no_duplicates(),
        ids.len() <= i32::MAX,
        0 <= i < ids.len(),
    ensures
        sequential_next(reorder_spec(ids), Some(ids[i])) == Some(
            if i + 1 < ids.len() {
                ids[i + 1]
            } else {
                ids[0]
            },
        ),
        sequential_prev(reorder_spec(ids), Some(ids[i])) == Some(
            if i > 0 {
                ids[i - 1]
            } else {
                ids[ids.len() - 1]
            },
        ),
{
    let rows = reorder_spec(ids);
    let n = ids.len() as int;
    let w = ids[i];
    lemma_position_of(rows, w);
    assert(rows[i].wallpaper_id == w);
    let p = position_of(rows, w)->0;
    assert(p == i) by {
        if p != i {
            assert(rows[p].wallpaper_id == ids[p]);
        }
    }
    assert(rows[p].sort_order == i);
    lemma_seek_index(rows, Seek::After(i as i32));
    lemma_seek_index(rows, Seek::Before(i as i32));
    lemma_seek_index(rows, Seek::First);
    lemma_seek_index(rows, Seek::Last);
    assert forall|k: int| 0 <= k < n implies #[trigger] rows[k].sort_order == k by {}
    if i + 1 < n {
        assert(admissible(rows[i + 1], Seek::After(i as i32)));
        let b = seek_index(rows, Seek::After(i as i32))->0;
        assert(!better(rows[i + 1], rows[b], Seek::After(i as i32)));
    } else {
        assert forall|j: int| 0 <= j < n implies !admissible(#[trigger] rows[j], Seek::After(i as i32)) by {}
        assert(admissible(rows[0], Seek::First));
        let b = seek_index(rows, Seek::First)->0;
        assert(!better(rows[0], rows[b], Seek::First));
    }
    if i > 0 {
        assert(admissible(rows[i - 1], Seek::Before(i as i32)));
        let b = seek_index(rows, Seek::Before(i as i32))->0;
        assert(!better(rows[i - 1], rows[b], Seek::Before(i as i32)));
    } else {
        assert forall|j: int| 0 <= j < n implies !admissible(#[trigger] rows[j], Seek::Before(i as i32)) by {}
        assert(admissible(rows[n - 1], Seek::Last));
        let b = seek_index(rows, Seek::Last)->0;
        assert(!better(rows[n - 1], rows[b], Seek::Last));
    }
}

/// Whether a member is visible (not parked in the trash).
pub open spec fn visible(e: CollectionEntry) -> bool {
    e.sort_order != TRASH_SORT_ORDER
}

/// Whether visible member `j` comes before visible member `i` in the order
/// of positions, ties broken by their order in `rows`.
pub open spec fn precedes(rows: Seq<CollectionEntry>, j: int, i: int) -> bool {
    visible(rows[j]) && (rows[j].sort_order < rows[i].sort_order || (rows[j].sort_order
        == rows[i].sort_order && j < i))
}

/// The number of visible members among the first `k` that come before `i`.
pub open spec fn rank_upto(rows: Seq<CollectionEntry>, i: int, k: int) -> nat
    decreases k,
{
    if k <= 0 {
        0
    } else {
        rank_upto(rows, i, k - 1) + if precedes(rows, k - 1, i) {
            1nat
        } else {
            0nat
        }
    }
}

/// The new dense position of visible member `i`.
pub open spec fn rank(rows: Seq<CollectionEntry>, i: int) -> nat {
    rank_upto(rows, i, rows.len() as int)
}

/// The number of visible members among the first `k`.
pub open spec fn visible_upto(rows: Seq<CollectionEntry>, k: int) -> nat
    decreases k,
{
    if k <= 0 {
        0
    } else {
        visible_upto(rows, k - 1) + if visible(rows[k - 1]) {
            1nat
        } else {
            0nat
        }
    }
}

/// The positions after a resequencing: visible members take their rank,
/// parked members keep the trash position.
pub open spec fn resequenced(rows: Seq<CollectionEntry>) -> Seq<int> {
    Seq::new(
        rows.len(),
        |i: int|
            if visible(rows[i]) {
                rank(rows, i) as int
            } else {
                rows[i].sort_order as int
            },
    )
}

proof fn lemma_rank_upto_bound(rows: Seq<CollectionEntry>, i: int, k: int)
    requires
        0 <= k <= rows.len(),
    ensures
        rank_upto(rows, i, k) <= visible_upto(rows, k),
        visible_upto(rows, k) <= k,
    decreases k,
{
    if k > 0 {
        lemma_rank_upto_bound(rows, i, k - 1);
    }
}

/// If `j` precedes `i`, everything counted for `j` is counted for `i`, and
/// `j` itself too.
proof fn lemma_rank_monotone(rows: Seq<CollectionEntry>, i: int, j: int, k: int)
    requires
        0 <= i < rows.len(),
        0 <= j < rows.len(),
        0 <= k <= rows.len(),
        visible(rows[i]),
        precedes(rows, j, i),
    ensures
        rank_upto(rows, j, k) + (if j < k {
            1nat
        } else {
            0nat
        }) <= rank_upto(rows, i, k),
    decreases k,
{
    if k > 0 {
        lemma_rank_monotone(rows, i, j, k - 1);
        let m = k - 1;
        if precedes(rows, m, j) {
            // order is transitive
            assert(precedes(rows, m, i));
        }
        if m == j {
            assert(precedes(rows, j, i));
            assert(!precedes(rows, j, j));
        }
    }
}

/// Resequencing gives the visible members the positions 0, 1, ... with no
/// gap and no repetition, in the order of their old positions.
pub proof fn resequence_is_dense(rows: Seq<CollectionEntry>, i: int, j: int)
    requires
        0 <= i < rows.len(),
        0 <= j < rows.len(),
        i != j,
        visible(rows[i]),
        visible(rows[j]),
    ensures
        resequenced(rows)[i] < visible_upto(rows, rows.len() as int),
        resequenced(rows)[i] != resequenced(rows)[j],
        rows[i].sort_order < rows[j].sort_order ==> resequenced(rows)[i] < resequenced(rows)[j],
{
    let n = rows.len() as int;
    lemma_rank_upto_bound(rows, i, n);
    if precedes(rows, j, i) {
        lemma_rank_monotone(rows, i, j, n);
    } else {
        assert(precedes(rows, i, j));
        lemma_rank_monotone(rows, j, i, n);
    }
    // `i` does not precede itself, so its rank is below the visible count
    lemma_rank_strict(rows, i, n);
}

proof fn lemma_rank_strict(rows: Seq<CollectionEntry>, i: int, k: int)
    requires
        0 <= i < rows.len(),
        0 <= k <= rows.len(),
        visible(rows[i]),
    ensures
        rank_upto(rows, i, k) + (if i < k {
            1nat
        } else {
            0nat
        }) <= visible_upto(rows, k),
    decreases k,
{
    if k > 0 {
        lemma_rank_strict(rows, i, k - 1);
        if k - 1 == i {
            assert(!precedes(rows, i, i));
        }
    }
}

/// Counts the visible members among `rows[0..k]` that precede member `i`.
fn rank_of(rows: &Vec<CollectionEntry>, i: usize) -> (r: usize)
    requires
        i < rows.len(),
    ensures
        r == rank(rows@, i as int),
{
    let ghost s = rows@;
    let mut count: usize = 0;
    let mut k: usize = 0;
    while k < rows.len()
        invariant
            s == rows@,
            i < s.len(),
            k <= s.len(),
            count == rank_upto(s, i as int, k as int),
            count <= k,
        decreases s.len() - k,
    {
        let e = rows[k];
        let me = rows[i];
        if e.sort_order != TRASH_SORT_ORDER && (e.sort_order < me.sort_order || (e.sort_order
            == me.sort_order && k < i)) {
            count = count + 1;
        }
        k = k + 1;
    }
    count
}

/// The position changes among the first `k` members: each visible member
/// whose rank differs from its position gets its rank.
pub open spec fn resequence_updates(rows: Seq<CollectionEntry>, k: int) -> Seq<CollectionEntry>
    decreases k,
{
    if k <= 0 {
        Seq::empty()
    } else {
        let p = resequence_updates(rows, k - 1);
        let e = rows[k - 1];
        if visible(e) && rank(rows, k - 1) != e.sort_order {
            p.push(CollectionEntry { wallpaper_id: e.wallpaper_id, sort_order: rank(rows, k - 1) as i32 })
        } else {
            p
        }
    }
}

/// The position changes that make the visible members of a collection dense
/// again (see [`resequence_is_dense`]); members in the trash are left alone.
pub fn plan_resequence(rows: &Vec<CollectionEntry>) -> (r: Vec<CollectionEntry>)
    requires
        rows.len() <= i32::MAX,
    ensures
        r@ == resequence_updates(rows@, rows@.len() as int),
{
    let ghost s = rows@;
    let mut out: Vec<CollectionEntry> = Vec::new();
    let mut i: usize = 0;
    while i < rows.len()
        invariant
            s == rows@,
            s.len() <= i32::MAX,
            i <= s.len(),
            out@ == resequence_updates(s, i as int),
        decreases s.len() - i,
    {
        let e = rows[i];
        if e.sort_order != TRASH_SORT_ORDER {
            let r = rank_of(rows, i);
            proof {
                lemma_rank_upto_bound(s, i as int, s.len() as int);
            }
            if r as i64 != e.sort_order as i64 {
                out.push(CollectionEntry { wallpaper_id: e.wallpaper_id, sort_order: r as i32 });
            }
        }
        i = i + 1;
    }
    out
}

/// The position a restored member is appended at: one past the highest
/// visible position (0 when there is none).
pub open spec fn restore_position_spec(rows: Seq<CollectionEntry>) -> int
    decreases rows.len(),
{
    if rows.len() == 0 {
        0
    } else {
        let m = restore_position_spec(rows.drop_last());
        let e = rows.last();
        if visible(e) && e.sort_order + 1 > m {
            e.sort_order + 1
        } else {
            m
        }
    }
}

/// A restored member is placed after every visible member, at position 0 or
/// later.
pub proof fn restored_member_goes_last(rows: Seq<CollectionEntry>)
    ensures
        restore_position_spec(rows) >= 0,
        forall|k: int|
            0 <= k < rows.len() && visible(#[trigger] rows[k]) ==> rows[k].sort_order
                < restore_position_spec(rows),
    decreases rows.len(),
{
    if rows.len() > 0 {
        let p = rows.drop_last();
        restored_member_goes_last(p);
        assert forall|k: int|
            0 <= k < rows.len() && visible(#[trigger] rows[k]) implies rows[k].sort_order
            < restore_position_spec(rows) by {
            if k < p.len() {
                assert(rows[k] == p[k]);
            }
        }
    }
}

/// The position a wallpaper coming back from the trash takes in a collection
/// whose members are `rows`: after every visible member.
pub fn restore_position(rows: &Vec<CollectionEntry>) -> (r: i32)
    requires
        forall|i: int| 0 <= i < rows@.len() ==> #[trigger] rows@[i].sort_order < i32::MAX,
    ensures
        r == restore_position_spec(rows@),
{
    let ghost s = rows@;
    let mut m: i32 = 0;
    let mut i: usize = 0;
    while i < rows.len()
        invariant
            s == rows@,
            i <= s.len(),
            forall|k: int| 0 <= k < s.len() ==> #[trigger] s[k].sort_order < i32::MAX,
            m == restore_position_spec(s.subrange(0, i as int)),
        decreases s.len() - i,
    {
        assert(s.subrange(0, i + 1).drop_last() =~= s.subrange(0, i as int));
        assert(s.subrange(0, i + 1).last() == s[i as int]);
        let e = rows[i];
        if e.sort_order != TRASH_SORT_ORDER && e.sort_order + 1 > m {
            m = e.sort_order + 1;
        }
        i = i + 1;
    }
    assert(s.subrange(0, s.len() as int) =~= s);
    m
}

/// The index of the first occurrence of `x` in `s`.
pub open spec fn first_index_of(s: Seq<i32>, x: i32) -> Option<int>
    decreases s.len(),
{
    if s.len() == 0 {
        None
    } else {
        match first_index_of(s.drop_last(), x) {
            Some(i) => Some(i),
            None => if s.last() == x {
                Some(s.len() - 1)
            } else {
                None
            },
        }
    }
}

/// For each member id in order, the index of its record among `record_ids`;
/// ids without a record are left out.
pub open spec fn order_by_ids_spec(ids: Seq<i32>, record_ids: Seq<i32>) -> Seq<usize>
    decreases ids.len(),
{
    if ids.len() == 0 {
        Seq::empty()
    } else {
        let p = order_by_ids_spec(ids.drop_last(), record_ids);
        match first_index_of(record_ids, ids.last()) {
            Some(k) => p.push(k as usize),
            None => p,
        }
    }
}

fn find_first(s: &Vec<i32>, x: i32) -> (r: Option<usize>)
    ensures
        match (r, first_index_of(s@, x)) {
            (Some(a), Some(b)) => a == b,
            (None, None) => true,
            _ => false,
        },
{
    let ghost q = s@;
    let mut i: usize = 0;
    while i < s.len()
        invariant
            q == s@,
            i <= q.len(),
            first_index_of(q.subrange(0, i as int), x) is None,
        decreases q.len() - i,
    {
        assert(q.subrange(0, i + 1).drop_last() =~= q.subrange(0, i as int));
        assert(q.subrange(0, i + 1).last() == q[i as int]);
        if s[i] == x {
            proof {
                lemma_first_index_prefix(q, i + 1, x);
            }
            return Some(i);
        }
        i = i + 1;
    }
    assert(q.subrange(0, q.len() as int) =~= q);
    None
}

proof fn lemma_first_index_prefix(s: Seq<i32>, k: int, x: i32)
    requires
        0 <= k <= s.len(),
        first_index_of(s.subrange(0, k), x) is Some,
    ensures
        first_index_of(s, x) == first_index_of(s.subrange(0, k), x),
    decreases s.len() - k,
{
    if k < s.len() {
        assert(s.subrange(0, k + 1).drop_last() =~= s.subrange(0, k));
        lemma_first_index_prefix(s, k + 1, x);
    } else {
        assert(s.subrange(0, k) =~= s);
    }
}

/// Puts fetched records into member order: for each member id the index of
/// its record.
pub fn order_by_ids(ids: &Vec<i32>, record_ids: &Vec<i32>) -> (r: Vec<usize>)
    ensures
        r@ == order_by_ids_spec(ids@, record_ids@),
{
    let ghost s = ids@;
    let mut out: Vec<usize> = Vec::new();
    let mut i: usize = 0;
    while i < ids.len()
        invariant
            s == ids@,
            i <= s.len(),
            out@ == order_by_ids_spec(s.subrange(0, i as int), record_ids@),
        decreases s.len() - i,
    {
        assert(s.subrange(0, i + 1).drop_last() =~= s.subrange(0, i as int));
        assert(s.subrange(0, i + 1).last() == s[i as int]);
        match find_first(record_ids, ids[i]) {
            Some(k) => {
                out.push(k);
            },
            None => {},
        }
        i = i + 1;
    }
    assert(s.subrange(0, s.len() as int) =~= s);
    out
}

/// Which ids a search looks at: `Above(c)` those greater than `c`,
/// `Below(c)` those less than `c`, `Any` all of them.
#[derive(Debug, Clone, Copy, PartialEq, Eq, Structural)]
pub enum IdBound {
    Any,
    Above(i32),
    Below(i32),
}

/// Whether `x` qualifies under `bound`.
pub open spec fn within_bound(x: i32, bound: IdBound) -> bool {
    match bound {
        IdBound::Any => true,
        IdBound::Above(c) => x > c,
        IdBound::Below(c) => x < c,
    }
}

/// The least id of `m` that qualifies under `bound`.
pub open spec fn least_id(m: Seq<i32>, bound: IdBound) -> Option<i32>
    decreases m.len(),
{
    if m.len() == 0 {
        None
    } else {
        let p = least_id(m.drop_last(), bound);
        let x = m.last();
        if !within_bound(x, bound) {
            p
        } else {
            match p {
                Some(y) => if x < y {
                    Some(x)
                } else {
                    p
                },
                None => Some(x),
            }
        }
    }
}

/// The greatest id of `m` that qualifies under `bound`.
pub open spec fn greatest_id(m: Seq<i32>, bound: IdBound) -> Option<i32>
    decreases m.len(),
{
    if m.len() == 0 {
        None
    } else {
        let p = greatest_id(m.drop_last(), bound);
        let x = m.last();
        if !within_bound(x, bound) {
            p
        } else {
            match p {
                Some(y) => if x > y {
                    Some(x)
                } else {
                    p
                },
                None => Some(x),
            }
        }
    }
}

proof fn lemma_least_id(m: Seq<i32>, bound: IdBound)
    ensures
        least_id(m, bound) matches Some(x) ==> m.contains(x) && within_bound(x, bound) && forall|
            k: int,
        | 0 <= k < m.len() && within_bound(#[trigger] m[k], bound) ==> x <= m[k],
        (least_id(m, bound) is None) == (forall|k: int|
            0 <= k < m.len() ==> !within_bound(#[trigger] m[k], bound)),
    decreases m.len(),
{
    if m.len() > 0 {
        let p = m.drop_last();
        lemma_least_id(p, bound);
        let n = m.len() - 1;
        let x = m[n];
        assert forall|k: int| 0 <= k < n implies #[trigger] p[k] == m[k] by {}
        match least_id(p, bound) {
            Some(y) => {
                let j = choose|j: int| 0 <= j < p.len() && p[j] == y;
                assert(m[j] == y);
                if within_bound(x, bound) && x < y {
                    assert(m.contains(x));
                    assert forall|k: int| 0 <= k < m.len() && within_bound(#[trigger] m[k], bound) implies x <= m[k] by {
                        if k < n {
                            assert(p[k] == m[k]);
                        }
                    }
                } else {
                    assert(m.contains(y));
                    assert forall|k: int| 0 <= k < m.len() && within_bound(#[trigger] m[k], bound) implies y <= m[k] by {
                        if k < n {
                            assert(p[k] == m[k]);
                        }
                    }
                }
            },
            None => {
                if within_bound(x, bound) {
                    assert(m.contains(x));
                    assert forall|k: int| 0 <= k < m.len() && within_bound(#[trigger] m[k], bound) implies x <= m[k] by {
                        if k < n {
                            assert(p[k] == m[k]);
                        }
                    }
                } else {
                    assert forall|k: int| 0 <= k < m.len() implies !within_bound(#[trigger] m[k], bound) by {
                        if k < n {
                            assert(p[k] == m[k]);
                        }
                    }
                }
            },
        }
    }
}

proof fn lemma_greatest_id(m: Seq<i32>, bound: IdBound)
    ensures
        greatest_id(m, bound) matches Some(x) ==> m.contains(x) && within_bound(x, bound) && forall|
            k: int,
        | 0 <= k < m.len() && within_bound(#[trigger] m[k], bound) ==> x >= m[k],
        (greatest_id(m, bound) is None) == (forall|k: int|
            0 <= k < m.len() ==> !within_bound(#[trigger] m[k], bound)),
    decreases m.len(),
{
    if m.len() > 0 {
        let p = m.drop_last();
        lemma_greatest_id(p, bound);
        let n = m.len() - 1;
        let x = m[n];
        assert forall|k: int| 0 <= k < n implies #[trigger] p[k] == m[k] by {}
        match greatest_id(p, bound) {
            Some(y) => {
                let j = choose|j: int| 0 <= j < p.len() && p[j] == y;
                assert(m[j] == y);
                if within_bound(x, bound) && x > y {
                    assert(m.contains(x));
                    assert forall|k: int| 0 <= k < m.len() && within_bound(#[trigger] m[k], bound) implies x >= m[k] by {
                        if k < n {
                            assert(p[k] == m[k]);
                        }
                    }
                } else {
                    assert(m.contains(y));
                    assert forall|k: int| 0 <= k < m.len() && within_bound(#[trigger] m[k], bound) implies y >= m[k] by {
                        if k < n {
                            assert(p[k] == m[k]);
                        }
                    }
                }
            },
            None => {
                if within_bound(x, bound) {
                    assert(m.contains(x));
                    assert forall|k: int| 0 <= k < m.len() && within_bound(#[trigger] m[k], bound) implies x >= m[k] by {
                        if k < n {
                            assert(p[k] == m[k]);
                        }
                    }
                } else {
                    assert forall|k: int| 0 <= k < m.len() implies !within_bound(#[trigger] m[k], bound) by {
                        if k < n {
                            assert(p[k] == m[k]);
                        }
                    }
                }
            },
        }
    }
}

/// In a smart collection the next wallpaper is the least matching id above
/// the current one, and the least matching id when none is above it; the
/// previous one is the greatest matching id below, else the greatest. There
/// is one exactly when something matches.
pub proof fn matched_steps_are_by_id(m: Seq<i32>, c: i32)
    ensures
        (exists|k: int| 0 <= k < m.len() && m[k] > c) ==> (matched_next_spec(m, Some(c)) matches Some(
            x,
        ) && m.contains(x) && x > c && forall|k: int| 0 <= k < m.len() && #[trigger] m[k] > c ==> x <= m[k]),
        !(exists|k: int| 0 <= k < m.len() && m[k] > c) ==> matched_next_spec(m, Some(c)) == least_id(
            m,
            IdBound::Any,
        ),
        (exists|k: int| 0 <= k < m.len() && m[k] < c) ==> (matched_prev_spec(m, Some(c)) matches Some(
            x,
        ) && m.contains(x) && x < c && forall|k: int| 0 <= k < m.len() && #[trigger] m[k] < c ==> x >= m[k]),
        !(exists|k: int| 0 <= k < m.len() && m[k] < c) ==> matched_prev_spec(m, Some(c)) == greatest_id(
            m,
            IdBound::Any,
        ),
        (matched_next_spec(m, Some(c)) is Some) == (m.len() > 0),
        (matched_prev_spec(m, Some(c)) is Some) == (m.len() > 0),
{
    lemma_least_id(m, IdBound::Above(c));
    lemma_least_id(m, IdBound::Any);
    lemma_greatest_id(m, IdBound::Below(c));
    lemma_greatest_id(m, IdBound::Any);
    if m.len() > 0 {
        assert(within_bound(m[0], IdBound::Any));
    }
    if exists|k: int| 0 <= k < m.len() && m[k] > c {
        let k = choose|k: int| 0 <= k < m.len() && m[k] > c;
        assert(within_bound(m[k], IdBound::Above(c)));
    }
    if exists|k: int| 0 <= k < m.len() && m[k] < c {
        let k = choose|k: int| 0 <= k < m.len() && m[k] < c;
        assert(within_bound(m[k], IdBound::Below(c)));
    }
}

fn least_id_exec(m: &Vec<i32>, bound: IdBound) -> (r: Option<i32>)
    ensures
        r == least_id(m@, bound),
{
    let ghost s = m@;
    let mut best: Option<i32> = None;
    let mut i: usize = 0;
    while i < m.len()
        invariant
            s == m@,
            i <= s.len(),
            best == least_id(s.subrange(0, i as int), bound),
        decreases s.len() - i,
    {
        assert(s.subrange(0, i + 1).drop_last() =~= s.subrange(0, i as int));
        assert(s.subrange(0, i + 1).last() == s[i as int]);
        let x = m[i];
        let ok = match bound {
            IdBound::Any => true,
            IdBound::Above(c) => x > c,
            IdBound::Below(c) => x < c,
        };
        if ok {
            best = match best {
                Some(y) => if x < y {
                    Some(x)
                } else {
                    Some(y)
                },
                None => Some(x),
            };
        }
        i = i + 1;
    }
    assert(s.subrange(0, s.len() as int) =~= s);
    best
}

fn greatest_id_exec(m: &Vec<i32>, bound: IdBound) -> (r: Option<i32>)
    ensures
        r == greatest_id(m@, bound),
{
    let ghost s = m@;
    let mut best: Option<i32> = None;
    let mut i: usize = 0;
    while i < m.len()
        invariant
            s == m@,
            i <= s.len(),
            best == greatest_id(s.subrange(0, i as int), bound),
        decreases s.len() - i,
    {
        assert(s.subrange(0, i + 1).drop_last() =~= s.subrange(0, i as int));
        assert(s.subrange(0, i + 1).last() == s[i as int]);
        let x = m[i];
        let ok = match bound {
            IdBound::Any => true,
            IdBound::Above(c) => x > c,
            IdBound::Below(c) => x < c,
        };
        if ok {
            best = match best {
                Some(y) => if x > y {
                    Some(x)
                } else {
                    Some(y)
                },
                None => Some(x),
            };
        }
        i = i + 1;
    }
    assert(s.subrange(0, s.len() as int) =~= s);
    best
}

/// The ids of `m` other than `current`, in order: what a random pick of a
/// smart collection may land on.
pub open spec fn other_matches(m: Seq<i32>, current: Option<i32>) -> Seq<i32>
    decreases m.len(),
{
    if m.len() == 0 {
        Seq::empty()
    } else {
        let p = other_matches(m.drop_last(), current);
        if current == Some(m.last()) {
            p
        } else {
            p.push(m.last())
        }
    }
}

/// A random wallpaper of a smart collection: the one of the other matches
/// that `pick` selects, or the least matching id when there is no other.
pub open spec fn random_match(m: Seq<i32>, current: Option<i32>, pick: u64) -> Option<i32> {
    let c = other_matches(m, current);
    if c.len() > 0 {
        Some(c[(pick as int) % (c.len() as int)])
    } else {
        least_id(m, IdBound::Any)
    }
}

/// The sequential successor in a smart collection: the least matching id
/// greater than `current`, else (no such id, or no current) the least
/// matching id.
pub open spec fn matched_next_spec(m: Seq<i32>, current: Option<i32>) -> Option<i32> {
    match current {
        Some(c) => match least_id(m, IdBound::Above(c)) {
            Some(x) => Some(x),
            None => least_id(m, IdBound::Any),
        },
        None => least_id(m, IdBound::Any),
    }
}

/// The sequential predecessor in a smart collection: the greatest matching
/// id less than `current`, else the greatest matching id.
pub open spec fn matched_prev_spec(m: Seq<i32>, current: Option<i32>) -> Option<i32> {
    match current {
        Some(c) => match greatest_id(m, IdBound::Below(c)) {
            Some(x) => Some(x),
            None => greatest_id(m, IdBound::Any),
        },
        None => greatest_id(m, IdBound::Any),
    }
}

fn random_match_exec(matched: &Vec<i32>, current: Option<i32>, pick: u64) -> (r: Option<i32>)
    ensures
        r == random_match(matched@, current, pick),
{
    let ghost s = matched@;
    let mut cands: Vec<i32> = Vec::new();
    let mut i: usize = 0;
    while i < matched.len()
        invariant
            s == matched@,
            i <= s.len(),
            cands@ == other_matches(s.subrange(0, i as int), current),
        decreases s.len() - i,
    {
        assert(s.subrange(0, i + 1).drop_last() =~= s.subrange(0, i as int));
        assert(s.subrange(0, i + 1).last() == s[i as int]);
        if current != Some(matched[i]) {
            cands.push(matched[i]);
        }
        i = i + 1;
    }
    assert(s.subrange(0, s.len() as int) =~= s);
    if cands.len() > 0 {
        let k = (pick % (cands.len() as u64)) as usize;
        Some(cands[k])
    } else {
        least_id_exec(matched, IdBound::Any)
    }
}

/// The next wallpaper of a smart collection whose matching wallpaper ids are
/// `matched`: in `random` mode a random other match (selected by `pick`),
/// else the least match above `current`, wrapping to the least match.
pub fn next_matched_id(matched: &Vec<i32>, current: Option<i32>, play_mode: &str, pick: u64) -> (r:
    Option<i32>)
    ensures
        r == (if play_mode@ == "random"@ {
            random_match(matched@, current, pick)
        } else {
            matched_next_spec(matched@, current)
        }),
{
    if is_random_mode(play_mode) {
        return random_match_exec(matched, current, pick);
    }
    match current {
        Some(c) => match least_id_exec(matched, IdBound::Above(c)) {
            Some(x) => Some(x),
            None => least_id_exec(matched, IdBound::Any),
        },
        None => least_id_exec(matched, IdBound::Any),
    }
}

/// The previous wallpaper of a smart collection: in `random` mode the same
/// as the next one, else the greatest match below `current`, wrapping to the
/// greatest match.
pub fn prev_matched_id(matched: &Vec<i32>, current: Option<i32>, play_mode: &str, pick: u64) -> (r:
    Option<i32>)
    ensures
        r == (if play_mode@ == "random"@ {
            random_match(matched@, current, pick)
        } else {
            matched_prev_spec(matched@, current)
        }),
{
    if is_random_mode(play_mode) {
        return random_match_exec(matched, current, pick);
    }
    match current {
        Some(c) => match greatest_id_exec(matched, IdBound::Below(c)) {
            Some(x) => Some(x),
            None => greatest_id_exec(matched, IdBound::Any),
        },
        None => greatest_id_exec(matched, IdBound::Any),
    }
}

/// What toggling a wallpaper's place in the built-in favorites does.
#[derive(Debug, Clone, Copy, PartialEq, Eq, Structural)]
pub enum FavoriteChange {
    /// Add it (it was not a favorite).
    Add,
    /// Remove it (it was one).
    Remove,
}

/// The change a favorite toggle makes, given whether the wallpaper is in the
/// favorites already.
pub fn favorite_change(already: bool) -> (r: FavoriteChange)
    ensures
        r == (if already {
            FavoriteChange::Remove
        } else {
            FavoriteChange::Add
        }),
{
    if already {
        FavoriteChange::Remove
    } else {
        FavoriteChange::Add
    }
}

impl FavoriteChange {
    /// Whether the wallpaper is a favorite once the change is made.
    pub fn favorited(&self) -> (r: bool)
        ensures
            r == (*self == FavoriteChange::Add),
    {
        match self {
            FavoriteChange::Add => true,
            FavoriteChange::Remove => false,
        }
    }
}

} // verus!
