//! The registry of background timers: at most one running task per key;
//! registering under a key that is taken aborts the task held there.
use vstd::prelude::*;

use tokio::task::JoinHandle;

use crate::text::str_eq;

verus! {

/// A handle to a task spawned on the runtime, carried through unopened.
#[verifier::external_type_specification]
#[verifier::external_body]
#[verifier::reject_recursive_types(T)]
pub struct ExJoinHandle<T>(JoinHandle<T>);

/// The error a task handle resolves to when its task failed; declared because
/// the handle's type refers to it.
#[verifier::external_type_specification]
#[verifier::external_body]
pub struct ExJoinError(tokio::task::JoinError);

/// Calls `tokio::task::JoinHandle::abort`, which asks the runtime to cancel
/// the task. Nothing is stated of the task afterwards.
#[verifier::external_body]
fn abort_task(handle: &JoinHandle<()>) {
    handle.abort();
}

/// Calls `tokio::task::JoinHandle::is_finished`. The answer depends on the
/// progress of the task, so nothing is stated of it.
#[verifier::external_body]
fn task_is_finished(handle: &JoinHandle<()>) -> bool {
    handle.is_finished()
}

/// Whether the keys of `s` are pairwise distinct.
pub open spec fn keys_distinct<V>(s: Seq<(String, V)>) -> bool {
    forall|i: int, j: int|
        0 <= i < s.len() && 0 <= j < s.len() && i != j ==> #[trigger] s[i].0@ != #[trigger] s[j].0@
}

/// The map from keys to tasks that a list of entries holds.
pub open spec fn map_of<V>(s: Seq<(String, V)>) -> Map<Seq<char>, V>
    decreases s.len(),
{
    if s.len() == 0 {
        Map::empty()
    } else {
        map_of(s.drop_last()).insert(s.last().0@, s.last().1)
    }
}

pub proof fn lemma_map_of_dom<V>(s: Seq<(String, V)>, k: Seq<char>)
    ensures
        map_of(s).dom().contains(k) == (exists|i: int| 0 <= i < s.len() && #[trigger] s[i].0@ == k),
    decreases s.len(),
{
    if s.len() > 0 {
        let p = s.drop_last();
        lemma_map_of_dom(p, k);
        if exists|i: int| 0 <= i < p.len() && #[trigger] p[i].0@ == k {
            let i = choose|i: int| 0 <= i < p.len() && #[trigger] p[i].0@ == k;
            assert(s[i] == p[i]);
        }
        if exists|i: int| 0 <= i < s.len() && #[trigger] s[i].0@ == k {
            let i = choose|i: int| 0 <= i < s.len() && #[trigger] s[i].0@ == k;
            if i < p.len() {
                assert(s[i] == p[i]);
            }
        }
    }
}

pub proof fn lemma_map_of_remove<V>(s: Seq<(String, V)>, idx: int)
    requires
        keys_distinct(s),
        0 <= idx < s.len(),
    ensures
        map_of(s.remove(idx)) == map_of(s).remove(s[idx].0@),
        keys_distinct(s.remove(idx)),
    decreases s.len(),
{
    let p = s.drop_last();
    let last = s.last();
    assert(keys_distinct(p)) by {
        assert forall|i: int, j: int|
            0 <= i < p.len() && 0 <= j < p.len() && i != j implies #[trigger] p[i].0@ != #[trigger] p[j].0@ by {
            assert(p[i] == s[i] && p[j] == s[j]);
        }
    }
    assert(!map_of(p).dom().contains(last.0@)) by {
        lemma_map_of_dom(p, last.0@);
        if exists|i: int| 0 <= i < p.len() && #[trigger] p[i].0@ == last.0@ {
            let i = choose|i: int| 0 <= i < p.len() && #[trigger] p[i].0@ == last.0@;
            assert(p[i] == s[i]);
            assert(s[i].0@ != s[s.len() - 1].0@);
        }
    }
    if idx == s.len() - 1 {
        assert(s.remove(idx) =~= p);
        assert(map_of(s).remove(s[idx].0@) =~= map_of(p));
    } else {
        lemma_map_of_remove(p, idx);
        assert(s.remove(idx) =~= p.remove(idx).push(last));
        assert(p[idx] == s[idx]);
        assert(s[idx].0@ != last.0@);
        let q = p.remove(idx);
        assert(s.remove(idx).drop_last() =~= q);
        assert(map_of(s.remove(idx)) == map_of(q).insert(last.0@, last.1));
        assert(map_of(s.remove(idx)) =~= map_of(s).remove(s[idx].0@));
        assert(keys_distinct(s.remove(idx))) by {
            let r = s.remove(idx);
            assert forall|i: int, j: int|
                0 <= i < r.len() && 0 <= j < r.len() && i != j implies #[trigger] r[i].0@ != #[trigger] r[j].0@ by {
                let si = if i < idx { i } else { i + 1 };
                let sj = if j < idx { j } else { j + 1 };
                assert(r[i] == s[si]);
                assert(r[j] == s[sj]);
            }
        }
    }
}

/// The index of the entry of `key` in a list of keyed entries.
pub fn find_key<V>(timers: &Vec<(String, V)>, key: &str) -> (r: Option<usize>)
    ensures
        match r {
            Some(i) => i < timers@.len() && timers@[i as int].0@ == key@,
            None => forall|i: int| 0 <= i < timers@.len() ==> #[trigger] timers@[i].0@ != key@,
        },
{
    let mut i: usize = 0;
    while i < timers.len()
        invariant
            i <= timers@.len(),
            forall|j: int| 0 <= j < i ==> #[trigger] timers@[j].0@ != key@,
        decreases timers.len() - i,
    {
        if str_eq(timers[i].0.as_str(), key) {
            return Some(i);
        }
        i = i + 1;
    }
    None
}

/// The registry of background timers, keyed by name.
pub struct TimerRegistry {
    timers: Vec<(String, JoinHandle<()>)>,
}

impl View for TimerRegistry {
    type V = Map<Seq<char>, JoinHandle<()>>;

    closed spec fn view(&self) -> Map<Seq<char>, JoinHandle<()>> {
        map_of(self.timers@)
    }
}

impl TimerRegistry {
    #[verifier::type_invariant]
    spec fn inv(self) -> bool {
        keys_distinct(self.timers@)
    }

    /// An empty registry.
    pub fn new() -> (r: Self)
        ensures
            r@ == Map::<Seq<char>, JoinHandle<()>>::empty(),
    {
        TimerRegistry { timers: Vec::new() }
    }

    /// Registers `handle` under `key`; a task already registered under `key`
    /// is aborted first.
    pub fn register(&mut self, key: String, handle: JoinHandle<()>)
        ensures
            final(self)@ == old(self)@.insert(key@, handle),
    {
        proof {
            use_type_invariant(&*self);
        }
        let ghost start = self.timers@;
        let mut timers = Vec::new();
        std::mem::swap(&mut timers, &mut self.timers);
        match find_key(&timers, key.as_str()) {
            Some(i) => {
                proof {
                    lemma_map_of_remove(timers@, i as int);
                }
                let (_, old) = timers.remove(i);
                abort_task(&old);
            },
            None => {},
        }
        proof {
            lemma_map_of_dom(timers@, key@);
        }
        let ghost mid = timers@;
        timers.push((key, handle));
        proof {
            assert(timers@.drop_last() =~= mid);
            assert(keys_distinct(timers@)) by {
                assert forall|i: int, j: int|
                    0 <= i < timers@.len() && 0 <= j < timers@.len() && i != j implies #[trigger] timers@[i].0@
                    != #[trigger] timers@[j].0@ by {
                    if i < mid.len() && j < mid.len() {
                        assert(timers@[i] == mid[i] && timers@[j] == mid[j]);
                    } else if i < mid.len() {
                        assert(timers@[i] == mid[i]);
                    } else {
                        assert(timers@[j] == mid[j]);
                    }
                }
            }
            assert(map_of(timers@) =~= map_of(start).insert(key@, handle));
        }
        self.timers = timers;
    }

    /// Stops and forgets the task of `key`, if any.
    pub fn stop(&mut self, key: &str)
        ensures
            final(self)@ == old(self)@.remove(key@),
    {
        proof {
            use_type_invariant(&*self);
        }
        let ghost start = self.timers@;
        let mut timers = Vec::new();
        std::mem::swap(&mut timers, &mut self.timers);
        match find_key(&timers, key) {
            Some(i) => {
                proof {
                    lemma_map_of_remove(timers@, i as int);
                }
                let (_, old) = timers.remove(i);
                abort_task(&old);
            },
            None => {
                proof {
                    lemma_map_of_dom(timers@, key@);
                    assert(map_of(start).remove(key@) =~= map_of(start));
                }
            },
        }
        self.timers = timers;
    }

    /// Stops and forgets every task.
    pub fn stop_all(&mut self)
        ensures
            final(self)@ == Map::<Seq<char>, JoinHandle<()>>::empty(),
    {
        let mut i: usize = 0;
        while i < self.timers.len()
            invariant
                i <= self.timers@.len(),
                self.timers@ == old(self).timers@,
            decreases self.timers.len() - i,
        {
            abort_task(&self.timers[i].1);
            i = i + 1;
        }
        self.timers = Vec::new();
    }

    /// Whether a task is registered under `key` and has not finished.
    pub fn is_running(&self, key: &str) -> (r: bool)
        ensures
            r ==> self@.dom().contains(key@),
    {
        proof {
            lemma_map_of_dom(self.timers@, key@);
        }
        match find_key(&self.timers, key) {
            Some(i) => !task_is_finished(&self.timers[i].1),
            None => false,
        }
    }

    /// Same as [`TimerRegistry::register`]: the task of `key` is replaced.
    pub fn restart(&mut self, key: String, handle: JoinHandle<()>)
        ensures
            final(self)@ == old(self)@.insert(key@, handle),
    {
        self.register(key, handle);
    }

    /// The number of registered tasks.
    pub fn len(&self) -> (r: usize)
        ensures
            r == self@.dom().len(),
    {
        proof {
            use_type_invariant(&*self);
            lemma_map_of_len(self.timers@);
        }
        self.timers.len()
    }
}

pub proof fn lemma_map_of_len<V>(s: Seq<(String, V)>)
    requires
        keys_distinct(s),
    ensures
        map_of(s).dom().finite(),
        map_of(s).dom().len() == s.len(),
    decreases s.len(),
{
    if s.len() > 0 {
        let p = s.drop_last();
        assert(keys_distinct(p)) by {
            assert forall|i: int, j: int|
                0 <= i < p.len() && 0 <= j < p.len() && i != j implies #[trigger] p[i].0@ != #[trigger] p[j].0@ by {
                assert(p[i] == s[i] && p[j] == s[j]);
            }
        }
        lemma_map_of_len(p);
        lemma_map_of_dom(p, s.last().0@);
        if exists|i: int| 0 <= i < p.len() && #[trigger] p[i].0@ == s.last().0@ {
            let i = choose|i: int| 0 <= i < p.len() && #[trigger] p[i].0@ == s.last().0@;
            assert(p[i] == s[i]);
            assert(s[i].0@ != s[s.len() - 1].0@);
        }
    }
}

/// A key holds at most one task: registering twice under the same key keeps
/// only the second task, and stopping a key forgets it whatever was
/// registered before.
pub proof fn register_replaces_and_stop_forgets(
    m: Map<Seq<char>, JoinHandle<()>>,
    k: Seq<char>,
    h1: JoinHandle<()>,
    h2: JoinHandle<()>,
)
    ensures
        m.insert(k, h1).insert(k, h2) == m.insert(k, h2),
        !m.insert(k, h1).remove(k).dom().contains(k),
        m.insert(k, h1).remove(k) == m.remove(k),
{
    assert(m.insert(k, h1).insert(k, h2) =~= m.insert(k, h2));
    assert(m.insert(k, h1).remove(k) =~= m.remove(k));
}

} // verus!
