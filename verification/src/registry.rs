//! The server-side registry: which username is represented by which
//! live connection.
//!
//! The registry is the one piece of state shared by every connection
//! handler; the application wraps one `Registry` value in a mutual
//! exclusion lock and each operation here is a single atomic step under
//! that lock.  In particular [`Registry::register`] is one
//! check-then-insert step, never two, so two racing registrations of the
//! same username can never both succeed.

use vstd::prelude::*;

use crate::text;

verus! {

/// One live entry: a registered username and the handle of the
/// connection that currently represents that user.
pub struct RegEntry {
    pub name: String,
    pub conn: u64,
}

/// The mapping from usernames to live connection handles.
pub struct Registry {
    pub entries: Vec<RegEntry>,
}

impl Registry {
    /// The uniqueness invariant: no two live entries share a username.
    /// Every operation below preserves it.
    pub open spec fn wf(self) -> bool {
        forall|i: int, j: int|
            0 <= i < j < self.entries@.len() ==> #[trigger] self.entries@[i].name@ != #[trigger] self.entries@[j].name@
    }

    /// Whether some live entry carries this username.
    pub open spec fn spec_contains(self, name: Seq<char>) -> bool {
        exists|i: int| 0 <= i < self.entries@.len() && #[trigger] self.entries@[i].name@ == name
    }

    /// The index of the entry carrying this username.
    pub open spec fn idx_of(self, name: Seq<char>) -> int {
        choose|i: int| 0 <= i < self.entries@.len() && #[trigger] self.entries@[i].name@ == name
    }

    /// The registry as a mathematical map from usernames to connections.
    pub open spec fn as_map(self) -> Map<Seq<char>, u64> {
        Map::new(
            |name: Seq<char>| self.spec_contains(name),
            |name: Seq<char>| self.entries@[self.idx_of(name)].conn,
        )
    }

    /// An empty registry.
    pub fn new() -> (r: Registry)
        ensures
            r.wf(),
            r.as_map() == Map::<Seq<char>, u64>::empty(),
    {
        let r = Registry { entries: Vec::new() };
        proof {
            assert(r.as_map() =~= Map::<Seq<char>, u64>::empty());
        }
        r
    }

    /// Whether `name` is currently registered.
    pub fn contains(&self, name: &str) -> (b: bool)
        ensures
            b == self.as_map().contains_key(name@),
    {
        let n = self.entries.len();
        let mut i: usize = 0;
        while i < n
            invariant
                n == self.entries@.len(),
                i <= n,
                forall|k: int| 0 <= k < i ==> #[trigger] self.entries@[k].name@ != name@,
            decreases n - i,
        {
            if text::str_eq(self.entries[i].name.as_str(), name) {
                return true;
            }
            i += 1;
        }
        false
    }

    /// The connection currently representing `name`, if any.
    pub fn lookup(&self, name: &str) -> (r: Option<u64>)
        requires
            self.wf(),
        ensures
            match r {
                Some(c) => self.as_map().contains_key(name@) && self.as_map()[name@] == c,
                None => !self.as_map().contains_key(name@),
            },
    {
        let n = self.entries.len();
        let mut i: usize = 0;
        while i < n
            invariant
                self.wf(),
                n == self.entries@.len(),
                i <= n,
                forall|k: int| 0 <= k < i ==> #[trigger] self.entries@[k].name@ != name@,
            decreases n - i,
        {
            if text::str_eq(self.entries[i].name.as_str(), name) {
                proof {
                    let w = self.idx_of(name@);
                    assert(self.entries@[w].name@ == name@);
                    assert(w == i);
                }
                return Some(self.entries[i].conn);
            }
            i += 1;
        }
        None
    }

    /// Registers `name` on connection `conn` as one atomic
    /// check-then-insert step.  Exactly when the username is free the
    /// entry is added; a duplicate registration changes nothing and is
    /// reported as failed.
    pub fn register(&mut self, name: String, conn: u64) -> (ok: bool)
        requires
            old(self).wf(),
        ensures
            final(self).wf(),
            ok == !old(self).as_map().contains_key(name@),
            ok ==> final(self).as_map() == old(self).as_map().insert(name@, conn),
            !ok ==> *final(self) == *old(self),
    {
        if self.contains(name.as_str()) {
            return false;
        }
        let ghost pre = *self;
        let ghost key = name@;
        self.entries.push(RegEntry { name, conn });
        proof {
            let n = pre.entries@.len();
            assert(self.entries@ == pre.entries@.push(RegEntry { name, conn }));
            assert(forall|k: int| 0 <= k < n ==> self.entries@[k] == pre.entries@[k]);
            assert(self.entries@[n as int].name@ == key);
            assert forall|i: int, j: int| 0 <= i < j < self.entries@.len() implies #[trigger] self
                .entries@[i].name@ != #[trigger] self.entries@[j].name@ by {
                if j < n {
                    assert(pre.entries@[i].name@ != pre.entries@[j].name@);
                } else {
                    assert(pre.spec_contains(pre.entries@[i].name@));
                    assert(!pre.spec_contains(key));
                }
            }
            assert forall|k: Seq<char>| true implies {
                &&& self.spec_contains(k) == (pre.spec_contains(k) || k == key)
                &&& (self.spec_contains(k) && k != key) ==> self.entries@[self.idx_of(k)].conn
                    == pre.entries@[pre.idx_of(k)].conn
                &&& self.spec_contains(key) ==> self.entries@[self.idx_of(key)].conn == conn
            } by {
                if self.spec_contains(k) {
                    let w = self.idx_of(k);
                    assert(self.entries@[w].name@ == k);
                    if k != key {
                        assert(w < n);
                        assert(pre.entries@[w].name@ == k);
                        let w2 = pre.idx_of(k);
                        assert(pre.entries@[w2].name@ == k);
                        assert(w2 == w);
                    } else {
                        assert(w == n);
                    }
                }
                if pre.spec_contains(k) {
                    let w = pre.idx_of(k);
                    assert(self.entries@[w].name@ == k);
                }
                if k == key {
                    assert(self.entries@[n as int].name@ == key);
                }
            }
            assert(self.as_map() =~= pre.as_map().insert(key, conn));
        }
        true
    }

    /// Removes the entry of `name`, reporting whether one was there.
    /// Removing an absent username is a harmless no-op: the registry is
    /// left exactly as it was.  A voluntary exit announced twice
    /// therefore deregisters once and then does nothing.
    pub fn remove(&mut self, name: &str) -> (was: bool)
        requires
            old(self).wf(),
        ensures
            final(self).wf(),
            was == old(self).as_map().contains_key(name@),
            final(self).as_map() == old(self).as_map().remove(name@),
            !was ==> *final(self) == *old(self),
    {
        let n = self.entries.len();
        let mut i: usize = 0;
        while i < n
            invariant
                self.wf(),
                *self == *old(self),
                n == self.entries@.len(),
                i <= n,
                forall|k: int| 0 <= k < i ==> #[trigger] self.entries@[k].name@ != name@,
            decreases n - i,
        {
            if text::str_eq(self.entries[i].name.as_str(), name) {
                let ghost pre = *self;
                let ghost key = name@;
                self.entries.remove(i);
                proof {
                    assert(self.entries@ == pre.entries@.remove(i as int));
                    assert(forall|k: int| 0 <= k < i ==> self.entries@[k] == pre.entries@[k]);
                    assert(forall|k: int| i <= k < self.entries@.len() ==> self.entries@[k]
                        == pre.entries@[k + 1]);
                    assert forall|a: int, b: int| 0 <= a < b < self.entries@.len() implies #[trigger] self
                        .entries@[a].name@ != #[trigger] self.entries@[b].name@ by {
                        let a0 = if a < i { a } else { a + 1 };
                        let b0 = if b < i { b } else { b + 1 };
                        assert(pre.entries@[a0].name@ != pre.entries@[b0].name@);
                    }
                    assert(pre.spec_contains(key)) by {
                        assert(pre.entries@[i as int].name@ == key);
                    }
                    assert forall|k: Seq<char>| true implies {
                        &&& self.spec_contains(k) == (pre.spec_contains(k) && k != key)
                        &&& self.spec_contains(k) ==> self.entries@[self.idx_of(k)].conn
                            == pre.entries@[pre.idx_of(k)].conn
                    } by {
                        if self.spec_contains(k) {
                            let w = self.idx_of(k);
                            assert(self.entries@[w].name@ == k);
                            let w0 = if w < i { w } else { w + 1 };
                            assert(pre.entries@[w0].name@ == k);
                            if k == key {
                                assert(pre.entries@[i as int].name@ == key);
                                assert(w0 == i);
                                assert(false);
                            }
                            let w2 = pre.idx_of(k);
                            assert(pre.entries@[w2].name@ == k);
                            assert(w2 == w0);
                        }
                        if pre.spec_contains(k) && k != key {
                            let w = pre.idx_of(k);
                            assert(pre.entries@[w].name@ == k);
                            assert(w != i);
                            let w1 = if w < i { w } else { w - 1 };
                            assert(self.entries@[w1].name@ == k);
                        }
                    }
                    assert(self.as_map() =~= pre.as_map().remove(key));
                }
                return true;
            }
            i += 1;
        }
        proof {
            assert(!self.spec_contains(name@));
            assert(self.as_map() =~= self.as_map().remove(name@));
        }
        false
    }
}

/// At most one live entry exists for any username: two entries carrying
/// the same name are the same entry.
pub proof fn lemma_username_unique(r: Registry, i: int, j: int)
    requires
        r.wf(),
        0 <= i < r.entries@.len(),
        0 <= j < r.entries@.len(),
        r.entries@[i].name@ == r.entries@[j].name@,
    ensures
        i == j,
{
}

/// Deregistering a username twice is the same as deregistering it once:
/// the second removal finds nothing to remove.
pub proof fn lemma_deregister_idempotent(m: Map<Seq<char>, u64>, name: Seq<char>)
    ensures
        m.remove(name).remove(name) == m.remove(name),
{
    assert(m.remove(name).remove(name) =~= m.remove(name));
}

} // verus!
