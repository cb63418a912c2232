//! The shared channel registry.
//!
//! The registry is the single structure shared by all connection tasks: a
//! table mapping every currently open `(connection id, channel id)` pair to
//! the write handle for that channel. Its view is the corresponding
//! mathematical map, and a well-formed registry stores exactly one entry per
//! open pair. Lookup misses are normal absence, never an error, and
//! unregistering an absent pair is a no-op.
//!
//! No I/O happens inside the registry: iteration for broadcast only reports
//! which pairs to deliver to, and the caller writes to each handle
//! afterwards, best-effort and per-entry.

use vstd::prelude::*;

verus! {

/// One open channel: the owning connection's id, the channel's id within
/// that connection, and the write handle used to push bytes to the peer.
pub struct Entry<H> {
    /// Connection id, assigned by the listener.
    pub conn: u64,
    /// Channel id, unique within its connection.
    pub chan: u64,
    /// Opaque write handle for this channel.
    pub handle: H,
}

/// The `(connection id, channel id)` pair identifying an entry.
pub open spec fn entry_key<H>(e: Entry<H>) -> (u64, u64) {
    (e.conn, e.chan)
}

/// No two stored entries share a `(connection, channel)` pair.
pub open spec fn keys_unique<H>(s: Seq<Entry<H>>) -> bool {
    forall|i: int, j: int|
        0 <= i < s.len() && 0 <= j < s.len() && i != j ==> entry_key(s[i]) != entry_key(s[j])
}

/// Some stored entry has key `k`.
pub open spec fn has_key<H>(s: Seq<Entry<H>>, k: (u64, u64)) -> bool {
    exists|i: int| 0 <= i < s.len() && entry_key(s[i]) == k
}

/// The position of the entry with key `k`, when one exists.
pub open spec fn index_of<H>(s: Seq<Entry<H>>, k: (u64, u64)) -> int {
    choose|i: int| 0 <= i < s.len() && entry_key(s[i]) == k
}

/// When keys are unique, the entry at any position with key `k` is the one
/// position that `index_of` names.
proof fn lemma_unique_index<H>(s: Seq<Entry<H>>, k: (u64, u64), i: int)
    requires
        keys_unique(s),
        0 <= i < s.len(),
        entry_key(s[i]) == k,
    ensures
        has_key(s, k),
        index_of(s, k) == i,
{
    assert(has_key(s, k));
    let j = index_of(s, k);
    assert(0 <= j < s.len() && entry_key(s[j]) == k);
    if i != j {
        assert(entry_key(s[i]) != entry_key(s[j]));
        assert(false);
    }
}

/// The shared table of open channels. Its view is the map from each open
/// `(connection id, channel id)` pair to that channel's write handle.
pub struct Registry<H> {
    entries: Vec<Entry<H>>,
}

impl<H> View for Registry<H> {
    type V = Map<(u64, u64), H>;

    closed spec fn view(&self) -> Map<(u64, u64), H> {
        Map::new(
            |k: (u64, u64)| has_key(self.entries@, k),
            |k: (u64, u64)| self.entries@[index_of(self.entries@, k)].handle,
        )
    }
}

impl<H> Registry<H> {
    /// Well-formedness: the table stores exactly one entry per open pair.
    pub closed spec fn wf(&self) -> bool {
        keys_unique(self.entries@)
    }

    /// The stored entries, for stating laws about the concrete table.
    pub closed spec fn entries_seq(&self) -> Seq<Entry<H>> {
        self.entries@
    }

    /// An empty registry: no channel is open.
    pub fn new() -> (r: Self)
        ensures
            r.wf(),
            r@ == Map::<(u64, u64), H>::empty(),
    {
        let r = Registry { entries: Vec::new() };
        proof {
            assert(r@ =~= Map::<(u64, u64), H>::empty());
        }
        r
    }

    /// The position of the entry for `(conn, chan)`, if that pair is open.
    fn find(&self, conn: u64, chan: u64) -> (r: Option<usize>)
        ensures
            match r {
                Some(i) => i < self.entries_seq().len() && entry_key(
                    self.entries_seq()[i as int],
                ) == (conn, chan),
                None => !has_key(self.entries_seq(), (conn, chan)),
            },
    {
        let mut i: usize = 0;
        while i < self.entries.len()
            invariant
                i <= self.entries@.len(),
                forall|j: int| 0 <= j < i ==> entry_key(self.entries@[j]) != (conn, chan),
            decreases self.entries@.len() - i,
        {
            if self.entries[i].conn == conn && self.entries[i].chan == chan {
                return Some(i);
            }
            i = i + 1;
        }
        None
    }

    /// Inserts the handle for `(conn, chan)`, replacing any handle the pair
    /// already had: afterwards the registry holds exactly the old pairs plus
    /// this one.
    pub fn register(&mut self, conn: u64, chan: u64, handle: H)
        requires
            old(self).wf(),
        ensures
            final(self).wf(),
            final(self)@ == old(self)@.insert((conn, chan), handle),
    {
        let k = (conn, chan);
        let entry = Entry { conn, chan, handle };
        let found = self.find(conn, chan);
        match found {
            Some(i) => {
                self.entries.set(i, entry);
                proof {
                    let s_old = old(self).entries@;
                    let s_new = self.entries@;
                    assert forall|x: int, y: int|
                        0 <= x < s_new.len() && 0 <= y < s_new.len() && x != y implies entry_key(
                        s_new[x],
                    ) != entry_key(s_new[y]) by {
                        if x != i && y != i {
                            assert(s_new[x] == s_old[x]);
                            assert(s_new[y] == s_old[y]);
                        } else if x == i {
                            assert(s_new[y] == s_old[y]);
                            assert(entry_key(s_old[y]) != entry_key(s_old[i as int]));
                        } else {
                            assert(s_new[x] == s_old[x]);
                            assert(entry_key(s_old[x]) != entry_key(s_old[i as int]));
                        }
                    };
                    self.lemma_view_after_overwrite(*old(self), i as int, k);
                }
            },
            None => {
                self.entries.push(entry);
                proof {
                    let s_old = old(self).entries@;
                    let s_new = self.entries@;
                    let n = s_old.len() as int;
                    assert forall|x: int, y: int|
                        0 <= x < s_new.len() && 0 <= y < s_new.len() && x != y implies entry_key(
                        s_new[x],
                    ) != entry_key(s_new[y]) by {
                        if x < n && y < n {
                            assert(s_new[x] == s_old[x]);
                            assert(s_new[y] == s_old[y]);
                        } else if x == n {
                            assert(s_new[y] == s_old[y]);
                            assert(entry_key(s_new[x]) == k);
                            assert(!has_key(s_old, k));
                        } else {
                            assert(s_new[x] == s_old[x]);
                            assert(entry_key(s_new[y]) == k);
                            assert(!has_key(s_old, k));
                        }
                    };
                    self.lemma_view_after_overwrite(*old(self), n, k);
                }
            },
        }
    }

    /// After writing an entry with key `k` at position `i` (all other
    /// positions unchanged, keys unique on both sides), the view is the old
    /// view with `k` bound to the new handle.
    proof fn lemma_view_after_overwrite(&self, prev: Self, i: int, k: (u64, u64))
        requires
            prev.wf(),
            self.wf(),
            0 <= i < self.entries_seq().len(),
            prev.entries_seq().len() == self.entries_seq().len() || prev.entries_seq().len() + 1
                == self.entries_seq().len(),
            entry_key(self.entries_seq()[i]) == k,
            forall|x: int|
                0 <= x < self.entries_seq().len() && x != i ==> 0 <= x
                    < prev.entries_seq().len() && self.entries_seq()[x] == prev.entries_seq()[x],
            i < prev.entries_seq().len() ==> entry_key(prev.entries_seq()[i]) == k,
            i == prev.entries_seq().len() ==> !has_key(prev.entries_seq(), k),
        ensures
            self@ == prev@.insert(k, self.entries_seq()[i].handle),
    {
        let s_old = prev.entries_seq();
        let s_new = self.entries_seq();
        assert forall|k2: (u64, u64)| #[trigger]
            has_key(s_new, k2) implies k2 == k || has_key(s_old, k2) by {
            let x = choose|x: int| 0 <= x < s_new.len() && entry_key(s_new[x]) == k2;
            if x != i {
                assert(s_new[x] == s_old[x]);
                assert(has_key(s_old, k2));
            }
        };
        assert forall|k2: (u64, u64)|
            k2 != k && #[trigger] has_key(s_old, k2) implies has_key(s_new, k2) by {
            let x = choose|x: int| 0 <= x < s_old.len() && entry_key(s_old[x]) == k2;
            assert(x != i || entry_key(s_old[i]) == k2);
            assert(s_new[x] == s_old[x]);
            assert(entry_key(s_new[x]) == k2);
        };
        assert(has_key(s_new, k));
        assert forall|k2: (u64, u64)| #[trigger]
            has_key(s_new, k2) implies s_new[index_of(s_new, k2)].handle == (if k2 == k {
            s_new[i].handle
        } else {
            s_old[index_of(s_old, k2)].handle
        }) by {
            let x = index_of(s_new, k2);
            assert(0 <= x < s_new.len() && entry_key(s_new[x]) == k2);
            if k2 == k {
                lemma_unique_index(s_new, k, i);
            } else {
                assert(x != i);
                assert(s_new[x] == s_old[x]);
                lemma_unique_index(s_old, k2, x);
            }
        };
        assert(self@ =~= prev@.insert(k, s_new[i].handle));
    }

    /// Removes the entry for `(conn, chan)` if the pair is open; an absent
    /// pair is normal and leaves the registry unchanged, never an error.
    pub fn unregister(&mut self, conn: u64, chan: u64)
        requires
            old(self).wf(),
        ensures
            final(self).wf(),
            final(self)@ == old(self)@.remove((conn, chan)),
    {
        let k = (conn, chan);
        let found = self.find(conn, chan);
        match found {
            Some(i) => {
                self.entries.remove(i);
                proof {
                    let s_old = old(self).entries@;
                    let s_new = self.entries@;
                    let n = s_old.len() as int;
                    assert forall|x: int| 0 <= x < s_new.len() implies s_new[x] == (if x < i {
                        s_old[x]
                    } else {
                        s_old[x + 1]
                    }) by {};
                    assert forall|x: int, y: int|
                        0 <= x < s_new.len() && 0 <= y < s_new.len() && x != y implies entry_key(
                        s_new[x],
                    ) != entry_key(s_new[y]) by {};
                    assert forall|k2: (u64, u64)| #[trigger]
                        has_key(s_new, k2) implies has_key(s_old, k2) && k2 != k by {
                        let x = choose|x: int| 0 <= x < s_new.len() && entry_key(s_new[x]) == k2;
                        let x0: int = if x < i { x } else { x + 1 };
                        assert(entry_key(s_old[x0]) == k2);
                        assert(x0 != i);
                        assert(entry_key(s_old[i as int]) == k);
                    };
                    assert forall|k2: (u64, u64)|
                        k2 != k && #[trigger] has_key(s_old, k2) implies has_key(s_new, k2) by {
                        let x = choose|x: int| 0 <= x < s_old.len() && entry_key(s_old[x]) == k2;
                        assert(x != i);
                        let x1: int = if x < i { x } else { x - 1 };
                        assert(entry_key(s_new[x1]) == k2);
                    };
                    assert forall|k2: (u64, u64)| #[trigger]
                        has_key(s_new, k2) implies s_new[index_of(s_new, k2)].handle == s_old[index_of(s_old, k2)].handle by {
                        let x = index_of(s_new, k2);
                        assert(0 <= x < s_new.len() && entry_key(s_new[x]) == k2);
                        let x0: int = if x < i { x } else { x + 1 };
                        assert(s_new[x] == s_old[x0]);
                        lemma_unique_index(s_old, k2, x0);
                    };
                    assert(self@ =~= old(self)@.remove(k));
                }
            },
            None => {
                proof {
                    assert(self@ =~= old(self)@.remove(k));
                }
            },
        }
    }

    /// The handle for `(conn, chan)`, when that pair is open; `None` means
    /// the pair is not registered, which is normal absence, not an error.
    pub fn get(&self, conn: u64, chan: u64) -> (r: Option<&H>)
        requires
            self.wf(),
        ensures
            match r {
                Some(h) => self@.dom().contains((conn, chan)) && *h == self@[(conn, chan)],
                None => !self@.dom().contains((conn, chan)),
            },
    {
        let found = self.find(conn, chan);
        match found {
            Some(i) => {
                proof {
                    lemma_unique_index(self.entries@, (conn, chan), i as int);
                }
                Some(&self.entries[i].handle)
            },
            None => None,
        }
    }

    /// The keys of every open channel that belongs to a connection other
    /// than `origin`: the broadcast destinations for data arriving on
    /// `origin`. The result lists each such pair exactly once and no pair of
    /// `origin` itself.
    pub fn targets_except(&self, origin: u64) -> (r: Vec<(u64, u64)>)
        requires
            self.wf(),
        ensures
            forall|x: int|
                0 <= x < r@.len() ==> (#[trigger] r@[x]).0 != origin && self@.dom().contains(
                    r@[x],
                ),
            forall|k: (u64, u64)|
                #[trigger] self@.dom().contains(k) && k.0 != origin ==> r@.contains(k),
            forall|x: int, y: int| 0 <= x < r@.len() && 0 <= y < r@.len() && x != y ==> r@[x]
                != r@[y],
    {
        let mut r: Vec<(u64, u64)> = Vec::new();
        let mut i: usize = 0;
        while i < self.entries.len()
            invariant
                self.wf(),
                i <= self.entries@.len(),
                forall|x: int|
                    0 <= x < r@.len() ==> (#[trigger] r@[x]).0 != origin && has_key(
                        self.entries@,
                        r@[x],
                    ),
                forall|j: int|
                    0 <= j < i && (#[trigger] entry_key(self.entries@[j])).0 != origin
                        ==> r@.contains(entry_key(self.entries@[j])),
                forall|x: int, y: int|
                    0 <= x < r@.len() && 0 <= y < r@.len() && x != y ==> r@[x] != r@[y],
                forall|x: int|
                    0 <= x < r@.len() ==> exists|j: int|
                        0 <= j < i && entry_key(self.entries@[j]) == #[trigger] r@[x],
            decreases self.entries@.len() - i,
        {
            let e = &self.entries[i];
            if e.conn != origin {
                proof {
                    let s = self.entries@;
                    let k = entry_key(s[i as int]);
                    assert forall|x: int| 0 <= x < r@.len() implies r@[x] != k by {
                        let j = choose|j: int| 0 <= j < i && entry_key(s[j]) == r@[x];
                        assert(entry_key(s[j]) != entry_key(s[i as int]));
                    };
                }
                let ghost r_prev = r@;
                r.push((e.conn, e.chan));
                proof {
                    let s = self.entries@;
                    let k = entry_key(s[i as int]);
                    assert(r@ == r_prev.push(k));
                    assert(r@[r@.len() - 1] == k);
                    assert(r@.contains(k));
                    assert forall|j: int|
                        0 <= j < i + 1 && (#[trigger] entry_key(s[j])).0 != origin
                            implies r@.contains(entry_key(s[j])) by {
                        if j < i {
                            let x = choose|x: int| 0 <= x < r_prev.len() && r_prev[x] == entry_key(s[j]);
                            assert(r@[x] == entry_key(s[j]));
                        }
                    };
                }
            }
            i = i + 1;
        }
        proof {
            assert forall|k: (u64, u64)| #[trigger]
                self@.dom().contains(k) && k.0 != origin implies r@.contains(k) by {
                let j = index_of(self.entries@, k);
                assert(0 <= j < self.entries@.len() && entry_key(self.entries@[j]) == k);
            };
        }
        r
    }

    /// Removes every entry of connection `conn`: afterwards the registry
    /// holds exactly the old pairs of the other connections, and nothing of
    /// `conn` remains.
    pub fn close_connection(&mut self, conn: u64)
        requires
            old(self).wf(),
        ensures
            final(self).wf(),
            final(self)@ == old(self)@.remove_keys(Set::new(|k: (u64, u64)| k.0 == conn)),
            forall|k: (u64, u64)| final(self)@.dom().contains(k) ==> k.0 != conn,
    {
        let ghost orig = self.entries@;
        let mut kept: Vec<Entry<H>> = Vec::new();
        let ghost mut p: int = 0;
        while self.entries.len() > 0
            invariant
                keys_unique(orig),
                0 <= p <= orig.len(),
                self.entries@ == orig.subrange(p, orig.len() as int),
                forall|x: int| 0 <= x < kept@.len() ==> (#[trigger] kept@[x]).conn != conn,
                forall|x: int|
                    0 <= x < kept@.len() ==> exists|j: int| 0 <= j < p && orig[j] == #[trigger] kept@[x],
                forall|j: int|
                    0 <= j < p && (#[trigger] orig[j]).conn != conn ==> has_key(
                        kept@,
                        entry_key(orig[j]),
                    ),
                keys_unique(kept@),
                forall|x: int|
                    0 <= x < kept@.len() ==> has_key(orig, entry_key(kept@[x]))
                        && orig[index_of(orig, entry_key(kept@[x]))] == kept@[x],
            decreases self.entries@.len(),
        {
            let e = self.entries.remove(0);
            proof {
                assert(e == orig[p]);
                assert(self.entries@ =~= orig.subrange(p + 1, orig.len() as int));
            }
            if e.conn != conn {
                proof {
                    let s = kept@;
                    assert forall|x: int|
                        0 <= x < s.len() implies entry_key(s[x]) != entry_key(orig[p]) by {
                        let j = choose|j: int| 0 <= j < p && orig[j] == s[x];
                        assert(entry_key(orig[j]) != entry_key(orig[p]));
                    };
                    lemma_unique_index(orig, entry_key(orig[p]), p);
                }
                let ghost kept_prev = kept@;
                kept.push(e);
                proof {
                    assert(kept@ == kept_prev.push(e));
                    assert(kept@[kept@.len() - 1] == orig[p]);
                    assert(entry_key(kept@[kept@.len() - 1]) == entry_key(orig[p]));
                    assert(has_key(kept@, entry_key(orig[p])));
                    assert forall|j: int|
                        0 <= j < p + 1 && (#[trigger] orig[j]).conn != conn implies has_key(
                        kept@,
                        entry_key(orig[j]),
                    ) by {
                        if j < p {
                            let x = choose|x: int|
                                0 <= x < kept_prev.len() && entry_key(kept_prev[x]) == entry_key(
                                    orig[j],
                                );
                            assert(kept@[x] == kept_prev[x]);
                            assert(entry_key(kept@[x]) == entry_key(orig[j]));
                        }
                    };
                    assert forall|x: int|
                        0 <= x < kept@.len() implies exists|j: int|
                            0 <= j < p + 1 && orig[j] == #[trigger] kept@[x] by {
                        if x < kept_prev.len() {
                            assert(kept@[x] == kept_prev[x]);
                            let j = choose|j: int| 0 <= j < p && orig[j] == kept_prev[x];
                            assert(0 <= j < p + 1 && orig[j] == kept@[x]);
                        } else {
                            assert(orig[p] == kept@[x]);
                        }
                    };
                }
            }
            proof {
                p = p + 1;
            }
        }
        self.entries = kept;
        proof {
            let s_new = self.entries@;
            let dead = Set::new(|k: (u64, u64)| k.0 == conn);
            assert forall|k: (u64, u64)| #[trigger]
                has_key(s_new, k) implies has_key(orig, k) && k.0 != conn by {
                let x = choose|x: int| 0 <= x < s_new.len() && entry_key(s_new[x]) == k;
                assert(s_new[x].conn != conn);
            };
            assert forall|k: (u64, u64)|
                #[trigger] has_key(orig, k) && k.0 != conn implies has_key(s_new, k) by {
                let j = choose|j: int| 0 <= j < orig.len() && entry_key(orig[j]) == k;
                assert(orig[j].conn != conn);
                assert(has_key(s_new, entry_key(orig[j])));
            };
            assert forall|k: (u64, u64)| #[trigger]
                has_key(s_new, k) implies s_new[index_of(s_new, k)].handle == orig[index_of(orig, k)].handle by {
                let x = index_of(s_new, k);
                assert(0 <= x < s_new.len() && entry_key(s_new[x]) == k);
                assert(orig[index_of(orig, entry_key(s_new[x]))] == s_new[x]);
            };
            assert(self@ =~= old(self)@.remove_keys(dead));
        }
    }
}

/// Law: a well-formed registry holds exactly one stored entry for every
/// `(connection, channel)` pair in its view, and none for a pair outside it.
pub proof fn lemma_one_entry_per_pair<H>(r: &Registry<H>, k: (u64, u64))
    requires
        r.wf(),
    ensures
        r@.dom().contains(k) ==> exists|i: int|
            0 <= i < r.entries_seq().len() && entry_key(#[trigger] r.entries_seq()[i]) == k,
        forall|i: int, j: int|
            0 <= i < r.entries_seq().len() && 0 <= j < r.entries_seq().len() && entry_key(
                r.entries_seq()[i],
            ) == k && entry_key(r.entries_seq()[j]) == k ==> i == j,
        !r@.dom().contains(k) ==> forall|i: int|
            0 <= i < r.entries_seq().len() ==> entry_key(#[trigger] r.entries_seq()[i]) != k,
{
    let s = r.entries_seq();
    if r@.dom().contains(k) {
        assert(has_key(s, k));
        let i = choose|i: int| 0 <= i < s.len() && entry_key(s[i]) == k;
        assert(0 <= i < s.len() && entry_key(s[i]) == k);
    }
    if !r@.dom().contains(k) {
        assert(!has_key(s, k));
        assert forall|i: int| 0 <= i < s.len() implies entry_key(#[trigger] s[i]) != k by {
            if entry_key(s[i]) == k {
                assert(has_key(s, k));
            }
        };
    }
}

/// Law: unregistering the same pair twice gives the same registry as
/// unregistering it once. `Registry::unregister` never signals an error, so
/// the second call is a harmless no-op: removing `k` from a map that no
/// longer binds `k` changes nothing.
pub proof fn lemma_unregister_idempotent<H>(m: Map<(u64, u64), H>, k: (u64, u64))
    ensures
        m.remove(k).remove(k) == m.remove(k),
{
    assert(m.remove(k).remove(k) =~= m.remove(k));
}

} // verus!
