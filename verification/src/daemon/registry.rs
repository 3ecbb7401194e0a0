use crate::daemon::ringbuf::keep_last;
use crate::daemon::session::{ClientId, Session, SessionId, SessionState};
use crate::error::SnagError;
use crate::text::{chars_equal, chars_of, chars_start_with};
use vstd::prelude::*;

verus! {

/// `id` begins with `prefix`.
pub open spec fn has_prefix(id: Seq<char>, prefix: Seq<char>) -> bool {
    prefix.len() <= id.len() && id.take(prefix.len() as int) == prefix
}

spec fn seq_has_id(ss: Seq<Session>, k: Seq<char>) -> bool {
    exists|i: int| 0 <= i < ss.len() && #[trigger] ss[i].id@ == k
}

spec fn seq_has_name(ns: Seq<(String, SessionId)>, n: Seq<char>) -> bool {
    exists|i: int| 0 <= i < ns.len() && #[trigger] ns[i].0@ == n
}

spec fn seq_index_of_id(ss: Seq<Session>, k: Seq<char>) -> int {
    choose|i: int| 0 <= i < ss.len() && #[trigger] ss[i].id@ == k
}

spec fn seq_index_of_name(ns: Seq<(String, SessionId)>, n: Seq<char>) -> int {
    choose|i: int| 0 <= i < ns.len() && #[trigger] ns[i].0@ == n
}

/// The sessions a daemon manages, and the index of their names.
pub struct SessionRegistry {
    sessions: Vec<Session>,
    name_index: Vec<(String, SessionId)>,
}

impl SessionRegistry {
    #[verifier::inline]
    spec fn id_at(&self, i: int) -> Seq<char> {
        self.sessions@[i].id@
    }

    #[verifier::inline]
    spec fn name_at(&self, i: int) -> Seq<char> {
        self.name_index@[i].0@
    }

    spec fn has_id_at(&self, k: Seq<char>) -> bool {
        seq_has_id(self.sessions@, k)
    }

    spec fn has_name_at(&self, n: Seq<char>) -> bool {
        seq_has_name(self.name_index@, n)
    }

    spec fn index_of_id(&self, k: Seq<char>) -> int {
        seq_index_of_id(self.sessions@, k)
    }

    spec fn index_of_name(&self, n: Seq<char>) -> int {
        seq_index_of_name(self.name_index@, n)
    }

    /// The sessions, by ID.
    pub closed spec fn sessions_view(&self) -> Map<Seq<char>, Session> {
        Map::new(|k: Seq<char>| self.has_id_at(k), |k: Seq<char>| self.sessions@[self.index_of_id(k)])
    }

    /// The IDs of the sessions, in the order they were added.
    pub closed spec fn id_order(&self) -> Seq<Seq<char>> {
        self.sessions@.map_values(|s: Session| s.id@)
    }

    /// The name index: each name to the ID it was given to.
    pub closed spec fn names_view(&self) -> Map<Seq<char>, Seq<char>> {
        Map::new(
            |n: Seq<char>| self.has_name_at(n),
            |n: Seq<char>| self.name_index@[self.index_of_name(n)].1@,
        )
    }

    /// IDs are unique, names in the index are unique, and every session's
    /// scrollback is well formed.
    pub closed spec fn wf(&self) -> bool {
        &&& forall|i: int, j: int|
            0 <= i < self.sessions@.len() && 0 <= j < self.sessions@.len() && i != j
                ==> #[trigger] self.id_at(i) != #[trigger] self.id_at(j)
        &&& forall|i: int, j: int|
            0 <= i < self.name_index@.len() && 0 <= j < self.name_index@.len() && i != j
                ==> #[trigger] self.name_at(i) != #[trigger] self.name_at(j)
        &&& forall|i: int| 0 <= i < self.sessions@.len() ==> (#[trigger] self.sessions@[i]).wf()
    }

    proof fn lemma_session_at(&self, i: int)
        requires
            self.wf(),
            0 <= i < self.sessions@.len(),
        ensures
            self.sessions_view().contains_key(self.id_at(i)),
            self.sessions_view()[self.id_at(i)] == self.sessions@[i],
    {
        let k = self.id_at(i);
        assert(self.has_id_at(k));
        let j = self.index_of_id(k);
        assert(self.id_at(j) == k);
    }

    proof fn lemma_name_at(&self, i: int)
        requires
            self.wf(),
            0 <= i < self.name_index@.len(),
        ensures
            self.names_view().contains_key(self.name_at(i)),
            self.names_view()[self.name_at(i)] == self.name_index@[i].1@,
    {
        let n = self.name_at(i);
        assert(self.has_name_at(n));
        let j = self.index_of_name(n);
        assert(self.name_at(j) == n);
    }

    /// An empty registry.
    pub fn new() -> (r: Self)
        ensures
            r.wf(),
            r.sessions_view() == Map::<Seq<char>, Session>::empty(),
            r.names_view() == Map::<Seq<char>, Seq<char>>::empty(),
            r.id_order() == Seq::<Seq<char>>::empty(),
    {
        let r = SessionRegistry { sessions: Vec::new(), name_index: Vec::new() };
        assert(r.sessions_view() =~= Map::<Seq<char>, Session>::empty());
        assert(r.names_view() =~= Map::<Seq<char>, Seq<char>>::empty());
        assert(r.id_order() =~= Seq::<Seq<char>>::empty());
        r
    }

    /// Position of the session with ID `key`.
    fn find_id(&self, key: &Vec<char>) -> (r: Option<usize>)
        requires
            self.wf(),
        ensures
            match r {
                Some(i) => i < self.sessions@.len() && self.id_at(i as int) == key@,
                None => !self.sessions_view().contains_key(key@),
            },
    {
        let mut i: usize = 0;
        while i < self.sessions.len()
            invariant
                i <= self.sessions@.len(),
                forall|k: int| 0 <= k < i ==> #[trigger] self.id_at(k) != key@,
            decreases self.sessions@.len() - i,
        {
            let cs = chars_of(self.sessions[i].id.as_str());
            if chars_equal(&cs, key) {
                return Some(i);
            }
            i = i + 1;
        }
        None
    }

    /// Position of `key` in the name index.
    fn find_name(&self, key: &Vec<char>) -> (r: Option<usize>)
        requires
            self.wf(),
        ensures
            match r {
                Some(i) => i < self.name_index@.len() && self.name_at(i as int) == key@,
                None => !self.names_view().contains_key(key@),
            },
    {
        let mut i: usize = 0;
        while i < self.name_index.len()
            invariant
                i <= self.name_index@.len(),
                forall|k: int| 0 <= k < i ==> #[trigger] self.name_at(k) != key@,
            decreases self.name_index@.len() - i,
        {
            let cs = chars_of(self.name_index[i].0.as_str());
            if chars_equal(&cs, key) {
                return Some(i);
            }
            i = i + 1;
        }
        None
    }
}

impl SessionRegistry {
    /// Every position of the name index is reflected in `names_view`, and
    /// nothing else is.
    proof fn lemma_names_view(&self)
        requires
            self.wf(),
        ensures
            forall|i: int|
                0 <= i < self.name_index@.len() ==> #[trigger] self.names_view().contains_key(
                    self.name_at(i),
                ) && self.names_view()[self.name_at(i)] == self.name_index@[i].1@,
            forall|n: Seq<char>|
                #[trigger] self.names_view().contains_key(n) ==> exists|i: int|
                    0 <= i < self.name_index@.len() && self.name_at(i) == n,
    {
        assert forall|i: int| 0 <= i < self.name_index@.len() implies #[trigger] self.names_view().contains_key(
            self.name_at(i),
        ) && self.names_view()[self.name_at(i)] == self.name_index@[i].1@ by {
            self.lemma_name_at(i);
        }
    }

    /// Every position of the session list is reflected in `sessions_view`,
    /// and nothing else is.
    proof fn lemma_sessions_view(&self)
        requires
            self.wf(),
        ensures
            forall|i: int|
                0 <= i < self.sessions@.len() ==> #[trigger] self.sessions_view().contains_key(
                    self.id_at(i),
                ) && self.sessions_view()[self.id_at(i)] == self.sessions@[i],
            forall|k: Seq<char>|
                #[trigger] self.sessions_view().contains_key(k) ==> exists|i: int|
                    0 <= i < self.sessions@.len() && self.id_at(i) == k,
    {
        assert forall|i: int| 0 <= i < self.sessions@.len() implies #[trigger] self.sessions_view().contains_key(
            self.id_at(i),
        ) && self.sessions_view()[self.id_at(i)] == self.sessions@[i] by {
            self.lemma_session_at(i);
        }
    }

    /// Points `name` at `id` in the name index.
    fn set_name(&mut self, name: String, id: SessionId)
        requires
            old(self).wf(),
        ensures
            final(self).wf(),
            final(self).sessions@ == old(self).sessions@,
            final(self).names_view() == old(self).names_view().insert(name@, id@),
    {
        let key = chars_of(name.as_str());
        let ghost n = name@;
        let ghost v = id@;
        proof {
            old(self).lemma_names_view();
        }
        let found = self.find_name(&key);
        match found {
            Some(i) => {
                self.name_index.set(i, (name, id));
            },
            None => {
                self.name_index.push((name, id));
            },
        }
        proof {
            let len = self.name_index@.len() as int;
            let pos: int = match found {
                Some(i) => i as int,
                None => len - 1,
            };
            assert(self.name_at(pos) == n && self.name_index@[pos].1@ == v);
            assert forall|a: int| 0 <= a < len && a != pos implies #[trigger] self.name_at(a) != n
                && self.name_at(a) == old(self).name_at(a) && self.name_index@[a] == old(
                self,
            ).name_index@[a] by {
                match found {
                    Some(i) => {
                        assert(old(self).name_at(i as int) == n);
                        assert(old(self).name_at(a) != old(self).name_at(i as int));
                    },
                    None => {
                        assert(!old(self).names_view().contains_key(n));
                        assert(old(self).names_view().contains_key(old(self).name_at(a)));
                    },
                }
            }
            assert forall|a: int, b: int|
                0 <= a < len && 0 <= b < len && a != b implies #[trigger] self.name_at(a)
                != #[trigger] self.name_at(b) by {
                if a != pos && b != pos {
                    assert(old(self).name_at(a) != old(self).name_at(b));
                }
            }
            assert(self.sessions@ == old(self).sessions@);
            assert(forall|a: int| 0 <= a < self.sessions@.len() ==> self.id_at(a) == old(self).id_at(a));
            assert(self.wf());
            self.lemma_names_view();
            let target = old(self).names_view().insert(n, v);
            assert forall|m: Seq<char>| #[trigger] self.names_view().contains_key(m)
                <==> target.contains_key(m) by {
                if self.names_view().contains_key(m) {
                    let j = choose|j: int| 0 <= j < self.name_index@.len() && self.name_at(j) == m;
                    if m != n {
                        assert(old(self).name_at(j) == m);
                    }
                }
                if old(self).names_view().contains_key(m) {
                    let j = choose|j: int| 0 <= j < old(self).name_index@.len() && old(self).name_at(j) == m;
                    assert(self.name_at(j) == m || self.name_at(j) == n);
                }
            }
            assert forall|m: Seq<char>| #[trigger] self.names_view().contains_key(m) implies self.names_view()[m]
                == target[m] by {
                let j = choose|j: int| 0 <= j < self.name_index@.len() && self.name_at(j) == m;
                self.lemma_name_at(j);
                if m != n {
                    assert(j != pos);
                    assert(old(self).name_at(j) == m);
                    old(self).lemma_name_at(j);
                } else {
                    assert(j == pos);
                }
            }
            assert(self.names_view() =~= target);
        }
    }
}

impl SessionRegistry {
    /// Adds `session`, or replaces the one with its ID.
    fn put_session(&mut self, session: Session)
        requires
            old(self).wf(),
            session.wf(),
        ensures
            final(self).wf(),
            final(self).name_index@ == old(self).name_index@,
            final(self).sessions_view() == old(self).sessions_view().insert(session.id@, session),
            final(self).id_order() == if old(self).sessions_view().contains_key(session.id@) {
                old(self).id_order()
            } else {
                old(self).id_order().push(session.id@)
            },
    {
        let key = chars_of(session.id.as_str());
        let ghost k = session.id@;
        let ghost sv = session;
        proof {
            old(self).lemma_sessions_view();
        }
        let found = self.find_id(&key);
        match found {
            Some(i) => {
                self.sessions.set(i, session);
            },
            None => {
                self.sessions.push(session);
            },
        }
        proof {
            let len = self.sessions@.len() as int;
            let pos: int = match found {
                Some(i) => i as int,
                None => len - 1,
            };
            assert(self.id_at(pos) == k && self.sessions@[pos] == sv);
            assert forall|a: int| 0 <= a < len && a != pos implies #[trigger] self.id_at(a) != k
                && self.sessions@[a] == old(self).sessions@[a] by {
                match found {
                    Some(i) => {
                        assert(old(self).id_at(i as int) == k);
                        assert(old(self).id_at(a) != old(self).id_at(i as int));
                    },
                    None => {
                        assert(old(self).sessions_view().contains_key(old(self).id_at(a)));
                    },
                }
            }
            assert forall|a: int, b: int|
                0 <= a < len && 0 <= b < len && a != b implies #[trigger] self.id_at(a)
                != #[trigger] self.id_at(b) by {
                if a != pos && b != pos {
                    assert(old(self).id_at(a) != old(self).id_at(b));
                }
            }
            assert(forall|a: int| 0 <= a < self.name_index@.len() ==> self.name_at(a) == old(self).name_at(a));
            assert(self.wf());
            self.lemma_sessions_view();
            let target = old(self).sessions_view().insert(k, sv);
            assert forall|m: Seq<char>| #[trigger] self.sessions_view().contains_key(m)
                <==> target.contains_key(m) by {
                if self.sessions_view().contains_key(m) {
                    let j = choose|j: int| 0 <= j < self.sessions@.len() && self.id_at(j) == m;
                    if m != k {
                        assert(j != pos);
                        assert(old(self).id_at(j) == m);
                    }
                }
                if old(self).sessions_view().contains_key(m) {
                    let j = choose|j: int| 0 <= j < old(self).sessions@.len() && old(self).id_at(j) == m;
                    if m != k {
                        assert(self.id_at(j) == m);
                    }
                }
            }
            assert forall|m: Seq<char>| #[trigger] self.sessions_view().contains_key(m) implies self.sessions_view()[m]
                == target[m] by {
                let j = choose|j: int| 0 <= j < self.sessions@.len() && self.id_at(j) == m;
                self.lemma_session_at(j);
                if m != k {
                    assert(j != pos);
                    assert(old(self).id_at(j) == m);
                    old(self).lemma_session_at(j);
                } else {
                    assert(j == pos);
                }
            }
            assert(self.sessions_view() =~= target);
            match found {
                Some(i) => {
                    assert(old(self).sessions_view().contains_key(k));
                    assert(self.id_order() =~= old(self).id_order());
                },
                None => {
                    assert(!old(self).sessions_view().contains_key(k));
                    assert(self.id_order() =~= old(self).id_order().push(k));
                },
            }
        }
    }

    /// Puts `session`, whose ID is in no session, back at position `i`.
    fn restore_session_at(&mut self, i: usize, session: Session)
        requires
            old(self).wf(),
            session.wf(),
            i <= old(self).sessions@.len(),
            !old(self).sessions_view().contains_key(session.id@),
        ensures
            final(self).wf(),
            final(self).name_index@ == old(self).name_index@,
            final(self).sessions_view() == old(self).sessions_view().insert(session.id@, session),
            final(self).sessions@ == old(self).sessions@.insert(i as int, session),
    {
        proof {
            old(self).lemma_sessions_view();
        }
        let ghost k = session.id@;
        let ghost sv = session;
        self.sessions.insert(i, session);
        proof {
            let len = self.sessions@.len() as int;
            assert(self.id_at(i as int) == k && self.sessions@[i as int] == sv);
            assert forall|a: int| 0 <= a < len && a != i implies #[trigger] self.id_at(a) != k
                && self.sessions@[a] == old(self).sessions@[if a < i {
                a
            } else {
                a - 1
            }] by {
                let b = if a < i {
                    a
                } else {
                    a - 1
                };
                assert(old(self).sessions_view().contains_key(old(self).id_at(b)));
            }
            assert forall|a: int, b: int|
                0 <= a < len && 0 <= b < len && a != b implies #[trigger] self.id_at(a)
                != #[trigger] self.id_at(b) by {
                if a != i && b != i {
                    let a2 = if a < i {
                        a
                    } else {
                        a - 1
                    };
                    let b2 = if b < i {
                        b
                    } else {
                        b - 1
                    };
                    assert(old(self).id_at(a2) != old(self).id_at(b2));
                }
            }
            assert(forall|a: int| 0 <= a < self.name_index@.len() ==> self.name_at(a) == old(self).name_at(a));
            assert forall|a: int| 0 <= a < len implies (#[trigger] self.sessions@[a]).wf() by {
                if a != i {
                    let b = if a < i {
                        a
                    } else {
                        a - 1
                    };
                    assert(old(self).sessions@[b].wf());
                }
            }
            assert(self.wf());
            self.lemma_sessions_view();
            let target = old(self).sessions_view().insert(k, sv);
            assert forall|m: Seq<char>| #[trigger] self.sessions_view().contains_key(m)
                <==> target.contains_key(m) by {
                if self.sessions_view().contains_key(m) {
                    let j = choose|j: int| 0 <= j < self.sessions@.len() && self.id_at(j) == m;
                    if m != k {
                        let j2 = if j < i {
                            j
                        } else {
                            j - 1
                        };
                        assert(old(self).id_at(j2) == m);
                    }
                }
                if old(self).sessions_view().contains_key(m) {
                    let j = choose|j: int| 0 <= j < old(self).sessions@.len() && old(self).id_at(j) == m;
                    let j2 = if j < i {
                        j
                    } else {
                        j + 1
                    };
                    assert(self.id_at(j2) == m);
                }
            }
            assert forall|m: Seq<char>| #[trigger] self.sessions_view().contains_key(m) implies self.sessions_view()[m]
                == target[m] by {
                let j = choose|j: int| 0 <= j < self.sessions@.len() && self.id_at(j) == m;
                self.lemma_session_at(j);
                if m != k {
                    let j2 = if j < i {
                        j
                    } else {
                        j - 1
                    };
                    assert(old(self).id_at(j2) == m);
                    old(self).lemma_session_at(j2);
                } else {
                    assert(j == i);
                }
            }
            assert(self.sessions_view() =~= target);
        }
    }

    /// Removes and returns the session at position `i`.
    fn take_session_at(&mut self, i: usize) -> (s: Session)
        requires
            old(self).wf(),
            i < old(self).sessions@.len(),
        ensures
            final(self).wf(),
            final(self).name_index@ == old(self).name_index@,
            s == old(self).sessions@[i as int],
            old(self).sessions_view().contains_key(s.id@),
            old(self).sessions_view()[s.id@] == s,
            final(self).sessions_view() == old(self).sessions_view().remove(s.id@),
            final(self).sessions@ == old(self).sessions@.remove(i as int),
    {
        proof {
            old(self).lemma_sessions_view();
        }
        let s = self.sessions.remove(i);
        proof {
            let k = s.id@;
            let len = self.sessions@.len() as int;
            assert forall|a: int| 0 <= a < len implies #[trigger] self.id_at(a) == old(self).id_at(
                if a < i {
                    a
                } else {
                    a + 1
                },
            ) && self.id_at(a) != k && self.sessions@[a] == old(self).sessions@[if a < i {
                a
            } else {
                a + 1
            }] by {
                let b = if a < i {
                    a
                } else {
                    a + 1
                };
                assert(old(self).id_at(b) != old(self).id_at(i as int));
            }
            assert forall|a: int, b: int|
                0 <= a < len && 0 <= b < len && a != b implies #[trigger] self.id_at(a)
                != #[trigger] self.id_at(b) by {
                let a2 = if a < i {
                    a
                } else {
                    a + 1
                };
                let b2 = if b < i {
                    b
                } else {
                    b + 1
                };
                assert(old(self).id_at(a2) != old(self).id_at(b2));
            }
            assert(forall|a: int| 0 <= a < self.name_index@.len() ==> self.name_at(a) == old(self).name_at(a));
            assert forall|a: int| 0 <= a < len implies (#[trigger] self.sessions@[a]).wf() by {
                let b = if a < i {
                    a
                } else {
                    a + 1
                };
                assert(old(self).sessions@[b].wf());
            }
            assert(self.wf());
            self.lemma_sessions_view();
            let target = old(self).sessions_view().remove(k);
            assert forall|m: Seq<char>| #[trigger] self.sessions_view().contains_key(m)
                <==> target.contains_key(m) by {
                if self.sessions_view().contains_key(m) {
                    let j = choose|j: int| 0 <= j < self.sessions@.len() && self.id_at(j) == m;
                    let j2 = if j < i {
                        j
                    } else {
                        j + 1
                    };
                    assert(old(self).id_at(j2) == m);
                }
                if target.contains_key(m) {
                    let j = choose|j: int| 0 <= j < old(self).sessions@.len() && old(self).id_at(j) == m;
                    assert(j != i);
                    let j2 = if j < i {
                        j
                    } else {
                        j - 1
                    };
                    assert(self.id_at(j2) == m);
                }
            }
            assert forall|m: Seq<char>| #[trigger] self.sessions_view().contains_key(m) implies self.sessions_view()[m]
                == target[m] by {
                let j = choose|j: int| 0 <= j < self.sessions@.len() && self.id_at(j) == m;
                self.lemma_session_at(j);
                let j2 = if j < i {
                    j
                } else {
                    j + 1
                };
                old(self).lemma_session_at(j2);
            }
            assert(self.sessions_view() =~= target);
            old(self).lemma_session_at(i as int);
        }
        s
    }

    /// Drops `name` from the name index.
    fn unset_name(&mut self, name: &Vec<char>)
        requires
            old(self).wf(),
        ensures
            final(self).wf(),
            final(self).sessions@ == old(self).sessions@,
            final(self).names_view() == old(self).names_view().remove(name@),
    {
        proof {
            old(self).lemma_names_view();
        }
        match self.find_name(name) {
            Some(i) => {
                let _ = self.name_index.remove(i);
                proof {
                    let n = name@;
                    let len = self.name_index@.len() as int;
                    assert forall|a: int| 0 <= a < len implies #[trigger] self.name_at(a)
                        == old(self).name_at(
                        if a < i {
                            a
                        } else {
                            a + 1
                        },
                    ) && self.name_at(a) != n && self.name_index@[a] == old(self).name_index@[if a
                        < i {
                        a
                    } else {
                        a + 1
                    }] by {
                        let b = if a < i {
                            a
                        } else {
                            a + 1
                        };
                        assert(old(self).name_at(b) != old(self).name_at(i as int));
                    }
                    assert forall|a: int, b: int|
                        0 <= a < len && 0 <= b < len && a != b implies #[trigger] self.name_at(a)
                        != #[trigger] self.name_at(b) by {
                        let a2 = if a < i {
                            a
                        } else {
                            a + 1
                        };
                        let b2 = if b < i {
                            b
                        } else {
                            b + 1
                        };
                        assert(old(self).name_at(a2) != old(self).name_at(b2));
                    }
                    assert(forall|a: int| 0 <= a < self.sessions@.len() ==> self.id_at(a) == old(self).id_at(a));
                    assert(self.wf());
                    self.lemma_names_view();
                    let target = old(self).names_view().remove(n);
                    assert forall|m: Seq<char>| #[trigger] self.names_view().contains_key(m)
                        <==> target.contains_key(m) by {
                        if self.names_view().contains_key(m) {
                            let j = choose|j: int| 0 <= j < self.name_index@.len() && self.name_at(j) == m;
                            let j2 = if j < i {
                                j
                            } else {
                                j + 1
                            };
                            assert(old(self).name_at(j2) == m);
                        }
                        if target.contains_key(m) {
                            let j = choose|j: int| 0 <= j < old(self).name_index@.len() && old(self).name_at(j) == m;
                            assert(j != i);
                            let j2 = if j < i {
                                j
                            } else {
                                j - 1
                            };
                            assert(self.name_at(j2) == m);
                        }
                    }
                    assert forall|m: Seq<char>| #[trigger] self.names_view().contains_key(m) implies self.names_view()[m]
                        == target[m] by {
                        let j = choose|j: int| 0 <= j < self.name_index@.len() && self.name_at(j) == m;
                        self.lemma_name_at(j);
                        let j2 = if j < i {
                            j
                        } else {
                            j + 1
                        };
                        old(self).lemma_name_at(j2);
                    }
                    assert(self.names_view() =~= target);
                }
            },
            None => {
                assert(self.names_view() =~= old(self).names_view().remove(name@));
            },
        }
    }
}

/// `k` is the ID of one of `sessions` and begins with `t`.
/// The IDs of `ids` that begin with `t`, in their order.
pub open spec fn prefix_ids(ids: Seq<Seq<char>>, t: Seq<char>) -> Seq<Seq<char>>
    decreases ids.len(),
{
    if ids.len() == 0 {
        Seq::empty()
    } else {
        let r = prefix_ids(ids.drop_last(), t);
        if has_prefix(ids.last(), t) {
            r.push(ids.last())
        } else {
            r
        }
    }
}

/// The text of each ID.
pub open spec fn id_texts(m: Seq<SessionId>) -> Seq<Seq<char>> {
    m.map_values(|x: SessionId| x@)
}

pub open spec fn is_prefix_match(sessions: Map<Seq<char>, Session>, t: Seq<char>, k: Seq<char>) -> bool {
    sessions.contains_key(k) && has_prefix(k, t)
}

/// What resolving `target` against a registry whose sessions are
/// `sessions` and whose name index is `names` gives: the ID a name points
/// to, else an exact ID, else (for targets of at least 3 bytes) the one ID
/// that starts with the target; several such IDs are an ambiguity, listed
/// in the registry's order `ids`; none is a miss.
pub open spec fn resolves_to(
    sessions: Map<Seq<char>, Session>,
    names: Map<Seq<char>, Seq<char>>,
    ids: Seq<Seq<char>>,
    target: &str,
    r: Result<SessionId, SnagError>,
) -> bool {
    let t = target@;
    if names.contains_key(t) {
        r matches Ok(id) && id@ == names[t]
    } else if sessions.contains_key(t) {
        r matches Ok(id) && id@ == t
    } else if target.len() >= 3 && exists|k: Seq<char>| #[trigger] is_prefix_match(sessions, t, k) {
        if exists|k: Seq<char>|
            #[trigger] is_prefix_match(sessions, t, k) && forall|k2: Seq<char>|
                #[trigger] is_prefix_match(sessions, t, k2) ==> k2 == k {
            r matches Ok(id) && is_prefix_match(sessions, t, id@) && forall|k2: Seq<char>|
                #[trigger] is_prefix_match(sessions, t, k2) ==> k2 == id@
        } else {
            r matches Err(SnagError::SessionAmbiguousTarget(t2, m)) && t2@ == t && m@.len() >= 2
                && id_texts(m@) == prefix_ids(ids, t)
                && (forall|a: int, b: int|
                0 <= a < m@.len() && 0 <= b < m@.len() && a != b ==> m@[a]@ != m@[b]@) && (forall|
                a: int,
            | 0 <= a < m@.len() ==> is_prefix_match(sessions, t, #[trigger] m@[a]@)) && (forall|
                k: Seq<char>,
            | #[trigger] is_prefix_match(sessions, t, k) ==> exists|a: int|
                0 <= a < m@.len() && m@[a]@ == k)
        }
    } else {
        r matches Err(SnagError::SessionNotFound(t2)) && t2@ == t
    }
}


proof fn lemma_resolve_unique(
    sv: Map<Seq<char>, Session>,
    nv: Map<Seq<char>, Seq<char>>,
    ids: Seq<Seq<char>>,
    target: &str,
    m: Seq<SessionId>,
    only: SessionId,
)
    requires
        !nv.contains_key(target@),
        !sv.contains_key(target@),
        target.len() >= 3,
        m.len() == 1,
        m[0] == only,
        forall|a: int| 0 <= a < m.len() ==> is_prefix_match(sv, target@, #[trigger] m[a]@),
        forall|k: Seq<char>|
            #[trigger] is_prefix_match(sv, target@, k) ==> exists|a: int| 0 <= a < m.len() && m[a]@ == k,
    ensures
        resolves_to(sv, nv, ids, target, Ok(only)),
{
    assert(is_prefix_match(sv, target@, m[0]@));
    assert forall|k2: Seq<char>| #[trigger] is_prefix_match(sv, target@, k2) implies k2 == only@ by {
        let a = choose|a: int| 0 <= a < m.len() && m[a]@ == k2;
        assert(a == 0);
    }
}

proof fn lemma_resolve_ambiguous(
    sv: Map<Seq<char>, Session>,
    nv: Map<Seq<char>, Seq<char>>,
    ids: Seq<Seq<char>>,
    target: &str,
    t2: String,
    m: Vec<SessionId>,
)
    requires
        !nv.contains_key(target@),
        !sv.contains_key(target@),
        target.len() >= 3,
        t2@ == target@,
        m@.len() >= 2,
        id_texts(m@) == prefix_ids(ids, target@),
        forall|a: int, b: int| 0 <= a < m@.len() && 0 <= b < m@.len() && a != b ==> m@[a]@ != m@[b]@,
        forall|a: int| 0 <= a < m@.len() ==> is_prefix_match(sv, target@, #[trigger] m@[a]@),
        forall|k: Seq<char>|
            #[trigger] is_prefix_match(sv, target@, k) ==> exists|a: int| 0 <= a < m@.len() && m@[a]@ == k,
    ensures
        resolves_to(sv, nv, ids, target, Err(SnagError::SessionAmbiguousTarget(t2, m))),
{
    let t = target@;
    assert(is_prefix_match(sv, t, m@[0]@));
    assert(is_prefix_match(sv, t, m@[1]@));
    assert(m@[0]@ != m@[1]@);
    if exists|k: Seq<char>|
        #[trigger] is_prefix_match(sv, t, k) && forall|k2: Seq<char>|
            #[trigger] is_prefix_match(sv, t, k2) ==> k2 == k {
        let k = choose|k: Seq<char>|
            #[trigger] is_prefix_match(sv, t, k) && forall|k2: Seq<char>|
                #[trigger] is_prefix_match(sv, t, k2) ==> k2 == k;
        assert(m@[0]@ == k);
        assert(m@[1]@ == k);
    }
}

impl SessionRegistry {
    /// Resolves a target to a session ID: an exact name first, then an
    /// exact ID, then a prefix (of at least 3 bytes) of exactly one ID.
    pub fn resolve(&self, target: &str) -> (r: Result<SessionId, SnagError>)
        requires
            self.wf(),
        ensures
            resolves_to(self.sessions_view(), self.names_view(), self.id_order(), target, r),
    {
        let t = chars_of(target);
        // 1. Exact name match
        match self.find_name(&t) {
            Some(i) => {
                proof {
                    self.lemma_name_at(i as int);
                }
                return Ok(self.name_index[i].1.clone());
            },
            None => {},
        }
        // 2. Exact ID match
        match self.find_id(&t) {
            Some(i) => {
                proof {
                    self.lemma_session_at(i as int);
                }
                return Ok(target.to_owned());
            },
            None => {},
        }
        // 3. ID prefix match (minimum 3 characters)
        if target.len() >= 3 {
            let mut matches = self.prefix_matches(&t);
            if matches.len() == 1 {
                let ghost m = matches@;
                let only = matches.pop().unwrap();
                proof {
                    lemma_resolve_unique(self.sessions_view(), self.names_view(), self.id_order(), target, m, only);
                }
                return Ok(only);
            }
            if matches.len() > 1 {
                let t2 = target.to_owned();
                proof {
                    lemma_resolve_ambiguous(self.sessions_view(), self.names_view(), self.id_order(), target, t2, matches);
                }
                return Err(SnagError::SessionAmbiguousTarget(t2, matches));
            }
        }
        let t2 = target.to_owned();
        proof {
            if target.len() >= 3 {
                assert(!exists|k: Seq<char>| #[trigger] is_prefix_match(self.sessions_view(), target@, k));
            }
        }
        Err(SnagError::SessionNotFound(t2))
    }
}

impl SessionRegistry {
    /// The IDs that begin with `t`, each once.
    fn prefix_matches(&self, t: &Vec<char>) -> (m: Vec<SessionId>)
        requires
            self.wf(),
        ensures
            id_texts(m@) == prefix_ids(self.id_order(), t@),
            forall|a: int, b: int|
                0 <= a < m@.len() && 0 <= b < m@.len() && a != b ==> m@[a]@ != m@[b]@,
            forall|a: int|
                0 <= a < m@.len() ==> is_prefix_match(self.sessions_view(), t@, #[trigger] m@[a]@),
            forall|k: Seq<char>|
                #[trigger] is_prefix_match(self.sessions_view(), t@, k) ==> exists|a: int|
                    0 <= a < m@.len() && m@[a]@ == k,
    {
        let ghost tv = t@;
        let mut matches: Vec<SessionId> = Vec::new();
        let ghost mut src: Seq<int> = Seq::empty();
        let mut i: usize = 0;
        while i < self.sessions.len()
            invariant
                self.wf(),
                i <= self.sessions@.len(),
                t@ == tv,
                src.len() == matches@.len(),
                id_texts(matches@) == prefix_ids(self.id_order().take(i as int), tv),
                forall|j: int|
                    0 <= j < src.len() ==> 0 <= #[trigger] src[j] < i && matches@[j]@ == self.id_at(
                        src[j],
                    ) && has_prefix(self.id_at(src[j]), tv),
                forall|j1: int, j2: int|
                    0 <= j1 < j2 < src.len() ==> #[trigger] src[j1] < #[trigger] src[j2],
                forall|a: int|
                    0 <= a < i && has_prefix(#[trigger] self.id_at(a), tv) ==> exists|j: int|
                        0 <= j < src.len() && src[j] == a,
            decreases self.sessions@.len() - i,
        {
            let ghost old_src = src;
            let ghost old_m = matches@;
            assert(self.id_order().take(i + 1).drop_last() =~= self.id_order().take(i as int));
            assert(self.id_order().take(i + 1).last() == self.id_at(i as int));
            let id_chars = chars_of(self.sessions[i].id.as_str());
            if chars_start_with(&id_chars, t) {
                matches.push(self.sessions[i].id.clone());
                proof {
                    src = src.push(i as int);
                }
            }
            proof {
                assert(id_texts(matches@) =~= prefix_ids(self.id_order().take(i + 1), tv));
                assert forall|a: int|
                    0 <= a < i + 1 && has_prefix(#[trigger] self.id_at(a), tv) implies exists|j: int|
                    0 <= j < src.len() && src[j] == a by {
                    if a < i {
                        let j = choose|j: int| 0 <= j < old_src.len() && old_src[j] == a;
                        assert(src[j] == a);
                    } else {
                        assert(src[src.len() - 1] == a);
                    }
                }
            }
            i = i + 1;
        }
        proof {
            assert(self.id_order().take(i as int) =~= self.id_order());
            self.lemma_sessions_view();
            assert forall|k: Seq<char>|
                #[trigger] is_prefix_match(self.sessions_view(), tv, k) implies exists|a: int|
                    0 <= a < matches@.len() && matches@[a]@ == k by {
                let a = choose|a: int| 0 <= a < self.sessions@.len() && self.id_at(a) == k;
                let j = choose|j: int| 0 <= j < src.len() && src[j] == a;
                assert(matches@[j]@ == k);
            }
            assert forall|a: int| 0 <= a < matches@.len() implies is_prefix_match(
                self.sessions_view(),
                tv,
                #[trigger] matches@[a]@,
            ) by {
                self.lemma_session_at(src[a]);
            }
            assert forall|a: int, b: int|
                0 <= a < matches@.len() && 0 <= b < matches@.len() && a != b implies matches@[a]@
                != matches@[b]@ by {
                if a < b {
                    assert(src[a] < src[b]);
                } else {
                    assert(src[b] < src[a]);
                }
            }
        }
        matches
    }
}

/// `order` lists the sessions of `sv`, each once.
pub open spec fn enumerates(order: Seq<Session>, sv: Map<Seq<char>, Session>) -> bool {
    &&& forall|i: int|
        0 <= i < order.len() ==> sv.contains_key(#[trigger] order[i].id@) && sv[order[i].id@]
            == order[i]
    &&& forall|k: Seq<char>|
        #[trigger] sv.contains_key(k) ==> exists|i: int| 0 <= i < order.len() && order[i].id@ == k
    &&& forall|i: int, j: int|
        0 <= i < order.len() && 0 <= j < order.len() && i != j ==> order[i].id@ != order[j].id@
}

/// Renaming the session `target` resolves to in `before` to `new_name`
/// gave `after` and the result `r`: refused when the name is taken, then
/// as resolving decides; on success the session bears the new name, which
/// points at it, and its old name is gone.
pub open spec fn rename_result(
    before: SessionRegistry,
    after: SessionRegistry,
    target: &str,
    new_name: String,
    r: Result<(), SnagError>,
) -> bool {
    let sv = before.sessions_view();
    let nv = before.names_view();
    let ids = before.id_order();
    if nv.contains_key(new_name@) {
        r matches Err(SnagError::SessionNameConflict(n)) && n@ == new_name@ && after == before
    } else {
        exists|r0: Result<SessionId, SnagError>|
            resolves_to(sv, nv, ids, target, r0) && match r0 {
                Err(e) => r == Err::<(), SnagError>(e) && after == before,
                Ok(id) => if !sv.contains_key(id@) {
                    r matches Err(SnagError::SessionNotFound(t)) && t@ == target@ && after == before
                } else {
                    &&& r is Ok
                    &&& after.sessions_view() == sv.insert(id@, renamed(sv[id@], new_name))
                    &&& after.names_view() == without_name(nv, sv[id@].name).insert(new_name@, id@)
                },
            }
    }
}

/// `s` renamed to `name`.
pub open spec fn renamed(s: Session, name: String) -> Session {
    Session { name: Some(name), ..s }
}

/// The name index after a session named `old_name` has given its name up.
pub open spec fn without_name(names: Map<Seq<char>, Seq<char>>, old_name: Option<String>) -> Map<Seq<char>, Seq<char>> {
    match old_name {
        Some(n) => names.remove(n@),
        None => names,
    }
}

impl SessionRegistry {
    /// Adds `session` under its ID (replacing a session with the same ID)
    /// and, when it has a name, points that name at it.
    pub fn insert(&mut self, session: Session)
        requires
            old(self).wf(),
            session.wf(),
        ensures
            final(self).wf(),
            final(self).sessions_view() == old(self).sessions_view().insert(session.id@, session),
            final(self).id_order() == if old(self).sessions_view().contains_key(session.id@) {
                old(self).id_order()
            } else {
                old(self).id_order().push(session.id@)
            },
            final(self).names_view() == match session.name {
                Some(n) => old(self).names_view().insert(n@, session.id@),
                None => old(self).names_view(),
            },
    {
        match &session.name {
            Some(name) => {
                self.set_name(name.clone(), session.id.clone());
            },
            None => {},
        }
        let ghost mid = *self;
        self.put_session(session);
        assert(self.names_view() =~= mid.names_view());
        assert(mid.sessions_view() =~= old(self).sessions_view());
    }

    /// Removes the session with ID `id`, and its name from the index.
    pub fn remove(&mut self, id: &str) -> (r: Option<Session>)
        requires
            old(self).wf(),
        ensures
            final(self).wf(),
            match r {
                Some(s) => {
                    &&& old(self).sessions_view().contains_key(id@)
                    &&& s == old(self).sessions_view()[id@]
                    &&& final(self).sessions_view() == old(self).sessions_view().remove(id@)
                    &&& final(self).names_view() == without_name(old(self).names_view(), s.name)
                    &&& exists|i: int|
                        0 <= i < old(self).id_order().len() && old(self).id_order()[i] == id@
                            && final(self).id_order() == old(self).id_order().remove(i)
                },
                None => {
                    &&& !old(self).sessions_view().contains_key(id@)
                    &&& *final(self) == *old(self)
                },
            },
    {
        let key = chars_of(id);
        match self.find_id(&key) {
            Some(i) => {
                let s = self.take_session_at(i);
                let ghost mid = *self;
                proof {
                    assert(old(self).id_order()[i as int] == id@);
                    assert(mid.id_order() =~= old(self).id_order().remove(i as int));
                }
                match &s.name {
                    Some(name) => {
                        let nk = chars_of(name.as_str());
                        self.unset_name(&nk);
                        assert(self.sessions_view() =~= mid.sessions_view());
                    },
                    None => {
                        assert(mid.names_view() =~= old(self).names_view());
                    },
                }
                assert(mid.names_view() =~= old(self).names_view());
                assert(self.id_order() == mid.id_order());
                Some(s)
            },
            None => None,
        }
    }

    /// The session with ID `id`.
    pub fn get(&self, id: &str) -> (r: Option<&Session>)
        requires
            self.wf(),
        ensures
            match r {
                Some(s) => self.sessions_view().contains_key(id@) && *s == self.sessions_view()[id@]
                    && s.wf(),
                None => !self.sessions_view().contains_key(id@),
            },
    {
        let key = chars_of(id);
        match self.find_id(&key) {
            Some(i) => {
                proof {
                    self.lemma_session_at(i as int);
                }
                Some(&self.sessions[i])
            },
            None => None,
        }
    }

    /// Whether some session goes by `name`.
    pub fn has_name(&self, name: &str) -> (r: bool)
        requires
            self.wf(),
        ensures
            r == self.names_view().contains_key(name@),
    {
        proof {
            self.lemma_names_view();
        }
        let key = chars_of(name);
        self.find_name(&key).is_some()
    }

    proof fn lemma_dom(&self)
        requires
            self.wf(),
        ensures
            self.sessions_view().dom() == self.sessions@.map_values(|s: Session| s.id@).to_set(),
            self.sessions_view().dom().finite(),
            self.sessions_view().dom().len() == self.sessions@.len(),
    {
        let ids = self.sessions@.map_values(|s: Session| s.id@);
        self.lemma_sessions_view();
        assert forall|k: Seq<char>| #[trigger] self.sessions_view().dom().contains(k) <==> ids.to_set().contains(k) by {
            if self.sessions_view().dom().contains(k) {
                let a = choose|a: int| 0 <= a < self.sessions@.len() && self.id_at(a) == k;
                assert(ids[a] == k);
            }
            if ids.to_set().contains(k) {
                let a = choose|a: int| 0 <= a < ids.len() && ids[a] == k;
                assert(self.id_at(a) == k);
            }
        }
        assert(self.sessions_view().dom() =~= ids.to_set());
        assert(ids.no_duplicates()) by {
            assert forall|a: int, b: int| 0 <= a < ids.len() && 0 <= b < ids.len() && a != b implies ids[a] != ids[b] by {
                assert(self.id_at(a) != self.id_at(b));
            }
        }
        ids.unique_seq_to_set();
    }

    /// Number of sessions.
    pub fn len(&self) -> (r: usize)
        requires
            self.wf(),
        ensures
            r == self.sessions_view().dom().len(),
    {
        proof {
            self.lemma_dom();
        }
        self.sessions.len()
    }

    /// Whether there is no session.
    pub fn is_empty(&self) -> (r: bool)
        requires
            self.wf(),
        ensures
            r == (self.sessions_view().dom().len() == 0),
    {
        proof {
            self.lemma_dom();
        }
        self.sessions.len() == 0
    }

    /// The sessions, each once, in the order they were added.
    pub fn sessions(&self) -> (r: &[Session])
        requires
            self.wf(),
        ensures
            enumerates(r@, self.sessions_view()),
            r@.map_values(|x: Session| x.id@) == self.id_order(),
            forall|i: int| 0 <= i < r@.len() ==> (#[trigger] r@[i]).wf(),
    {
        proof {
            self.lemma_sessions_view();
        }
        let r = self.sessions.as_slice();
        assert forall|i: int, j: int| 0 <= i < r@.len() && 0 <= j < r@.len() && i != j implies r@[i].id@ != r@[j].id@ by {
            assert(self.id_at(i) != self.id_at(j));
        }
        assert(r@.map_values(|x: Session| x.id@) =~= self.id_order());
        r
    }

    /// The IDs of all sessions, each once, in the order they were added.
    pub fn session_ids(&self) -> (r: Vec<SessionId>)
        requires
            self.wf(),
        ensures
            id_texts(r@) == self.id_order(),
            forall|i: int| 0 <= i < r@.len() ==> self.sessions_view().contains_key(#[trigger] r@[i]@),
            forall|k: Seq<char>|
                #[trigger] self.sessions_view().contains_key(k) ==> exists|i: int|
                    0 <= i < r@.len() && r@[i]@ == k,
            forall|i: int, j: int| 0 <= i < r@.len() && 0 <= j < r@.len() && i != j ==> r@[i]@ != r@[j]@,
    {
        proof {
            self.lemma_sessions_view();
        }
        let mut r: Vec<SessionId> = Vec::new();
        let mut i: usize = 0;
        while i < self.sessions.len()
            invariant
                self.wf(),
                i <= self.sessions@.len(),
                r@.len() == i,
                forall|j: int| 0 <= j < i ==> r@[j]@ == #[trigger] self.id_at(j),
            decreases self.sessions@.len() - i,
        {
            r.push(self.sessions[i].id.clone());
            i = i + 1;
        }
        assert forall|j: int| 0 <= j < r@.len() implies self.sessions_view().contains_key(#[trigger] r@[j]@) by {
            self.lemma_session_at(j);
        }
        assert forall|k: Seq<char>| #[trigger] self.sessions_view().contains_key(k) implies exists|i: int|
            0 <= i < r@.len() && r@[i]@ == k by {
            let a = choose|a: int| 0 <= a < self.sessions@.len() && self.id_at(a) == k;
            assert(r@[a]@ == k);
        }
        assert forall|a: int, b: int| 0 <= a < r@.len() && 0 <= b < r@.len() && a != b implies r@[a]@ != r@[b]@ by {
            assert(self.id_at(a) != self.id_at(b));
        }
        assert(id_texts(r@) =~= self.id_order());
        r
    }
}

/// `a` and `b` are the same session in all but its scrollback, state,
/// attached clients and capture file.
pub open spec fn same_identity(a: Session, b: Session) -> bool {
    &&& a.id == b.id
    &&& a.name == b.name
    &&& a.master_fd == b.master_fd
    &&& a.child_pid == b.child_pid
    &&& a.shell == b.shell
    &&& a.pts_path == b.pts_path
    &&& a.created_at_utc == b.created_at_utc
    &&& a.registered == b.registered
}

/// `new` is `old` with at most the session `k` changed.
pub open spec fn only_changed(old: Map<Seq<char>, Session>, new: Map<Seq<char>, Session>, k: Seq<char>) -> bool {
    &&& new.dom() == old.dom()
    &&& forall|k2: Seq<char>| k2 != k && #[trigger] old.contains_key(k2) ==> new[k2] == old[k2]
}

/// `after` is `before` with `client` added to the clients attached to
/// session `k`, and nothing else changed.
pub open spec fn attached_to(before: SessionRegistry, after: SessionRegistry, k: Seq<char>, client: ClientId) -> bool {
    let b = before.sessions_view()[k];
    let a = after.sessions_view()[k];
    &&& after.names_view() == before.names_view()
    &&& only_changed(before.sessions_view(), after.sessions_view(), k)
    &&& same_identity(a, b)
    &&& a.state == b.state
    &&& a.attached_clients@ == b.attached_clients@.push(client)
    &&& a.capture_path == b.capture_path
    &&& a.scrollback == b.scrollback
}

/// `s` without any occurrence of `client`, the rest in order.
pub open spec fn without_client(s: Seq<ClientId>, client: ClientId) -> Seq<ClientId>
    decreases s.len(),
{
    if s.len() == 0 {
        s
    } else if s.last() != client {
        without_client(s.drop_last(), client).push(s.last())
    } else {
        without_client(s.drop_last(), client)
    }
}

/// `after` is `before` with `client` no longer among the clients attached
/// to session `k`, and nothing else changed.
pub open spec fn detached_from(before: SessionRegistry, after: SessionRegistry, k: Seq<char>, client: ClientId) -> bool {
    let b = before.sessions_view()[k];
    let a = after.sessions_view()[k];
    &&& after.names_view() == before.names_view()
    &&& only_changed(before.sessions_view(), after.sessions_view(), k)
    &&& same_identity(a, b)
    &&& a.state == b.state
    &&& a.attached_clients@ == without_client(b.attached_clients@, client)
    &&& a.capture_path == b.capture_path
    &&& a.scrollback == b.scrollback
}

impl SessionRegistry {
    /// Takes the session `i` out and puts `s` in its place.
    proof fn lemma_replace(a: Map<Seq<char>, Session>, k: Seq<char>, s: Session)
        requires
            a.contains_key(k),
        ensures
            only_changed(a, a.remove(k).insert(k, s), k),
            a.remove(k).insert(k, s)[k] == s,
    {
        assert(a.remove(k).insert(k, s).dom() =~= a.dom());
    }

    /// The session a target resolves to.
    pub fn resolve_session(&self, target: &str) -> (r: Result<&Session, SnagError>)
        requires
            self.wf(),
        ensures
            exists|r0: Result<SessionId, SnagError>|
                resolves_to(self.sessions_view(), self.names_view(), self.id_order(), target, r0) && match r0 {
                    Ok(id) => if self.sessions_view().contains_key(id@) {
                        r matches Ok(s) && *s == self.sessions_view()[id@]
                    } else {
                        r matches Err(SnagError::SessionNotFound(t)) && t@ == target@
                    },
                    Err(e) => r matches Err(e2) && e2 == e,
                },
    {
        let r0 = self.resolve(target);
        let ghost g0 = r0;
        match r0 {
            Err(e) => Err(e),
            Ok(id) => match self.get(id.as_str()) {
                Some(s) => Ok(s),
                None => Err(SnagError::SessionNotFound(target.to_owned())),
            },
        }
    }

    /// Gives the session `target` resolves to the name `new_name`, taking
    /// its old name out of the index. Fails when `new_name` is taken.
    pub fn rename(&mut self, target: &str, new_name: String) -> (r: Result<(), SnagError>)
        requires
            old(self).wf(),
        ensures
            final(self).wf(),
            final(self).id_order() == old(self).id_order(),
            rename_result(*old(self), *final(self), target, new_name, r),
    {
        // Check new name isn't taken
        let nk = chars_of(new_name.as_str());
        if self.find_name(&nk).is_some() {
            return Err(SnagError::SessionNameConflict(new_name));
        }
        let id = match self.resolve(target) {
            Ok(id) => id,
            Err(e) => {
                return Err(e);
            },
        };
        let key = chars_of(id.as_str());
        match self.find_id(&key) {
            None => Err(SnagError::SessionNotFound(target.to_owned())),
            Some(i) => {
                let ghost k = id@;
                let ghost nn = new_name;
                let mut s = self.take_session_at(i);
                let ghost s_old = s;
                let ghost after_take = *self;
                // Remove old name from index
                match &s.name {
                    Some(old_name) => {
                        let ok = chars_of(old_name.as_str());
                        self.unset_name(&ok);
                    },
                    None => {},
                }
                let ghost after_unset = *self;
                proof {
                    assert(after_unset.sessions_view() =~= after_take.sessions_view());
                    assert(without_name(old(self).names_view(), s_old.name) =~= after_unset.names_view())
                        by {
                        assert(after_take.names_view() =~= old(self).names_view());
                    }
                }
                // Set new name
                self.set_name(new_name.clone(), id);
                let ghost after_set = *self;
                proof {
                    assert(after_set.sessions_view() =~= after_take.sessions_view());
                }
                s.name = Some(new_name);
                self.restore_session_at(i, s);
                proof {
                    assert(self.id_order() =~= old(self).id_order());
                }
                proof {
                    assert(self.names_view() =~= after_set.names_view());
                    assert(renamed(s_old, nn) == s);
                    assert(self.sessions_view() =~= old(self).sessions_view().insert(k, s));
                }
                Ok(())
            },
        }
    }
}

impl SessionRegistry {
    /// Appends `data` to the scrollback of session `id`; returns the clients
    /// attached to it, or `None` when there is no such session.
    pub fn write_output(&mut self, id: &str, data: &[u8]) -> (r: Option<Vec<ClientId>>)
        requires
            old(self).wf(),
        ensures
            final(self).wf(),
            final(self).id_order() == old(self).id_order(),
            final(self).names_view() == old(self).names_view(),
            match r {
                None => !old(self).sessions_view().contains_key(id@) && *final(self) == *old(self),
                Some(clients) => {
                    let before = old(self).sessions_view()[id@];
                    let after = final(self).sessions_view()[id@];
                    &&& old(self).sessions_view().contains_key(id@)
                    &&& only_changed(old(self).sessions_view(), final(self).sessions_view(), id@)
                    &&& same_identity(after, before)
                    &&& after.state == before.state
                    &&& after.attached_clients == before.attached_clients
                    &&& after.capture_path == before.capture_path
                    &&& after.scrollback.capacity() == before.scrollback.capacity()
                    &&& after.scrollback@ == keep_last(before.scrollback@ + data@, before.scrollback.capacity())
                    &&& clients@ == before.attached_clients@
                },
            },
    {
        let key = chars_of(id);
        match self.find_id(&key) {
            None => None,
            Some(i) => {
                let mut s = self.take_session_at(i);
                let ghost before = s;
                let ghost mid = *self;
                s.scrollback.write(data);
                let clients = s.attached_clients.clone();
                assert(clients@ =~= s.attached_clients@);
                self.restore_session_at(i, s);
                proof {
                    assert(self.id_order() =~= old(self).id_order());
                }
                proof {
                    Self::lemma_replace(old(self).sessions_view(), id@, s);
                    assert(self.names_view() =~= old(self).names_view()) by {
                        assert(mid.names_view() =~= old(self).names_view());
                    }
                }
                Some(clients)
            },
        }
    }

    /// Marks session `id` exited with `code`; returns the clients attached to
    /// it, or `None` when there is no such session.
    pub fn set_exited(&mut self, id: &str, code: i32) -> (r: Option<Vec<ClientId>>)
        requires
            old(self).wf(),
        ensures
            final(self).wf(),
            final(self).id_order() == old(self).id_order(),
            final(self).names_view() == old(self).names_view(),
            match r {
                None => !old(self).sessions_view().contains_key(id@) && *final(self) == *old(self),
                Some(clients) => {
                    let before = old(self).sessions_view()[id@];
                    let after = final(self).sessions_view()[id@];
                    &&& old(self).sessions_view().contains_key(id@)
                    &&& only_changed(old(self).sessions_view(), final(self).sessions_view(), id@)
                    &&& same_identity(after, before)
                    &&& after.state == SessionState::Exited(code)
                    &&& after.attached_clients == before.attached_clients
                    &&& after.capture_path == before.capture_path
                    &&& after.scrollback == before.scrollback
                    &&& clients@ == before.attached_clients@
                },
            },
    {
        let key = chars_of(id);
        match self.find_id(&key) {
            None => None,
            Some(i) => {
                let mut s = self.take_session_at(i);
                let ghost mid = *self;
                s.state = SessionState::Exited(code);
                let clients = s.attached_clients.clone();
                assert(clients@ =~= s.attached_clients@);
                self.restore_session_at(i, s);
                proof {
                    assert(self.id_order() =~= old(self).id_order());
                }
                proof {
                    Self::lemma_replace(old(self).sessions_view(), id@, s);
                    assert(mid.names_view() =~= old(self).names_view());
                    assert(self.names_view() =~= old(self).names_view());
                }
                Some(clients)
            },
        }
    }

    /// Adds `client` to the clients attached to session `id`; false when
    /// there is no such session.
    pub fn attach_client(&mut self, id: &str, client: ClientId) -> (r: bool)
        requires
            old(self).wf(),
        ensures
            final(self).wf(),
            final(self).id_order() == old(self).id_order(),
            final(self).names_view() == old(self).names_view(),
            r == old(self).sessions_view().contains_key(id@),
            !r ==> *final(self) == *old(self),
            r ==> attached_to(*old(self), *final(self), id@, client),
    {
        let key = chars_of(id);
        match self.find_id(&key) {
            None => false,
            Some(i) => {
                let mut s = self.take_session_at(i);
                let ghost mid = *self;
                s.attached_clients.push(client);
                self.restore_session_at(i, s);
                proof {
                    assert(self.id_order() =~= old(self).id_order());
                }
                proof {
                    Self::lemma_replace(old(self).sessions_view(), id@, s);
                    assert(mid.names_view() =~= old(self).names_view());
                    assert(self.names_view() =~= old(self).names_view());
                }
                true
            },
        }
    }

    /// Drops every occurrence of `client` from the clients attached to
    /// session `id`; false when there is no such session.
    pub fn detach_client(&mut self, id: &str, client: ClientId) -> (r: bool)
        requires
            old(self).wf(),
        ensures
            final(self).wf(),
            final(self).id_order() == old(self).id_order(),
            final(self).names_view() == old(self).names_view(),
            r == old(self).sessions_view().contains_key(id@),
            !r ==> *final(self) == *old(self),
            r ==> detached_from(*old(self), *final(self), id@, client),
    {
        let key = chars_of(id);
        match self.find_id(&key) {
            None => false,
            Some(i) => {
                let mut s = self.take_session_at(i);
                let ghost mid = *self;
                let ghost before = s.attached_clients@;
                let mut kept: Vec<ClientId> = Vec::new();
                let mut j: usize = 0;
                while j < s.attached_clients.len()
                    invariant
                        j <= s.attached_clients@.len(),
                        before == s.attached_clients@,
                        kept@ == without_client(before.take(j as int), client),
                    decreases s.attached_clients@.len() - j,
                {
                    let c = s.attached_clients[j];
                    assert(before.take(j + 1).drop_last() =~= before.take(j as int));
                    if c != client {
                        kept.push(c);
                    }
                    j = j + 1;
                }
                assert(before.take(j as int) =~= before);
                s.attached_clients = kept;
                self.restore_session_at(i, s);
                proof {
                    assert(self.id_order() =~= old(self).id_order());
                }
                proof {
                    Self::lemma_replace(old(self).sessions_view(), id@, s);
                    assert(mid.names_view() =~= old(self).names_view());
                    assert(self.names_view() =~= old(self).names_view());
                }
                true
            },
        }
    }

    /// Takes the capture file path of session `id` out, leaving none.
    pub fn take_capture_path(&mut self, id: &str) -> (r: Option<String>)
        requires
            old(self).wf(),
        ensures
            final(self).wf(),
            final(self).id_order() == old(self).id_order(),
            final(self).names_view() == old(self).names_view(),
            !old(self).sessions_view().contains_key(id@) ==> r is None && *final(self) == *old(self),
            old(self).sessions_view().contains_key(id@) ==> {
                let before = old(self).sessions_view()[id@];
                let after = final(self).sessions_view()[id@];
                &&& r == before.capture_path
                &&& only_changed(old(self).sessions_view(), final(self).sessions_view(), id@)
                &&& same_identity(after, before)
                &&& after.state == before.state
                &&& after.attached_clients == before.attached_clients
                &&& after.capture_path is None
                &&& after.scrollback == before.scrollback
            },
    {
        let key = chars_of(id);
        match self.find_id(&key) {
            None => None,
            Some(i) => {
                let mut s = self.take_session_at(i);
                let ghost mid = *self;
                let path = s.capture_path.take();
                self.restore_session_at(i, s);
                proof {
                    assert(self.id_order() =~= old(self).id_order());
                }
                proof {
                    Self::lemma_replace(old(self).sessions_view(), id@, s);
                    assert(mid.names_view() =~= old(self).names_view());
                    assert(self.names_view() =~= old(self).names_view());
                }
                path
            },
        }
    }

    /// Whether every session has exited.
    pub fn all_exited(&self) -> (r: bool)
        requires
            self.wf(),
        ensures
            r == forall|k: Seq<char>|
                #[trigger] self.sessions_view().contains_key(k) ==> self.sessions_view()[k].state
                    is Exited,
    {
        proof {
            self.lemma_sessions_view();
        }
        let mut i: usize = 0;
        while i < self.sessions.len()
            invariant
                self.wf(),
                i <= self.sessions@.len(),
                forall|j: int| 0 <= j < i ==> (#[trigger] self.sessions@[j]).state is Exited,
            decreases self.sessions@.len() - i,
        {
            match self.sessions[i].state {
                SessionState::Running => {
                    proof {
                        self.lemma_session_at(i as int);
                    }
                    return false;
                },
                SessionState::Exited(_) => {},
            }
            i = i + 1;
        }
        assert forall|k: Seq<char>| #[trigger] self.sessions_view().contains_key(k) implies self.sessions_view()[k].state is Exited by {
            let a = choose|a: int| 0 <= a < self.sessions@.len() && self.id_at(a) == k;
            self.lemma_session_at(a);
        }
        true
    }
}


/// `s` goes by the name `n`.
pub open spec fn goes_by(s: Session, n: Seq<char>) -> bool {
    match s.name {
        Some(m) => m@ == n,
        None => false,
    }
}

/// The name index and the sessions agree: every indexed name points at a
/// session of that name, and every named session is indexed under its name.
pub open spec fn names_consistent(sv: Map<Seq<char>, Session>, nv: Map<Seq<char>, Seq<char>>) -> bool {
    &&& forall|n: Seq<char>| #[trigger] nv.contains_key(n) ==> sv.contains_key(nv[n]) && goes_by(sv[nv[n]], n)
    &&& forall|k: Seq<char>, n: Seq<char>|
        #[trigger] sv.contains_key(k) && #[trigger] goes_by(sv[k], n) ==> nv.contains_key(n) && nv[n] == k
}

/// Adding a session whose ID and name are both unused keeps the name
/// index and the sessions in agreement.
pub proof fn lemma_insert_keeps_names_consistent(
    sv: Map<Seq<char>, Session>,
    nv: Map<Seq<char>, Seq<char>>,
    s: Session,
)
    requires
        names_consistent(sv, nv),
        !sv.contains_key(s.id@),
        forall|n: Seq<char>| goes_by(s, n) ==> !nv.contains_key(n),
    ensures
        names_consistent(
            sv.insert(s.id@, s),
            match s.name {
                Some(n) => nv.insert(n@, s.id@),
                None => nv,
            },
        ),
{
    let sv2 = sv.insert(s.id@, s);
    let nv2 = match s.name {
        Some(n) => nv.insert(n@, s.id@),
        None => nv,
    };
    assert forall|n: Seq<char>| #[trigger] nv2.contains_key(n) implies sv2.contains_key(nv2[n]) && goes_by(
        sv2[nv2[n]],
        n,
    ) by {
        if nv.contains_key(n) && !goes_by(s, n) {
            assert(nv2[n] == nv[n]);
            assert(nv[n] != s.id@);
        }
    }
    assert forall|k: Seq<char>, n: Seq<char>|
        #[trigger] sv2.contains_key(k) && #[trigger] goes_by(sv2[k], n) implies nv2.contains_key(n) && nv2[n]
        == k by {
        if k != s.id@ {
            assert(sv.contains_key(k) && goes_by(sv[k], n));
            assert(nv.contains_key(n));
            assert(!goes_by(s, n));
        }
    }
}

/// Removing a session, together with its name, keeps the name index and
/// the sessions in agreement.
pub proof fn lemma_remove_keeps_names_consistent(
    sv: Map<Seq<char>, Session>,
    nv: Map<Seq<char>, Seq<char>>,
    k: Seq<char>,
)
    requires
        names_consistent(sv, nv),
        sv.contains_key(k),
    ensures
        names_consistent(sv.remove(k), without_name(nv, sv[k].name)),
        forall|n: Seq<char>|
            #[trigger] without_name(nv, sv[k].name).contains_key(n) ==> without_name(nv, sv[k].name)[n]
                != k,
{
    let sv2 = sv.remove(k);
    let nv2 = without_name(nv, sv[k].name);
    assert forall|n: Seq<char>| #[trigger] nv2.contains_key(n) implies sv2.contains_key(nv2[n]) && goes_by(
        sv2[nv2[n]],
        n,
    ) && nv2[n] != k by {
        assert(nv.contains_key(n));
        if nv[n] == k {
            assert(goes_by(sv[k], n));
        }
    }
    assert forall|k2: Seq<char>, n: Seq<char>|
        #[trigger] sv2.contains_key(k2) && #[trigger] goes_by(sv2[k2], n) implies nv2.contains_key(n)
        && nv2[n] == k2 by {
        assert(sv.contains_key(k2) && goes_by(sv[k2], n));
        if goes_by(sv[k], n) {
            assert(nv[n] == k);
        }
    }
}

/// A successful rename keeps the name index and the sessions in
/// agreement: the new name points at the session, its old name at nothing.
pub proof fn lemma_rename_keeps_names_consistent(
    sv: Map<Seq<char>, Session>,
    nv: Map<Seq<char>, Seq<char>>,
    k: Seq<char>,
    new_name: String,
)
    requires
        names_consistent(sv, nv),
        sv.contains_key(k),
        !nv.contains_key(new_name@),
    ensures
        names_consistent(
            sv.insert(k, renamed(sv[k], new_name)),
            without_name(nv, sv[k].name).insert(new_name@, k),
        ),
        forall|n: Seq<char>|
            goes_by(sv[k], n) ==> !without_name(nv, sv[k].name).insert(new_name@, k).contains_key(n),
{
    let sv2 = sv.insert(k, renamed(sv[k], new_name));
    let nv1 = without_name(nv, sv[k].name);
    let nv2 = nv1.insert(new_name@, k);
    assert forall|n: Seq<char>| #[trigger] nv2.contains_key(n) implies sv2.contains_key(nv2[n]) && goes_by(
        sv2[nv2[n]],
        n,
    ) by {
        if n != new_name@ {
            assert(nv.contains_key(n));
            if nv[n] == k {
                assert(goes_by(sv[k], n));
            }
        }
    }
    assert forall|k2: Seq<char>, n: Seq<char>|
        #[trigger] sv2.contains_key(k2) && #[trigger] goes_by(sv2[k2], n) implies nv2.contains_key(n)
        && nv2[n] == k2 by {
        if k2 != k {
            assert(sv.contains_key(k2) && goes_by(sv[k2], n));
            assert(nv[n] == k2);
            if goes_by(sv[k], n) {
                assert(nv[n] == k);
            }
        }
    }
    assert forall|n: Seq<char>| goes_by(sv[k], n) implies !nv2.contains_key(n) by {
        assert(nv.contains_key(n) && nv[n] == k);
        if n == new_name@ {
            assert(false);
        }
    }
}

/// A target that is a session's name resolves to that session, whatever
/// IDs exist: a name, once written into the index, is read back by `resolve`.
pub proof fn lemma_resolve_by_name(
    sv: Map<Seq<char>, Session>,
    nv: Map<Seq<char>, Seq<char>>,
    ids: Seq<Seq<char>>,
    target: &str,
    r: Result<SessionId, SnagError>,
)
    requires
        nv.contains_key(target@),
        resolves_to(sv, nv, ids, target, r),
    ensures
        r matches Ok(id) && id@ == nv[target@],
{
}

/// A target that is the ID of a session and not a name resolves to that ID.
pub proof fn lemma_resolve_by_id(
    sv: Map<Seq<char>, Session>,
    nv: Map<Seq<char>, Seq<char>>,
    ids: Seq<Seq<char>>,
    target: &str,
    r: Result<SessionId, SnagError>,
)
    requires
        sv.contains_key(target@),
        !nv.contains_key(target@),
        resolves_to(sv, nv, ids, target, r),
    ensures
        r matches Ok(id) && id@ == target@,
{
}

impl SessionRegistry {
    /// Each session is stored under its own ID.
    pub proof fn lemma_keyed_by_id(&self)
        requires
            self.wf(),
        ensures
            forall|k: Seq<char>| #[trigger] self.sessions_view().contains_key(k) ==> self.sessions_view()[k].id@ == k,
    {
        assert forall|k: Seq<char>| #[trigger] self.sessions_view().contains_key(k) implies self.sessions_view()[k].id@ == k by {
            let j = self.index_of_id(k);
            assert(self.id_at(j) == k);
        }
    }
}

} // verus!
