//! The session registry: the sessions that are connected, each with the
//! handle through which text is sent to its client.
//!
//! The registry keeps handles and finds them; it never writes to one. Whoever
//! sends through a handle decides what a failed write means for the session.
use vstd::prelude::*;
use crate::error::{BrokerError, DeliveryError};
use crate::lists::Text;

verus! {

/// One connected client: its id and the handle that reaches it.
struct Session<H> {
    id: String,
    outbound: H,
}

/// The connected sessions. Its view is a map from each registered id to the
/// handle registered with it.
pub struct SessionRegistry<H> {
    sessions: Vec<Session<H>>,
}

impl<H> SessionRegistry<H> {
    /// No id is registered twice.
    pub closed spec fn wf(&self) -> bool {
        forall|i: int, j: int|
            0 <= i < j < self.sessions.len() ==> self.sessions[i].id@ != self.sessions[j].id@
    }

    spec fn has_id_at(&self, id: Text, i: int) -> bool {
        0 <= i < self.sessions.len() && self.sessions[i].id@ == id
    }

    pub closed spec fn view(&self) -> Map<Text, H> {
        Map::new(
            |id: Text| exists|i: int| self.has_id_at(id, i),
            |id: Text| self.sessions[choose|i: int| self.has_id_at(id, i)].outbound,
        )
    }

    /// Whether a session with this id is registered.
    pub open spec fn is_registered(&self, id: Text) -> bool {
        self@.dom().contains(id)
    }

    /// The session at `i` is the one that the view shows for its id.
    proof fn lemma_session(&self, i: int)
        requires
            self.wf(),
            0 <= i < self.sessions.len(),
        ensures
            self@.dom().contains(self.sessions[i].id@),
            self@[self.sessions[i].id@] == self.sessions[i].outbound,
    {
        let id = self.sessions[i].id@;
        assert(self.has_id_at(id, i));
        let j = choose|j: int| self.has_id_at(id, j);
        if j < i {
            assert(self.sessions[j].id@ != self.sessions[i].id@);
        }
        if i < j {
            assert(self.sessions[i].id@ != self.sessions[j].id@);
        }
    }

    /// A registry without sessions.
    pub fn new() -> (registry: SessionRegistry<H>)
        ensures
            registry.wf(),
            registry@ == Map::<Text, H>::empty(),
    {
        let registry = SessionRegistry { sessions: Vec::new() };
        assert(registry@ =~= Map::<Text, H>::empty());
        registry
    }

    fn find(&self, id: &String) -> (at: Option<usize>)
        requires
            self.wf(),
        ensures
            match at {
                Some(i) => self.has_id_at(id@, i as int) && self@.dom().contains(id@) && self@[id@]
                    == self.sessions[i as int].outbound,
                None => !self@.dom().contains(id@),
            },
    {
        let mut i: usize = 0;
        while i < self.sessions.len()
            invariant
                self.wf(),
                i <= self.sessions.len(),
                forall|k: int| 0 <= k < i ==> !self.has_id_at(id@, k),
            decreases self.sessions.len() - i,
        {
            if self.sessions[i].id == *id {
                proof {
                    self.lemma_session(i as int);
                }
                return Some(i);
            }
            i += 1;
        }
        None
    }

    /// The number of registered sessions.
    pub fn len(&self) -> (n: usize)
        requires
            self.wf(),
        ensures
            n == self@.dom().len(),
            self@.dom().finite(),
    {
        proof {
            self.lemma_count();
        }
        self.sessions.len()
    }

    /// The ids registered at the first `n` places.
    spec fn ids_before(&self, n: int) -> Set<Text> {
        Set::new(|id: Text| exists|i: int| 0 <= i < n && self.has_id_at(id, i))
    }

    proof fn lemma_ids_before(&self, n: int)
        requires
            self.wf(),
            0 <= n <= self.sessions.len(),
        ensures
            self.ids_before(n).finite(),
            self.ids_before(n).len() == n,
        decreases n,
    {
        if n == 0 {
            assert(self.ids_before(0) =~= Set::<Text>::empty());
        } else {
            self.lemma_ids_before(n - 1);
            let id = self.sessions[n - 1].id@;
            assert(self.has_id_at(id, n - 1));
            assert(!self.ids_before(n - 1).contains(id)) by {
                if self.ids_before(n - 1).contains(id) {
                    let i = choose|i: int| 0 <= i < n - 1 && self.has_id_at(id, i);
                    assert(self.sessions[i].id@ != self.sessions[n - 1].id@);
                }
            }
            assert(self.ids_before(n) =~= self.ids_before(n - 1).insert(id));
        }
    }

    proof fn lemma_count(&self)
        requires
            self.wf(),
        ensures
            self@.dom().finite(),
            self@.dom().len() == self.sessions.len(),
    {
        self.lemma_ids_before(self.sessions.len() as int);
        assert(self@.dom() =~= self.ids_before(self.sessions.len() as int));
    }

    /// Registers a session. An id that is registered already is refused, and
    /// the registry stays as it was.
    pub fn register(&mut self, id: &str, outbound: H) -> (result: Result<(), BrokerError>)
        requires
            old(self).wf(),
        ensures
            final(self).wf(),
            match result {
                Ok(()) => !old(self).is_registered(id@) && final(self)@ == old(self)@.insert(
                    id@,
                    outbound,
                ),
                Err(e) => e == BrokerError::DuplicateSession && old(self).is_registered(id@)
                    && final(self)@ == old(self)@,
            },
    {
        let id = id.to_owned();
        let ghost before = *self;
        if self.find(&id).is_some() {
            return Err(BrokerError::DuplicateSession);
        }
        self.sessions.push(Session { id, outbound });
        proof {
            let last = before.sessions.len() as int;
            assert forall|a: int, b: int| 0 <= a < b < self.sessions.len() implies self.sessions[a].id@
                != self.sessions[b].id@ by {
                if b == last {
                    assert(before.has_id_at(self.sessions[a].id@, a));
                }
            }
            self.lemma_session(last);
            assert forall|other: Text| other != id@ implies (self@.dom().contains(other)
                <==> before@.dom().contains(other)) by {
                if self@.dom().contains(other) {
                    let k = choose|k: int| self.has_id_at(other, k);
                    assert(before.has_id_at(other, k));
                }
                if before@.dom().contains(other) {
                    let k = choose|k: int| before.has_id_at(other, k);
                    assert(self.has_id_at(other, k));
                }
            }
            assert forall|other: Text| self@.dom().contains(other) && other != id@ implies self@[other]
                == before@[other] by {
                let k = choose|k: int| self.has_id_at(other, k);
                self.lemma_session(k);
                before.lemma_session(k);
            }
            assert(self@ =~= before@.insert(id@, outbound));
        }
        Ok(())
    }

    /// Takes a session out of the registry. An id that is not registered is
    /// left alone: doing this twice is doing it once.
    pub fn deregister(&mut self, id: &str)
        requires
            old(self).wf(),
        ensures
            final(self).wf(),
            final(self)@ == old(self)@.remove(id@),
    {
        let id = id.to_owned();
        let ghost before = *self;
        match self.find(&id) {
            Some(i) => {
                self.sessions.remove(i);
                proof {
                    let at = i as int;
                    assert forall|k: int| 0 <= k < self.sessions.len() implies self.sessions[k]
                        == before.sessions[if k < at {
                        k
                    } else {
                        k + 1
                    }] by {}
                    assert forall|a: int, b: int| 0 <= a < b < self.sessions.len()
                        implies self.sessions[a].id@ != self.sessions[b].id@ by {
                        let a2 = if a < at { a } else { a + 1 };
                        let b2 = if b < at { b } else { b + 1 };
                        assert(self.sessions[a] == before.sessions[a2]);
                        assert(self.sessions[b] == before.sessions[b2]);
                    }
                    before.lemma_session(at);
                    assert forall|other: Text| self@.dom().contains(other) <==> (
                    before@.dom().contains(other) && other != id@) by {
                        if self@.dom().contains(other) {
                            let k = choose|k: int| self.has_id_at(other, k);
                            let k2 = if k < at { k } else { k + 1 };
                            assert(self.sessions[k] == before.sessions[k2]);
                            assert(before.has_id_at(other, k2));
                            before.lemma_session(k2);
                        }
                        if before@.dom().contains(other) && other != id@ {
                            let k = choose|k: int| before.has_id_at(other, k);
                            let k2 = if k < at { k } else { k - 1 };
                            assert(self.sessions[k2] == before.sessions[k]);
                            assert(self.has_id_at(other, k2));
                        }
                    }
                    assert forall|other: Text| self@.dom().contains(other) implies self@[other]
                        == before@[other] by {
                        let k = choose|k: int| self.has_id_at(other, k);
                        let k2 = if k < at { k } else { k + 1 };
                        assert(self.sessions[k] == before.sessions[k2]);
                        self.lemma_session(k);
                        before.lemma_session(k2);
                    }
                    assert(self@ =~= before@.remove(id@));
                }
            },
            None => {
                proof {
                    assert(before@.remove(id@) =~= before@);
                }
            },
        }
    }

    /// The handle of a registered session, or nothing for an id that is not
    /// registered.
    pub fn lookup(&self, id: &str) -> (found: Option<&H>)
        requires
            self.wf(),
        ensures
            match found {
                Some(handle) => self.is_registered(id@) && *handle == self@[id@],
                None => !self.is_registered(id@),
            },
    {
        let id = id.to_owned();
        match self.find(&id) {
            Some(i) => Some(&self.sessions[i].outbound),
            None => None,
        }
    }

    /// The handle to write to for a message to the session `id`. A session
    /// that is not registered cannot be written to: that is a failed delivery,
    /// and the registry stays as it is.
    pub fn resolve(&self, id: &str) -> (found: Result<&H, DeliveryError>)
        requires
            self.wf(),
        ensures
            match found {
                Ok(handle) => self.is_registered(id@) && *handle == self@[id@],
                Err(e) => e == DeliveryError::SessionGone && !self.is_registered(id@),
            },
    {
        match self.lookup(id) {
            Some(handle) => Ok(handle),
            None => Err(DeliveryError::SessionGone),
        }
    }

    /// Whether a session with this id is registered.
    pub fn contains(&self, id: &str) -> (found: bool)
        requires
            self.wf(),
        ensures
            found == self.is_registered(id@),
    {
        let id = id.to_owned();
        self.find(&id).is_some()
    }
}

} // verus!
