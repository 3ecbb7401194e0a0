use crate::daemon::session::{ClientId, SessionId};
use std::collections::HashMap;
use vstd::prelude::*;

verus! {

broadcast use vstd::std_specs::hash::group_hash_axioms;

/// What the daemon knows of a connected client: whether it may only
/// watch, and the session it is attached to.
pub struct ClientState {
    pub read_only: bool,
    pub session_id: Option<SessionId>,
}

/// The daemon's connected clients, by ID.
pub struct ClientTable {
    clients: HashMap<ClientId, ClientState>,
}

impl View for ClientTable {
    type V = Map<ClientId, ClientState>;

    closed spec fn view(&self) -> Map<ClientId, ClientState> {
        self.clients@
    }
}

impl ClientTable {
    /// No client connected.
    pub fn new() -> (t: Self)
        ensures
            t@ == Map::<ClientId, ClientState>::empty(),
    {
        ClientTable { clients: HashMap::new() }
    }

    /// A client has connected: it may write and is attached to nothing.
    pub fn connect(&mut self, id: ClientId)
        ensures
            final(self)@ == old(self)@.insert(id, ClientState { read_only: false, session_id: None }),
    {
        self.clients.insert(id, ClientState { read_only: false, session_id: None });
    }

    /// A client has gone; returns what was known of it.
    pub fn disconnect(&mut self, id: ClientId) -> (r: Option<ClientState>)
        ensures
            final(self)@ == old(self)@.remove(id),
            match r {
                Some(c) => old(self)@.contains_key(id) && c == old(self)@[id],
                None => !old(self)@.contains_key(id),
            },
    {
        self.clients.remove(&id)
    }

    /// What is known of client `id`.
    pub fn get(&self, id: ClientId) -> (r: Option<&ClientState>)
        ensures
            match r {
                Some(c) => self@.contains_key(id) && *c == self@[id],
                None => !self@.contains_key(id),
            },
    {
        self.clients.get(&id)
    }

    /// Records that client `id`, when connected, now watches (or drives)
    /// session `session_id`.
    pub fn attach(&mut self, id: ClientId, session_id: SessionId, read_only: bool)
        ensures
            old(self)@.contains_key(id) ==> final(self)@ == old(self)@.insert(
                id,
                ClientState { read_only, session_id: Some(session_id) },
            ),
            !old(self)@.contains_key(id) ==> final(self)@ == old(self)@,
    {
        if self.clients.get(&id).is_some() {
            self.clients.insert(id, ClientState { read_only, session_id: Some(session_id) });
        }
    }

    /// Takes client `id` off the session it is attached to; returns that
    /// session.
    pub fn take_session(&mut self, id: ClientId) -> (r: Option<SessionId>)
        ensures
            !old(self)@.contains_key(id) ==> r is None && final(self)@ == old(self)@,
            old(self)@.contains_key(id) ==> {
                &&& r == old(self)@[id].session_id
                &&& final(self)@ == old(self)@.insert(
                    id,
                    ClientState { read_only: old(self)@[id].read_only, session_id: None },
                )
            },
    {
        match self.clients.remove(&id) {
            Some(c) => {
                let ClientState { read_only, session_id } = c;
                self.clients.insert(id, ClientState { read_only, session_id: None });
                proof {
                    assert(old(self)@.remove(id).insert(
                        id,
                        ClientState { read_only, session_id: None },
                    ) =~= old(self)@.insert(id, ClientState { read_only, session_id: None }));
                }
                session_id
            },
            None => None,
        }
    }
}

} // verus!
