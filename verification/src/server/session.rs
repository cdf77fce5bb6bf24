//! Session management: the session's identity and the clients attached to it.

use super::connection::random_uuid;
use vstd::prelude::*;
use vstd::string::*;

verus! {

/// `chrono::Utc::now().timestamp_millis()`: the current time, in milliseconds
/// since the Unix epoch. Nothing is promised of the value.
#[verifier::external_body]
pub(crate) fn now_millis() -> i64 {
    chrono::Utc::now().timestamp_millis()
}

/// Session metadata.
#[derive(Debug, Clone)]
pub struct SessionInfo {
    /// Unique session identifier: the 128-bit value of a UUID.
    pub id: u128,
    /// Human-readable session name.
    pub name: String,
    /// When the session was created, in milliseconds since the Unix epoch.
    pub created_at: i64,
    /// Socket path for this session.
    pub socket_path: String,
    /// Number of connected clients.
    pub client_count: usize,
    /// Number of active channels.
    pub channel_count: usize,
}

/// Mathematical value of a [`Session`].
pub struct SessionView {
    pub id: u128,
    pub name: Seq<char>,
    pub created_at: i64,
    pub socket_path: Seq<char>,
    pub client_count: usize,
    pub channel_count: usize,
    pub client_ids: Seq<u128>,
}

/// Whether an identifier is another than `id`.
pub open spec fn other_than(id: u128) -> spec_fn(u128) -> bool {
    |x: u128| x != id
}

/// The identifiers other than `id`, in order.
pub open spec fn without_id(ids: Seq<u128>, id: u128) -> Seq<u128> {
    ids.filter(other_than(id))
}

impl SessionView {
    /// The client count is the number of attached clients.
    pub open spec fn wf(self) -> bool {
        self.client_count == self.client_ids.len()
    }
}

/// Active session state.
#[derive(Debug)]
pub struct Session {
    /// Session metadata.
    pub info: SessionInfo,
    /// Connected client IDs, in the order in which they attached.
    client_ids: Vec<u128>,
}

impl View for Session {
    type V = SessionView;

    closed spec fn view(&self) -> SessionView {
        SessionView {
            id: self.info.id,
            name: self.info.name@,
            created_at: self.info.created_at,
            socket_path: self.info.socket_path@,
            client_count: self.info.client_count,
            channel_count: self.info.channel_count,
            client_ids: self.client_ids@,
        }
    }
}

impl Session {
    /// Create a new session under a fresh random identifier, created now,
    /// with no clients.
    pub fn new(name: String, socket_path: String) -> (session: Self)
        ensures
            session@.name == name@,
            session@.socket_path == socket_path@,
            session@.client_count == 0,
            session@.channel_count == 0,
            session@.client_ids.len() == 0,
            session@.wf(),
    {
        Self::with_identity(random_uuid(), name, socket_path, now_millis())
    }

    /// Create a new session under the given identifier and creation time,
    /// with no clients.
    pub fn with_identity(id: u128, name: String, socket_path: String, created_at: i64) -> (session:
        Self)
        ensures
            session@ == (SessionView {
                id,
                name: name@,
                created_at,
                socket_path: socket_path@,
                client_count: 0,
                channel_count: 0,
                client_ids: Seq::empty(),
            }),
            session@.wf(),
    {
        let session = Self {
            info: SessionInfo {
                id,
                name,
                created_at,
                socket_path,
                client_count: 0,
                channel_count: 0,
            },
            client_ids: Vec::new(),
        };
        assert(session@.client_ids =~= Seq::empty());
        session
    }

    /// Register a new client connection.
    pub fn add_client(&mut self, client_id: u128)
        requires
            old(self)@.wf(),
        ensures
            final(self)@ == (SessionView {
                client_ids: old(self)@.client_ids.push(client_id),
                client_count: final(self)@.client_count,
                ..old(self)@
            }),
            final(self)@.wf(),
    {
        self.client_ids.push(client_id);
        self.info.client_count = self.client_ids.len();
    }

    /// Remove a client connection.
    pub fn remove_client(&mut self, client_id: u128)
        requires
            old(self)@.wf(),
        ensures
            final(self)@ == (SessionView {
                client_ids: without_id(old(self)@.client_ids, client_id),
                client_count: final(self)@.client_count,
                ..old(self)@
            }),
            final(self)@.wf(),
    {
        let ghost keep = other_than(client_id);
        let mut kept: Vec<u128> = Vec::new();
        let mut i: usize = 0;
        while i < self.client_ids.len()
            invariant
                i <= self.client_ids.len(),
                keep == other_than(client_id),
                kept@ == self.client_ids@.take(i as int).filter(keep),
            decreases self.client_ids.len() - i,
        {
            proof {
                crate::text::lemma_filter_step(self.client_ids@, keep, i as int);
            }
            if self.client_ids[i] != client_id {
                kept.push(self.client_ids[i]);
            }
            i += 1;
        }
        assert(self.client_ids@.take(self.client_ids.len() as int) =~= self.client_ids@);
        self.client_ids = kept;
        self.info.client_count = self.client_ids.len();
    }

    /// Get session name.
    pub fn name(&self) -> (name: &str)
        ensures
            name@ == self@.name,
    {
        self.info.name.as_str()
    }

    /// Get session ID.
    pub fn id(&self) -> (id: u128)
        ensures
            id == self@.id,
    {
        self.info.id
    }

    /// Check if any clients are connected.
    pub fn has_clients(&self) -> (any: bool)
        ensures
            any == (self@.client_ids.len() > 0),
    {
        self.client_ids.len() > 0
    }

    /// Get connected client IDs.
    pub fn client_ids(&self) -> (ids: &[u128])
        ensures
            ids@ == self@.client_ids,
    {
        self.client_ids.as_slice()
    }
}

} // verus!
