//! The session table: which clients have a session, and which connection
//! serves each of them.

use vstd::prelude::*;
use dashmap::DashMap;
use crate::server::ClientId;

verus! {

/// `dashmap::DashMap`, a concurrent hash map. Nothing is known of what is
/// inside a value of it but what the functions below say.
#[verifier::external_type_specification]
#[verifier::external_body]
#[verifier::reject_recursive_types(K)]
#[verifier::reject_recursive_types(V)]
#[verifier::reject_recursive_types(S)]
pub struct ExDashMap<K, V, S>(DashMap<K, V, S>);

/// What a session map holds: for each client identifier with a session,
/// the handle of the connection that serves it or served it last. The
/// table changes its map only through exclusive borrows and hands it to
/// nobody, so that nothing else changes the map between two calls.
pub uninterp spec fn session_entries(map: DashMap<String, u64>) -> Map<Seq<char>, u64>;

/// What the map holds under `key`, if anything.
pub open spec fn entry_of(entries: Map<Seq<char>, u64>, key: Seq<char>) -> Option<u64> {
    if entries.dom().contains(key) {
        Some(entries[key])
    } else {
        None
    }
}

/// Calls `DashMap::new`. Trusted: the new map holds nothing.
#[verifier::external_body]
fn sessions_new() -> (map: DashMap<String, u64>)
    ensures
        forall|key: Seq<char>| !session_entries(map).dom().contains(key),
{
    DashMap::new()
}

/// Calls `DashMap::get` and copies the value out. Trusted: the result is
/// what the map holds under the key.
#[verifier::external_body]
fn sessions_get(map: &DashMap<String, u64>, key: &str) -> (r: Option<u64>)
    ensures
        r == entry_of(session_entries(*map), key@),
{
    map.get(key).map(|entry| *entry.value())
}

/// Calls `DashMap::insert`. Trusted: afterwards the map holds the value
/// under the key and is otherwise unchanged, and the result is what it
/// held under the key before.
#[verifier::external_body]
fn sessions_insert(map: &mut DashMap<String, u64>, key: String, value: u64) -> (r: Option<u64>)
    ensures
        session_entries(*final(map)) == session_entries(*old(map)).insert(key@, value),
        r == entry_of(session_entries(*old(map)), key@),
{
    map.insert(key, value)
}

/// Calls `DashMap::remove`. Trusted: afterwards the map holds nothing
/// under the key and is otherwise unchanged, and the result is what it
/// held under the key before.
#[verifier::external_body]
fn sessions_remove(map: &mut DashMap<String, u64>, key: &str) -> (r: Option<u64>)
    ensures
        session_entries(*final(map)) == session_entries(*old(map)).remove(key@),
        r == entry_of(session_entries(*old(map)), key@),
{
    map.remove(key).map(|entry| entry.1)
}

/// How a session starts.
#[derive(Clone, Copy, Debug, PartialEq, Eq, Structural)]
pub struct SessionStart {
    /// Whether the server resumed an earlier session of the client.
    pub session_present: bool,
    /// The connection that served the client before and is to be closed
    /// with `SessionTakenOver`.
    pub taken_over: Option<u64>,
}

/// The sessions of the broker, by client identifier. Its view maps each
/// client with a session to the handle of its connection.
pub struct SessionTable {
    sessions: DashMap<String, u64>,
}

impl View for SessionTable {
    type V = Map<Seq<char>, u64>;

    closed spec fn view(&self) -> Map<Seq<char>, u64> {
        session_entries(self.sessions)
    }
}

impl SessionTable {
    /// A table without sessions.
    pub fn new() -> (r: SessionTable)
        ensures
            r@ == Map::<Seq<char>, u64>::empty(),
    {
        let r = SessionTable { sessions: sessions_new() };
        proof {
            assert(r@ =~= Map::<Seq<char>, u64>::empty());
        }
        r
    }

    /// The connection that serves the client, if it has a session.
    pub fn get(&self, client_id: &ClientId) -> (r: Option<u64>)
        ensures
            r == entry_of(self@, client_id@),
    {
        sessions_get(&self.sessions, client_id.as_str())
    }

    /// Hands the session of the client, if it has one, to `connection`, and
    /// says which connection held it before.
    pub fn takeover(&mut self, client_id: &ClientId, connection: u64) -> (r: Option<u64>)
        ensures
            r == entry_of(old(self)@, client_id@),
            final(self)@ == if old(self)@.dom().contains(client_id@) {
                old(self)@.insert(client_id@, connection)
            } else {
                old(self)@
            },
    {
        match sessions_get(&self.sessions, client_id.as_str()) {
            Some(previous) => {
                let _ = sessions_insert(&mut self.sessions, client_id.as_str().to_owned(), connection);
                Some(previous)
            },
            None => None,
        }
    }

    /// Starts a session for the client on `connection`. With `clean_start`
    /// an earlier session is dropped first. The client has a session
    /// afterwards; it is reported as present when there was one before and
    /// it was not dropped.
    pub fn connect(&mut self, client_id: &ClientId, clean_start: bool, connection: u64) -> (r:
        SessionStart)
        ensures
            r.session_present == (old(self)@.dom().contains(client_id@) && !clean_start),
            r.taken_over == entry_of(old(self)@, client_id@),
            final(self)@ == old(self)@.insert(client_id@, connection),
    {
        let previous = if clean_start {
            sessions_remove(&mut self.sessions, client_id.as_str())
        } else {
            sessions_get(&self.sessions, client_id.as_str())
        };
        let _ = sessions_insert(&mut self.sessions, client_id.as_str().to_owned(), connection);
        proof {
            assert(self@ =~= old(self)@.insert(client_id@, connection));
        }
        SessionStart { session_present: previous.is_some() && !clean_start, taken_over: previous }
    }

    /// Ends the session of the client, where `connection` still holds it.
    /// A session that another connection took over stays.
    pub fn release(&mut self, client_id: &ClientId, connection: u64) -> (r: Option<u64>)
        ensures
            r == entry_of(old(self)@, client_id@),
            final(self)@ == if entry_of(old(self)@, client_id@) == Some(connection) {
                old(self)@.remove(client_id@)
            } else {
                old(self)@
            },
    {
        let current = sessions_get(&self.sessions, client_id.as_str());
        match current {
            Some(holder) => {
                if holder == connection {
                    let _ = sessions_remove(&mut self.sessions, client_id.as_str());
                }
            },
            None => {},
        }
        current
    }
}

/// A second CONNECT under the same identifier takes the session over: it
/// finds the session present, learns which connection to close, and holds
/// the session afterwards.
pub proof fn lemma_second_connect_takes_over(
    table: Map<Seq<char>, u64>,
    client_id: Seq<char>,
    first: u64,
    second: u64,
)
    ensures
        ({
            let after_first = table.insert(client_id, first);
            let after_second = after_first.insert(client_id, second);
            &&& after_first.dom().contains(client_id)
            &&& entry_of(after_first, client_id) == Some(first)
            &&& entry_of(after_second, client_id) == Some(second)
        }),
{
}

} // verus!
