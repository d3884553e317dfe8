//! The table of running uploads, keyed by session identifier.
//!
//! The sessions live in a `DashMap`. Every operation that changes the table
//! takes it by `&mut`, so that what a contract says of the table before and
//! after a call is what the caller finds there: whoever holds the table
//! mutably holds every session of it exclusively.

use dashmap::DashMap;
use vstd::prelude::*;

use crate::session::UploadSession;

verus! {

/// `dashmap::DashMap`, a hash map that is taken as it is: nothing is known of
/// a map but what the functions below say of it.
#[verifier::external_type_specification]
#[verifier::external_body]
#[verifier::reject_recursive_types(K)]
#[verifier::reject_recursive_types(V)]
#[verifier::reject_recursive_types(S)]
pub struct ExDashMap<K, V, S>(DashMap<K, V, S>);

/// The sessions that a map holds, each under the characters of its key.
pub uninterp spec fn entries_of(sessions: DashMap<String, UploadSession>) -> Map<Seq<char>, UploadSession>;

/// The table that holds no session.
pub open spec fn no_sessions() -> Map<Seq<char>, UploadSession> {
    Map::empty()
}

/// Every session of the table has its cursor within its declared size.
pub open spec fn within_size(table: Map<Seq<char>, UploadSession>) -> bool {
    forall|id: Seq<char>| table.contains_key(id) ==> (#[trigger] table[id])@.wf()
}

/// `DashMap::new` makes a map that holds nothing.
#[verifier::external_body]
fn map_new() -> (made: DashMap<String, UploadSession>)
    ensures
        entries_of(made) == no_sessions(),
{
    DashMap::new()
}

/// `DashMap::insert` puts the value under the key, in place of whatever was
/// there, and leaves every other key alone.
#[verifier::external_body]
fn map_insert(sessions: &mut DashMap<String, UploadSession>, key: String, value: UploadSession)
    ensures
        entries_of(*final(sessions)) == entries_of(*old(sessions)).insert(key@, value),
{
    sessions.insert(key, value);
}

/// `DashMap::get` finds the value under the key, if there is one. The value
/// is copied out, and the reference into the map is given up at once.
#[verifier::external_body]
fn map_get(sessions: &DashMap<String, UploadSession>, key: &str) -> (found: Option<UploadSession>)
    ensures
        found == if entries_of(*sessions).contains_key(key@) {
            Some(entries_of(*sessions)[key@])
        } else {
            None
        },
{
    sessions.get(key).map(|entry| *entry.value())
}

/// `DashMap::contains_key` tells whether the map holds a value under the key.
#[verifier::external_body]
fn map_contains(sessions: &DashMap<String, UploadSession>, key: &str) -> (held: bool)
    ensures
        held == entries_of(*sessions).contains_key(key@),
{
    sessions.contains_key(key)
}

/// `DashMap::remove` takes the key and its value out of the map and hands
/// the value back; a map without the key stays as it is.
#[verifier::external_body]
fn map_remove(sessions: &mut DashMap<String, UploadSession>, key: &str) -> (removed: Option<UploadSession>)
    ensures
        entries_of(*final(sessions)) == entries_of(*old(sessions)).remove(key@),
        removed == if entries_of(*old(sessions)).contains_key(key@) {
            Some(entries_of(*old(sessions))[key@])
        } else {
            None
        },
{
    sessions.remove(key).map(|pair| pair.1)
}

/// The running uploads.
pub struct SessionTable {
    sessions: DashMap<String, UploadSession>,
}

impl View for SessionTable {
    type V = Map<Seq<char>, UploadSession>;

    closed spec fn view(&self) -> Map<Seq<char>, UploadSession> {
        entries_of(self.sessions)
    }
}

impl SessionTable {
    /// Makes a table without sessions.
    pub fn new() -> (table: SessionTable)
        ensures
            table@ == no_sessions(),
            within_size(table@),
    {
        SessionTable { sessions: map_new() }
    }

    /// Puts `session` under `id`, in place of a session that was there.
    pub fn insert(&mut self, id: String, session: UploadSession)
        ensures
            final(self)@ == old(self)@.insert(id@, session),
            within_size(old(self)@) && session@.wf() ==> within_size(final(self)@),
    {
        map_insert(&mut self.sessions, id, session);
    }

    /// Returns the session under `id`, if there is one.
    pub fn get(&self, id: &str) -> (found: Option<UploadSession>)
        ensures
            found == if self@.contains_key(id@) {
                Some(self@[id@])
            } else {
                None
            },
    {
        map_get(&self.sessions, id)
    }

    /// Tells whether there is a session under `id`.
    pub fn contains(&self, id: &str) -> (held: bool)
        ensures
            held == self@.contains_key(id@),
    {
        map_contains(&self.sessions, id)
    }

    /// Takes the session under `id` out of the table and returns it.
    pub fn remove(&mut self, id: &str) -> (removed: Option<UploadSession>)
        ensures
            final(self)@ == old(self)@.remove(id@),
            removed == if old(self)@.contains_key(id@) {
                Some(old(self)@[id@])
            } else {
                None
            },
            within_size(old(self)@) ==> within_size(final(self)@),
    {
        map_remove(&mut self.sessions, id)
    }
}

} // verus!
