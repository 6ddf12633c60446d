//! The node's connections.
//!
//! Connections are kept in concurrent maps of the `dashmap` crate. The wrappers
//! at the head of this file say what the operations of such a map do to its
//! contents.

use crate::session::Membership;
use vstd::prelude::*;

verus! {

/// The concurrent map of the `dashmap` crate.
#[verifier::external_type_specification]
#[verifier::external_body]
#[verifier::reject_recursive_types(K)]
#[verifier::reject_recursive_types(V)]
#[verifier::reject_recursive_types(S)]
pub struct ExDashMap<K, V, S>(dashmap::DashMap<K, V, S>);

/// What a map from sessions to connections holds.
pub uninterp spec fn session_entries(m: dashmap::DashMap<u64, u64>) -> Map<u64, u64>;

/// `DashMap::new` makes a map without entries.
#[verifier::external_body]
fn sessions_new() -> (map: dashmap::DashMap<u64, u64>)
    ensures
        session_entries(map).is_empty(),
{
    dashmap::DashMap::new()
}

/// `DashMap::insert` puts the value under the key, in place of what was there.
#[verifier::external_body]
fn sessions_insert(map: &mut dashmap::DashMap<u64, u64>, key: u64, value: u64)
    ensures
        session_entries(*final(map)) == session_entries(*old(map)).insert(key, value),
{
    map.insert(key, value);
}

/// `DashMap::remove` takes the entry under the key out, where there is one.
#[verifier::external_body]
fn sessions_remove(map: &mut dashmap::DashMap<u64, u64>, key: u64)
    ensures
        session_entries(*final(map)) == session_entries(*old(map)).remove(key),
{
    map.remove(&key);
}

/// `DashMap::get` returns the value under the key, where there is one.
#[verifier::external_body]
fn sessions_get(map: &dashmap::DashMap<u64, u64>, key: u64) -> (r: Option<u64>)
    ensures
        r == session_entries(*map).get(key),
{
    map.get(&key).map(|entry| *entry)
}

/// `DashMap::len` returns the number of entries, of which there are finitely
/// many.
#[verifier::external_body]
fn sessions_len(map: &dashmap::DashMap<u64, u64>) -> (r: usize)
    ensures
        r == session_entries(*map).dom().len(),
{
    map.len()
}

/// A live connection: the session that it serves and its own number. The writer
/// of the connection is found by that number.
#[derive(Copy, Clone, Debug, PartialEq, Eq, Structural)]
pub struct ConnectionHandle {
    pub session_id: u64,
    pub connection: u64,
}

/// The live connections of the node, by session.
pub struct Connections {
    live: dashmap::DashMap<u64, u64>,
}

impl View for Connections {
    type V = Map<u64, u64>;

    closed spec fn view(&self) -> Map<u64, u64> {
        session_entries(self.live)
    }
}

impl Connections {
    /// No connections.
    pub fn new() -> (r: Self)
        ensures
            r@ == Map::<u64, u64>::empty(),
    {
        let r = Connections { live: sessions_new() };
        assert(r@ =~= Map::<u64, u64>::empty());
        r
    }

    /// Lets a connection serve a session.
    pub fn insert(&mut self, session_id: u64, connection: u64)
        ensures
            final(self)@ == old(self)@.insert(session_id, connection),
    {
        sessions_insert(&mut self.live, session_id, connection);
    }

    /// Ends the service of a session.
    pub fn remove(&mut self, session_id: u64)
        ensures
            final(self)@ == old(self)@.remove(session_id),
    {
        sessions_remove(&mut self.live, session_id);
    }

    /// The connection that serves a session.
    pub fn get(&self, session_id: u64) -> (r: Option<ConnectionHandle>)
        ensures
            match r {
                Some(c) => self@.contains_key(session_id) && c == (ConnectionHandle {
                    session_id,
                    connection: self@[session_id],
                }),
                None => !self@.contains_key(session_id),
            },
    {
        match sessions_get(&self.live, session_id) {
            Some(connection) => Some(ConnectionHandle { session_id, connection }),
            None => None,
        }
    }

    /// The number of sessions that are served.
    pub fn len(&self) -> (r: usize)
        ensures
            r == self@.dom().len(),
    {
        sessions_len(&self.live)
    }
}

/// A remote address: the version of its protocol and its number.
pub type PeerAddress = (u8, u128);

/// What a map from remote addresses to numbers of connections holds.
pub uninterp spec fn address_entries(m: dashmap::DashMap<(u8, u128), usize>) -> Map<
    (u8, u128),
    usize,
>;

/// `DashMap::new` makes a map without entries.
#[verifier::external_body]
fn addresses_new() -> (map: dashmap::DashMap<(u8, u128), usize>)
    ensures
        address_entries(map).is_empty(),
{
    dashmap::DashMap::new()
}

/// `DashMap::insert` puts the value under the key, in place of what was there.
#[verifier::external_body]
fn addresses_insert(map: &mut dashmap::DashMap<(u8, u128), usize>, key: (u8, u128), value: usize)
    ensures
        address_entries(*final(map)) == address_entries(*old(map)).insert(key, value),
{
    map.insert(key, value);
}

/// `DashMap::remove` takes the entry under the key out, where there is one.
#[verifier::external_body]
fn addresses_remove(map: &mut dashmap::DashMap<(u8, u128), usize>, key: (u8, u128))
    ensures
        address_entries(*final(map)) == address_entries(*old(map)).remove(key),
{
    map.remove(&key);
}

/// `DashMap::get` returns the value under the key, where there is one.
#[verifier::external_body]
fn addresses_get(map: &dashmap::DashMap<(u8, u128), usize>, key: (u8, u128)) -> (r: Option<usize>)
    ensures
        r == address_entries(*map).get(key),
{
    map.get(&key).map(|entry| *entry)
}

/// The number of live connections of each remote address.
pub struct AddressCounts {
    counts: dashmap::DashMap<(u8, u128), usize>,
}

impl View for AddressCounts {
    type V = Map<(u8, u128), usize>;

    closed spec fn view(&self) -> Map<(u8, u128), usize> {
        address_entries(self.counts)
    }
}

/// The number of connections of an address.
pub open spec fn count_of(counts: Map<(u8, u128), usize>, address: PeerAddress) -> usize {
    if counts.contains_key(address) {
        counts[address]
    } else {
        0
    }
}

/// The counts after a connection of an address has gone. An address without a
/// connection has no entry.
pub open spec fn one_less(
    counts: Map<(u8, u128), usize>,
    address: PeerAddress,
) -> Map<(u8, u128), usize> {
    if !counts.contains_key(address) {
        counts
    } else if counts[address] <= 1 {
        counts.remove(address)
    } else {
        counts.insert(address, (counts[address] - 1) as usize)
    }
}

/// The counts after a connection of an address has failed to come about. The
/// entry of the address stays.
pub open spec fn one_failed(
    counts: Map<(u8, u128), usize>,
    address: PeerAddress,
) -> Map<(u8, u128), usize> {
    if !counts.contains_key(address) || counts[address] == 0 {
        counts
    } else {
        counts.insert(address, (counts[address] - 1) as usize)
    }
}

impl AddressCounts {
    /// No connections.
    pub fn new() -> (r: Self)
        ensures
            r@ == Map::<(u8, u128), usize>::empty(),
    {
        let r = AddressCounts { counts: addresses_new() };
        assert(r@ =~= Map::<(u8, u128), usize>::empty());
        r
    }

    /// The number of connections of an address.
    pub fn count(&self, address: PeerAddress) -> (r: usize)
        ensures
            r == count_of(self@, address),
    {
        match addresses_get(&self.counts, address) {
            Some(n) => n,
            None => 0,
        }
    }

    /// Counts one more connection of an address.
    pub fn increase(&mut self, address: PeerAddress)
        requires
            count_of(old(self)@, address) < usize::MAX,
        ensures
            final(self)@ == old(self)@.insert(
                address,
                (count_of(old(self)@, address) + 1) as usize,
            ),
    {
        let n: usize = self.count(address);
        addresses_insert(&mut self.counts, address, n + 1);
    }

    /// Counts one connection of an address less, after it has gone.
    pub fn decrease(&mut self, address: PeerAddress)
        ensures
            final(self)@ == one_less(old(self)@, address),
    {
        if let Some(n) = addresses_get(&self.counts, address) {
            if n <= 1 {
                addresses_remove(&mut self.counts, address);
            } else {
                addresses_insert(&mut self.counts, address, n - 1);
            }
        }
    }

    /// Counts one connection of an address less, after it has failed to come
    /// about.
    pub fn decrease_failed(&mut self, address: PeerAddress)
        ensures
            final(self)@ == one_failed(old(self)@, address),
    {
        if let Some(n) = addresses_get(&self.counts, address) {
            if n > 0 {
                addresses_insert(&mut self.counts, address, n - 1);
            }
        }
    }
}

/// What a map of suspended sessions holds: for each session the federation and
/// the federate that it is a member as, and its deadline.
pub uninterp spec fn suspended_entries(m: dashmap::DashMap<u64, (u64, u32, u128)>) -> Map<
    u64,
    (u64, u32, u128),
>;

/// `DashMap::new` makes a map without entries.
#[verifier::external_body]
fn suspended_new() -> (map: dashmap::DashMap<u64, (u64, u32, u128)>)
    ensures
        suspended_entries(map).is_empty(),
{
    dashmap::DashMap::new()
}

/// `DashMap::insert` puts the value under the key, in place of what was there.
#[verifier::external_body]
fn suspended_insert(
    map: &mut dashmap::DashMap<u64, (u64, u32, u128)>,
    key: u64,
    value: (u64, u32, u128),
)
    ensures
        suspended_entries(*final(map)) == suspended_entries(*old(map)).insert(key, value),
{
    map.insert(key, value);
}

/// `DashMap::remove` takes the entry under the key out and returns its value,
/// where there is one.
#[verifier::external_body]
fn suspended_remove(map: &mut dashmap::DashMap<u64, (u64, u32, u128)>, key: u64) -> (r: Option<
    (u64, u32, u128),
>)
    ensures
        suspended_entries(*final(map)) == suspended_entries(*old(map)).remove(key),
        r == suspended_entries(*old(map)).get(key),
{
    map.remove(&key).map(|entry| entry.1)
}

/// `DashMap::iter` hands out each entry once, in no particular order; its key is
/// kept.
#[verifier::external_body]
fn suspended_keys(map: &dashmap::DashMap<u64, (u64, u32, u128)>) -> (r: Vec<u64>)
    ensures
        r@.to_set() == suspended_entries(*map).dom(),
        r@.no_duplicates(),
{
    map.iter().map(|entry| *entry.key()).collect()
}

/// `DashMap::get` returns the value under the key, where there is one.
#[verifier::external_body]
fn suspended_get(map: &dashmap::DashMap<u64, (u64, u32, u128)>, key: u64) -> (r: Option<
    (u64, u32, u128),
>)
    ensures
        r == suspended_entries(*map).get(key),
{
    map.get(&key).map(|entry| *entry)
}

/// A session whose connection was lost. It can be resumed before the deadline;
/// after it the federate resigns.
#[derive(Copy, Clone, Debug, PartialEq, Eq, Structural)]
pub struct SuspendedSession {
    pub membership: Option<Membership>,
    /// In nanoseconds of the node's clock.
    pub deadline: u128,
}

/// The suspended sessions of the node.
pub struct SuspendedSessions {
    waiting: dashmap::DashMap<u64, (u64, u32, u128)>,
}

/// The suspended session that an entry stands for.
spec fn suspended_as(entry: (u64, u32, u128)) -> SuspendedSession {
    SuspendedSession {
        membership: Some(Membership { federation: entry.0, federate_handle: entry.1 }),
        deadline: entry.2,
    }
}

impl View for SuspendedSessions {
    type V = Map<u64, SuspendedSession>;

    closed spec fn view(&self) -> Map<u64, SuspendedSession> {
        suspended_entries(self.waiting).map_values(|e: (u64, u32, u128)| suspended_as(e))
    }
}

impl SuspendedSessions {
    /// No suspended sessions.
    pub fn new() -> (r: Self)
        ensures
            r@ == Map::<u64, SuspendedSession>::empty(),
    {
        let r = SuspendedSessions { waiting: suspended_new() };
        assert(r@ =~= Map::<u64, SuspendedSession>::empty());
        r
    }

    /// Lets a session wait until a deadline.
    pub fn insert(&mut self, session_id: u64, membership: Membership, deadline: u128)
        ensures
            final(self)@ == old(self)@.insert(
                session_id,
                SuspendedSession { membership: Some(membership), deadline },
            ),
    {
        suspended_insert(
            &mut self.waiting,
            session_id,
            (membership.federation, membership.federate_handle, deadline),
        );
        assert(self@ =~= old(self)@.insert(
            session_id,
            SuspendedSession { membership: Some(membership), deadline },
        ));
    }

    /// A suspended session.
    pub fn get(&self, session_id: u64) -> (r: Option<SuspendedSession>)
        ensures
            r == self@.get(session_id),
    {
        match suspended_get(&self.waiting, session_id) {
            Some(e) => Some(
                SuspendedSession {
                    membership: Some(Membership { federation: e.0, federate_handle: e.1 }),
                    deadline: e.2,
                },
            ),
            None => None,
        }
    }

    /// Takes a session out.
    pub fn remove(&mut self, session_id: u64) -> (r: Option<SuspendedSession>)
        ensures
            final(self)@ == old(self)@.remove(session_id),
            r == old(self)@.get(session_id),
    {
        let found = suspended_remove(&mut self.waiting, session_id);
        assert(self@ =~= old(self)@.remove(session_id));
        match found {
            Some(e) => Some(
                SuspendedSession {
                    membership: Some(Membership { federation: e.0, federate_handle: e.1 }),
                    deadline: e.2,
                },
            ),
            None => None,
        }
    }

    /// The number of suspended sessions.
    pub fn len(&self) -> (r: usize)
        ensures
            r == self@.dom().len(),
    {
        let keys = suspended_keys(&self.waiting);
        proof {
            keys@.unique_seq_to_set();
            assert(self@.dom() =~= suspended_entries(self.waiting).dom());
        }
        keys.len()
    }

    /// The sessions whose deadline has come, in no particular order.
    pub fn expired(&self, now: u128) -> (r: Vec<u64>)
        ensures
            forall|s: u64| #[trigger]
                r@.contains(s) <==> self@.contains_key(s) && self@[s].deadline <= now,
            r@.no_duplicates(),
    {
        let keys = suspended_keys(&self.waiting);
        let mut r: Vec<u64> = Vec::new();
        let mut i: usize = 0;
        while i < keys.len()
            invariant
                i <= keys@.len(),
                keys@.to_set() == suspended_entries(self.waiting).dom(),
                keys@.no_duplicates(),
                r@.no_duplicates(),
                forall|s: u64| #[trigger]
                    r@.contains(s) <==> self@.contains_key(s) && self@[s].deadline <= now
                        && exists|k: int| 0 <= k < i && keys@[k] == s,
            decreases keys@.len() - i,
        {
            let s = keys[i];
            let ghost seen = r@;
            proof {
                assert(keys@.to_set().contains(keys@[i as int]));
            }
            if let Some(e) = suspended_get(&self.waiting, s) {
                if e.2 <= now {
                    proof {
                        if r@.contains(s) {
                            let k = choose|k: int| 0 <= k < i && keys@[k] == s;
                            assert(keys@[k] == keys@[i as int]);
                        }
                    }
                    r.push(s);
                    assert(r@[r@.len() - 1] == s);
                    assert forall|t: u64| r@.contains(t) <==> seen.contains(t) || t == s by {
                        broadcast use vstd::seq_lib::group_seq_properties;
                    }
                }
            }
            assert forall|t: u64| #[trigger] r@.contains(t) <==> self@.contains_key(t)
                && self@[t].deadline <= now && exists|k: int| 0 <= k < i + 1 && keys@[k] == t by {
                if t == s {
                    assert(keys@[i as int] == t);
                }
                if seen.contains(t) {
                    let k = choose|k: int| 0 <= k < i && keys@[k] == t;
                    assert(0 <= k < i + 1 && keys@[k] == t);
                }
            }
            i = i + 1;
        }
        proof {
            assert forall|s: u64| #[trigger] r@.contains(s) <==> self@.contains_key(s)
                && self@[s].deadline <= now by {
                if self@.contains_key(s) {
                    assert(keys@.to_set().contains(s));
                    let k = keys@.index_of(s);
                    assert(keys@[k] == s);
                }
            }
        }
        r
    }
}

} // verus!
