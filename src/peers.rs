use vstd::prelude::*;

use crate::types::PeerId;

verus! {

/// Peers with requests in flight, each with the number of its requests in flight, in
/// a `schnellru::LruMap` bounded by length.
#[verifier::external_body]
pub struct ActivePeers {
    map: schnellru::LruMap<PeerId, u8, schnellru::ByLength>,
}

/// What an `ActivePeers` map holds: peer to number of requests in flight.
pub uninterp spec fn active_counts(m: ActivePeers) -> Map<PeerId, u8>;

/// The largest number of peers an `ActivePeers` map holds (its length limit).
pub uninterp spec fn active_limit(m: ActivePeers) -> nat;

/// The value recorded for `k` in `m`, if any.
pub open spec fn lookup(m: Map<PeerId, u8>, k: PeerId) -> Option<u8> {
    if m.contains_key(k) {
        Some(m[k])
    } else {
        None
    }
}

/// Relies on `schnellru::LruMap::new` with `schnellru::ByLength::new(max)`: an empty map
/// that holds at most `max` entries.
#[verifier::external_body]
pub(crate) fn active_peers_new(max: u32) -> (r: ActivePeers)
    ensures
        active_counts(r).dom() == Set::<PeerId>::empty(),
        active_limit(r) == max,
{
    ActivePeers { map: schnellru::LruMap::new(schnellru::ByLength::new(max)) }
}

/// Relies on `schnellru::LruMap::len`: the number of entries.
#[verifier::external_body]
pub(crate) fn active_peers_len(m: &ActivePeers) -> (r: usize)
    ensures
        r == active_counts(*m).len(),
{
    m.map.len()
}

/// Relies on `schnellru::LruMap::peek`: the value for `k`, leaving the map as it is.
#[verifier::external_body]
pub(crate) fn active_peers_peek(m: &ActivePeers, k: &PeerId) -> (r: Option<u8>)
    ensures
        r == lookup(active_counts(*m), *k),
{
    m.map.peek(k).copied()
}

/// Relies on `schnellru::LruMap::get`: the value for `k`; the entry becomes the most
/// recently used, which changes no entry.
#[verifier::external_body]
pub(crate) fn active_peers_get(m: &mut ActivePeers, k: &PeerId) -> (r: Option<u8>)
    ensures
        r == lookup(active_counts(*old(m)), *k),
        active_counts(*final(m)) == active_counts(*old(m)),
        active_limit(*final(m)) == active_limit(*old(m)),
{
    m.map.get(k).copied()
}

/// Relies on `schnellru::LruMap::insert` under a `ByLength` limiter. A present key has
/// its value replaced and stays. A new key is refused only when the limit is zero
/// (`ByLength::on_insert`); otherwise it goes in, evicting the least recently used
/// entry when the map is full and nothing while it is below the limit. The one other
/// path, where the table cannot grow and entries are evicted or the insertion given
/// up, is taken only when the allocator refuses memory, which these clauses leave out
/// as std's own collections do. Nothing else changes.
#[verifier::external_body]
pub(crate) fn active_peers_insert(m: &mut ActivePeers, k: PeerId, v: u8) -> (r: bool)
    ensures
        active_limit(*final(m)) == active_limit(*old(m)),
        active_counts(*old(m)).contains_key(k) ==> r && active_counts(*final(m)) == active_counts(
            *old(m),
        ).insert(k, v),
        r ==> active_counts(*final(m)).contains_key(k) && active_counts(*final(m))[k] == v
            && active_counts(*final(m)).remove(k).submap_of(active_counts(*old(m))),
        !r ==> !active_counts(*final(m)).contains_key(k) && active_counts(*final(m)).submap_of(
            active_counts(*old(m)),
        ),
        active_limit(*old(m)) > 0 ==> r,
        active_counts(*old(m)).len() < active_limit(*old(m)) ==> active_counts(*final(m))
            == active_counts(*old(m)).insert(k, v),
{
    m.map.insert(k, v)
}

/// Relies on `schnellru::LruMap::remove`: removes `k` and returns its value.
#[verifier::external_body]
pub(crate) fn active_peers_remove(m: &mut ActivePeers, k: &PeerId) -> (r: Option<u8>)
    ensures
        r == lookup(active_counts(*old(m)), *k),
        active_counts(*final(m)) == active_counts(*old(m)).remove(*k),
        active_limit(*final(m)) == active_limit(*old(m)),
{
    m.map.remove(k)
}

} // verus!
