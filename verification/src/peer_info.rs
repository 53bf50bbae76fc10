//! What is known about a single peer.

use crate::addr::SocketAddr;
use crate::clock::{reading, timestamp, timestamp_of, whole_seconds};
use crate::services::PeerServices;
use std::time::{Duration, SystemTimeError};
use vstd::prelude::*;

verus! {

/// What is known about a peer.
#[derive(Debug, Clone, Copy, PartialEq, Eq, Hash, Structural)]
pub struct PeerInfo {
    /// The peer's network address
    pub addr: SocketAddr,
    /// Last time we successfully connected to this peer
    pub last_seen: u64,
    /// Services offered by this peer
    pub services: PeerServices,
    /// The peer that told us about this peer
    pub source: SocketAddr,
    /// Last time we attempted to connect
    pub last_try: u64,
    /// Number of failed connection attempts
    pub attempts: u32,
    /// Whether this peer is in the tried set
    pub is_tried: bool,
}

impl PeerInfo {
    /// A peer that `source` told us about and that we have not dealt with yet.
    pub fn new(addr: SocketAddr, source: SocketAddr) -> (peer: Self)
        ensures
            peer == (PeerInfo {
                addr,
                last_seen: 0,
                services: PeerServices { services: 0 },
                source,
                last_try: 0,
                attempts: 0,
                is_tried: false,
            }),
    {
        PeerInfo {
            addr,
            last_seen: 0,
            services: PeerServices::none(),
            source,
            last_try: 0,
            attempts: 0,
            is_tried: false,
        }
    }

    /// Notes a successful connection at a Unix timestamp.
    pub fn seen_at_timestamp(&mut self, secs: u64)
        ensures
            *final(self) == (PeerInfo { last_seen: secs, ..*old(self) }),
    {
        self.last_seen = secs;
    }

    /// Notes an attempt to connect at a Unix timestamp.
    pub fn tried_at_timestamp(&mut self, secs: u64)
        requires
            old(self).attempts < u32::MAX,
        ensures
            *final(self) == (PeerInfo {
                last_try: secs,
                attempts: (old(self).attempts + 1) as u32,
                ..*old(self)
            }),
    {
        self.last_try = secs;
        self.attempts += 1;
    }

    /// Notes a successful connection at the moment that the clock reading gives.
    pub fn seen_at(&mut self, elapsed: &Result<Duration, SystemTimeError>)
        ensures
            *final(self) == (PeerInfo { last_seen: timestamp_of(*elapsed), ..*old(self) }),
    {
        self.seen_at_timestamp(timestamp(elapsed));
    }

    /// Notes an attempt to connect at the moment that the clock reading gives.
    pub fn tried_at(&mut self, elapsed: &Result<Duration, SystemTimeError>)
        requires
            old(self).attempts < u32::MAX,
        ensures
            *final(self) == (PeerInfo {
                last_try: timestamp_of(*elapsed),
                attempts: (old(self).attempts + 1) as u32,
                ..*old(self)
            }),
    {
        self.tried_at_timestamp(timestamp(elapsed));
    }

    /// Notes a successful connection now: `last_seen` becomes the timestamp of a reading of
    /// the clock. What a given reading makes of it is stated by `seen_at`.
    pub fn update_last_seen(&mut self)
        ensures
            *final(self) == (PeerInfo { last_seen: final(self).last_seen, ..*old(self) }),
            exists|elapsed: Result<Duration, SystemTimeError>|
                call_ensures(reading, (), elapsed) && final(self).last_seen
                    == #[trigger] timestamp_of(elapsed),
    {
        let elapsed = reading();
        self.seen_at(&elapsed);
    }

    /// Notes an attempt to connect now: `last_try` becomes the timestamp of a reading of the
    /// clock. What a given reading makes of it is stated by `tried_at`.
    pub fn update_last_try(&mut self)
        requires
            old(self).attempts < u32::MAX,
        ensures
            *final(self) == (PeerInfo {
                last_try: final(self).last_try,
                attempts: (old(self).attempts + 1) as u32,
                ..*old(self)
            }),
            exists|elapsed: Result<Duration, SystemTimeError>|
                call_ensures(reading, (), elapsed) && final(self).last_try
                    == #[trigger] timestamp_of(elapsed),
    {
        let elapsed = reading();
        self.tried_at(&elapsed);
    }
}

/// A peer that we just heard of has its address and source, and is otherwise blank.
pub proof fn law_new_peer_is_blank(addr: SocketAddr, source: SocketAddr, peer: PeerInfo)
    requires
        call_ensures(PeerInfo::new, (addr, source), peer),
    ensures
        peer.addr == addr,
        peer.source == source,
        peer.last_seen == 0,
        peer.last_try == 0,
        peer.attempts == 0,
        peer.services.services == 0,
        !peer.is_tried,
{
}

/// A connection that is noted, be it at a timestamp, at a clock reading or now, changes when
/// the peer was last seen and nothing else. It is then seen at that timestamp, at the whole
/// seconds of that reading, or at what some reading of the clock stands for.
pub proof fn law_noting_a_connection(
    given: &mut PeerInfo,
    read: &mut PeerInfo,
    now: &mut PeerInfo,
    secs: u64,
    elapsed: Result<Duration, SystemTimeError>,
)
    requires
        call_ensures(PeerInfo::seen_at_timestamp, (given, secs), ()),
        call_ensures(PeerInfo::seen_at, (read, &elapsed), ()),
        call_ensures(PeerInfo::update_last_seen, (now,), ()),
    ensures
        *final(given) == (PeerInfo { last_seen: secs, ..*old(given) }),
        *final(read) == (PeerInfo { last_seen: final(read).last_seen, ..*old(read) }),
        elapsed matches Ok(span) ==> final(read).last_seen == whole_seconds(span),
        elapsed is Err ==> final(read).last_seen == 0,
        *final(now) == (PeerInfo { last_seen: final(now).last_seen, ..*old(now) }),
        exists|reading_now: Result<Duration, SystemTimeError>| #[trigger]
            call_ensures(reading, (), reading_now) && match reading_now {
                Ok(span) => final(now).last_seen == whole_seconds(span),
                Err(_) => final(now).last_seen == 0,
            },
{
    let reading_now = choose|reading_now: Result<Duration, SystemTimeError>|
        call_ensures(reading, (), reading_now) && final(now).last_seen == #[trigger] timestamp_of(
            reading_now,
        );
    assert(call_ensures(reading, (), reading_now));
}

/// An attempt that is noted, be it at a timestamp, at a clock reading or now, counts one
/// attempt more and changes when the peer was last tried, and nothing else.
pub proof fn law_noting_an_attempt(
    given: &mut PeerInfo,
    read: &mut PeerInfo,
    now: &mut PeerInfo,
    secs: u64,
    elapsed: Result<Duration, SystemTimeError>,
)
    requires
        old(given).attempts < u32::MAX,
        old(read).attempts < u32::MAX,
        old(now).attempts < u32::MAX,
        call_ensures(PeerInfo::tried_at_timestamp, (given, secs), ()),
        call_ensures(PeerInfo::tried_at, (read, &elapsed), ()),
        call_ensures(PeerInfo::update_last_try, (now,), ()),
    ensures
        final(given).attempts == old(given).attempts + 1,
        final(given).last_try == secs,
        *final(given) == (PeerInfo {
            last_try: final(given).last_try,
            attempts: final(given).attempts,
            ..*old(given)
        }),
        final(read).attempts == old(read).attempts + 1,
        elapsed matches Ok(span) ==> final(read).last_try == whole_seconds(span),
        elapsed is Err ==> final(read).last_try == 0,
        *final(read) == (PeerInfo {
            last_try: final(read).last_try,
            attempts: final(read).attempts,
            ..*old(read)
        }),
        final(now).attempts == old(now).attempts + 1,
        exists|reading_now: Result<Duration, SystemTimeError>| #[trigger]
            call_ensures(reading, (), reading_now) && match reading_now {
                Ok(span) => final(now).last_try == whole_seconds(span),
                Err(_) => final(now).last_try == 0,
            },
        *final(now) == (PeerInfo {
            last_try: final(now).last_try,
            attempts: final(now).attempts,
            ..*old(now)
        }),
{
    let reading_now = choose|reading_now: Result<Duration, SystemTimeError>|
        call_ensures(reading, (), reading_now) && final(now).last_try == #[trigger] timestamp_of(
            reading_now,
        );
    assert(call_ensures(reading, (), reading_now));
}

/// An attempt can be noted as long as the count of attempts is not at its end.
pub proof fn law_an_attempt_can_be_noted(
    peer: &mut PeerInfo,
    secs: u64,
    elapsed: Result<Duration, SystemTimeError>,
)
    requires
        old(peer).attempts < u32::MAX,
    ensures
        call_requires(PeerInfo::tried_at_timestamp, (peer, secs)),
        call_requires(PeerInfo::tried_at, (peer, &elapsed)),
        call_requires(PeerInfo::update_last_try, (peer,)),
{
}

} // verus!
