//! Network addresses of peers.

use std::collections::hash_map::DefaultHasher;
use std::hash::Hasher;
use vstd::bytes::{
    spec_u128_from_le_bytes, spec_u128_to_le_bytes, spec_u16_from_le_bytes, spec_u16_to_le_bytes,
    spec_u32_from_le_bytes, spec_u32_to_le_bytes, u128_to_le_bytes, u16_to_le_bytes,
    u32_to_le_bytes,
};
use vstd::prelude::*;
use vstd::std_specs::hash::DefaultHasherAdditionalSpecFns;

verus! {

/// An IPv4 address and a port.
#[derive(Clone, Copy, Debug, PartialEq, Eq, Hash, Structural)]
pub struct SocketAddrV4 {
    /// The number that the four octets of the address spell, first octet highest.
    pub ip: u32,
    pub port: u16,
}

/// An IPv6 address and a port, with the flow label and the scope of the address.
#[derive(Clone, Copy, Debug, PartialEq, Eq, Hash, Structural)]
pub struct SocketAddrV6 {
    /// The number that the sixteen octets of the address spell, first octet highest.
    pub ip: u128,
    pub port: u16,
    pub flowinfo: u32,
    pub scope_id: u32,
}

/// The network address of a peer.
#[derive(Clone, Copy, Debug, PartialEq, Eq, Hash, Structural)]
pub enum SocketAddr {
    V4(SocketAddrV4),
    V6(SocketAddrV6),
}

impl SocketAddr {
    /// What the address feeds to a hasher, one item for each write.
    pub open spec fn hash_input(self) -> Seq<Seq<u8>> {
        match self {
            SocketAddr::V4(a) => seq![
                seq![4u8],
                spec_u32_to_le_bytes(a.ip),
                spec_u16_to_le_bytes(a.port),
            ],
            SocketAddr::V6(a) => seq![
                seq![6u8],
                spec_u128_to_le_bytes(a.ip),
                spec_u16_to_le_bytes(a.port),
                spec_u32_to_le_bytes(a.flowinfo),
                spec_u32_to_le_bytes(a.scope_id),
            ],
        }
    }

    /// The bucket that peers at this address are filed under.
    pub open spec fn bucket(self) -> u64 {
        DefaultHasher::spec_finish(self.hash_input())
    }
}

/// The bucket index for an address: the standard hasher's digest of its parts.
pub fn get_bucket(addr: &SocketAddr) -> (bucket: u64)
    ensures
        bucket == addr.bucket(),
{
    let mut hasher = DefaultHasher::new();
    match addr {
        SocketAddr::V4(a) => {
            let family: [u8; 1] = [4];
            hasher.write(&family);
            hasher.write(u32_to_le_bytes(a.ip).as_slice());
            hasher.write(u16_to_le_bytes(a.port).as_slice());
        },
        SocketAddr::V6(a) => {
            let family: [u8; 1] = [6];
            hasher.write(&family);
            hasher.write(u128_to_le_bytes(a.ip).as_slice());
            hasher.write(u16_to_le_bytes(a.port).as_slice());
            hasher.write(u32_to_le_bytes(a.flowinfo).as_slice());
            hasher.write(u32_to_le_bytes(a.scope_id).as_slice());
        },
    }
    assert(hasher@[0] =~= addr.hash_input()[0]);
    assert(hasher@ =~= addr.hash_input());
    hasher.finish()
}

/// Whether an address is listed.
pub fn contains_addr(addrs: &Vec<SocketAddr>, addr: SocketAddr) -> (found: bool)
    ensures
        found == addrs@.contains(addr),
{
    let mut i: usize = 0;
    while i < addrs.len()
        invariant
            i <= addrs.len(),
            forall|j: int| 0 <= j < i ==> addrs@[j] != addr,
        decreases addrs.len() - i,
    {
        if addrs[i] == addr {
            assert(addrs@[i as int] == addr);
            return true;
        }
        i = i + 1;
    }
    false
}

/// The bucket of an address is the hasher's digest of parts that tell addresses apart: two
/// addresses feed the hasher alike exactly when they are one address.
pub proof fn law_every_part_of_an_address_is_hashed(
    one: SocketAddr,
    other: SocketAddr,
    bucket: u64,
)
    requires
        call_ensures(get_bucket, (&one,), bucket),
    ensures
        bucket == DefaultHasher::spec_finish(one.hash_input()),
        one.hash_input() == other.hash_input() <==> one == other,
{
    vstd::bytes::lemma_auto_spec_u16_to_from_le_bytes();
    vstd::bytes::lemma_auto_spec_u32_to_from_le_bytes();
    vstd::bytes::lemma_auto_spec_u128_to_from_le_bytes();
    let x = one.hash_input();
    let y = other.hash_input();
    if x == y {
        assert(x[0][0] == y[0][0]);
        match (one, other) {
            (SocketAddr::V4(a), SocketAddr::V4(b)) => {
                assert(x[1] == y[1]);
                assert(spec_u32_to_le_bytes(a.ip).len() == 4);
                assert(spec_u32_to_le_bytes(b.ip).len() == 4);
                assert(spec_u32_from_le_bytes(x[1]) == a.ip);
                assert(x[2] == y[2]);
                assert(spec_u16_to_le_bytes(a.port).len() == 2);
                assert(spec_u16_to_le_bytes(b.port).len() == 2);
                assert(spec_u16_from_le_bytes(x[2]) == a.port);
            },
            (SocketAddr::V6(a), SocketAddr::V6(b)) => {
                assert(x[1] == y[1]);
                assert(spec_u128_to_le_bytes(a.ip).len() == 16);
                assert(spec_u128_to_le_bytes(b.ip).len() == 16);
                assert(spec_u128_from_le_bytes(x[1]) == a.ip);
                assert(x[2] == y[2]);
                assert(spec_u16_to_le_bytes(a.port).len() == 2);
                assert(spec_u16_to_le_bytes(b.port).len() == 2);
                assert(spec_u16_from_le_bytes(x[2]) == a.port);
                assert(x[3] == y[3]);
                assert(spec_u32_to_le_bytes(a.flowinfo).len() == 4);
                assert(spec_u32_to_le_bytes(b.flowinfo).len() == 4);
                assert(spec_u32_from_le_bytes(x[3]) == a.flowinfo);
                assert(x[4] == y[4]);
                assert(spec_u32_to_le_bytes(a.scope_id).len() == 4);
                assert(spec_u32_to_le_bytes(b.scope_id).len() == 4);
                assert(spec_u32_from_le_bytes(x[4]) == a.scope_id);
            },
            _ => {},
        }
    }
}

/// An address is found in a list exactly when it stands at some place in it.
pub proof fn law_listed_address_is_found(addrs: Vec<SocketAddr>, addr: SocketAddr, found: bool)
    requires
        call_ensures(contains_addr, (&addrs, addr), found),
    ensures
        found <==> exists|i: int| 0 <= i < addrs@.len() && #[trigger] addrs@[i] == addr,
{
}

} // verus!
