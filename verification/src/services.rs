//! The services that peers offer.

use vstd::prelude::*;

verus! {

/// The services that a peer offers, one bit for each service.
#[derive(Debug, Clone, Copy, PartialEq, Eq, Hash, Structural)]
pub struct PeerServices {
    pub services: u64,
}

impl PeerServices {
    /// No service at all.
    pub fn none() -> (s: Self)
        ensures
            s.services == 0,
    {
        PeerServices { services: 0 }
    }

    /// The peer serves full blocks.
    pub fn network() -> (s: Self)
        ensures
            s.services == 0x1,
    {
        PeerServices { services: 0x1 }
    }

    /// The peer answers bloom-filtered requests.
    pub fn bloom() -> (s: Self)
        ensures
            s.services == 0x2,
    {
        PeerServices { services: 0x2 }
    }

    /// The peer serves witness data.
    pub fn witness() -> (s: Self)
        ensures
            s.services == 0x4,
    {
        PeerServices { services: 0x4 }
    }

    /// The peer serves compact block filters.
    pub fn compact_filters() -> (s: Self)
        ensures
            s.services == 0x8,
    {
        PeerServices { services: 0x8 }
    }

    /// The peer serves only recent blocks.
    pub fn network_limited() -> (s: Self)
        ensures
            s.services == 0x400,
    {
        PeerServices { services: 0x400 }
    }

    /// The service of bit `bit` is among these.
    pub open spec fn offers(self, bit: u64) -> bool {
        bit < 64 && (self.services >> bit) & 1 == 1
    }

    /// The two have a service in common.
    pub open spec fn shares(self, other: Self) -> bool {
        self.services & other.services != 0
    }

    /// These services and those of `other` together.
    pub open spec fn with(self, other: Self) -> Self {
        PeerServices { services: self.services | other.services }
    }

    /// Whether any of the given services is offered.
    pub fn has_service(&self, service: Self) -> (found: bool)
        ensures
            found == self.shares(service),
    {
        (self.services & service.services) != 0
    }

    /// Adds the given services to those offered.
    pub fn add_service(&mut self, service: Self)
        ensures
            *final(self) == old(self).with(service),
    {
        self.services |= service.services;
    }
}

/// A nonzero rest of `x` above its lowest `from` bits has a set bit.
proof fn lemma_set_bit_from(x: u64, from: u64)
    requires
        from < 64,
        x >> from != 0,
    ensures
        exists|bit: u64| bit < 64 && #[trigger] (x >> bit) & 1 == 1,
    decreases 64 - from,
{
    if (x >> from) & 1 == 1 {
    } else {
        let next = (from + 1) as u64;
        assert(next < 64 && x >> next != 0) by (bit_vector)
            requires
                from < 64,
                x >> from != 0,
                (x >> from) & 1 != 1,
                next == from + 1,
        ;
        lemma_set_bit_from(x, next);
    }
}

/// Two peers share a service exactly when some service bit is offered by both.
pub proof fn law_shares_is_a_common_bit(a: PeerServices, b: PeerServices)
    ensures
        a.shares(b) <==> exists|bit: u64| #[trigger] a.offers(bit) && b.offers(bit),
{
    let x = a.services;
    let y = b.services;
    if x & y != 0 {
        let both = x & y;
        assert(both >> 0u64 == both) by (bit_vector);
        lemma_set_bit_from(both, 0);
        let bit = choose|bit: u64| bit < 64 && #[trigger] (both >> bit) & 1 == 1;
        assert((x >> bit) & 1 == 1 && (y >> bit) & 1 == 1) by (bit_vector)
            requires
                both == x & y,
                bit < 64,
                (both >> bit) & 1 == 1,
        ;
        assert(a.offers(bit) && b.offers(bit));
    }
    assert forall|bit: u64| #[trigger] a.offers(bit) && b.offers(bit) implies a.shares(b) by {
        assert(x & y != 0) by (bit_vector)
            requires
                bit < 64,
                (x >> bit) & 1 == 1,
                (y >> bit) & 1 == 1,
        ;
    }
}

/// After services are added, exactly the old ones and the added ones are offered.
pub proof fn law_added_services_are_offered(before: PeerServices, added: PeerServices, bit: u64)
    ensures
        before.with(added).offers(bit) <==> before.offers(bit) || added.offers(bit),
{
    let x = before.services;
    let y = added.services;
    if bit < 64 {
        assert((((x | y) >> bit) & 1 == 1) <==> ((x >> bit) & 1 == 1 || (y >> bit) & 1 == 1))
            by (bit_vector)
            requires
                bit < 64,
        ;
    }
}

/// A question about services is answered yes after an addition exactly when it was
/// answered yes before or concerns an added service: nothing offered is ever lost.
pub proof fn law_adding_keeps_and_extends(
    before: PeerServices,
    added: PeerServices,
    asked: PeerServices,
)
    ensures
        before.with(added).shares(asked) <==> before.shares(asked) || added.shares(asked),
{
    let x = before.services;
    let y = added.services;
    let z = asked.services;
    assert(((x | y) & z != 0) <==> (x & z != 0 || y & z != 0)) by (bit_vector);
}

/// Services just added are found, as long as there is at least one of them.
pub proof fn law_added_service_is_found(before: PeerServices, added: PeerServices)
    ensures
        before.with(added).shares(added) <==> added.services != 0,
{
    let x = before.services;
    let y = added.services;
    assert(((x | y) & y != 0) <==> y != 0) by (bit_vector);
}

/// Adding the same services twice, or two lots in either order, makes no difference.
pub proof fn law_addition_order_is_irrelevant(
    before: PeerServices,
    first: PeerServices,
    second: PeerServices,
)
    ensures
        before.with(first).with(first) == before.with(first),
        before.with(first).with(second) == before.with(second).with(first),
{
    let x = before.services;
    let y = first.services;
    let z = second.services;
    assert((x | y) | y == x | y && (x | y) | z == (x | z) | y) by (bit_vector);
}

/// A peer is said to have a service exactly when some bit is set both in what it offers and
/// in what is asked for.
pub proof fn law_has_service_is_a_common_bit(offered: PeerServices, asked: PeerServices, found: bool)
    requires
        call_ensures(PeerServices::has_service, (&offered, asked), found),
    ensures
        found <==> exists|bit: u64|
            bit < 64 && #[trigger] ((offered.services >> bit) & 1) == 1 && ((asked.services >> bit)
                & 1) == 1,
{
    law_shares_is_a_common_bit(offered, asked);
    if found {
        let bit = choose|bit: u64| #[trigger] offered.offers(bit) && asked.offers(bit);
        assert((offered.services >> bit) & 1 == 1);
    } else {
        assert forall|bit: u64| bit < 64 && #[trigger] ((offered.services >> bit) & 1) == 1 implies (
        asked.services >> bit) & 1 != 1 by {
            assert(offered.offers(bit));
        }
    }
}

/// After `add_service` a bit is set exactly when it was set before or is set in what was
/// added; so what was added is then found, and what was found before still is.
pub proof fn law_add_service_sets_the_bits(
    services: &mut PeerServices,
    added: PeerServices,
    bit: u64,
    asked: PeerServices,
    before: bool,
    after: bool,
)
    requires
        call_ensures(PeerServices::add_service, (services, added), ()),
        call_ensures(PeerServices::has_service, (&*old(services), asked), before),
        call_ensures(PeerServices::has_service, (&*final(services), asked), after),
    ensures
        bit < 64 ==> ((final(services).services >> bit) & 1 == 1 <==> (old(services).services
            >> bit) & 1 == 1 || (added.services >> bit) & 1 == 1),
        before ==> after,
        asked == added && added.services != 0 ==> after,
        after ==> before || added.services & asked.services != 0,
{
    law_added_services_are_offered(*old(services), added, bit);
    law_adding_keeps_and_extends(*old(services), added, asked);
    law_added_service_is_found(*old(services), added);
}

/// Each named service is a bit of its own, so that none of them is taken for another, and no
/// service is no bit.
pub proof fn law_named_services_are_bits_of_their_own(
    none: PeerServices,
    network: PeerServices,
    bloom: PeerServices,
    witness: PeerServices,
    compact_filters: PeerServices,
    network_limited: PeerServices,
)
    requires
        call_ensures(PeerServices::none, (), none),
        call_ensures(PeerServices::network, (), network),
        call_ensures(PeerServices::bloom, (), bloom),
        call_ensures(PeerServices::witness, (), witness),
        call_ensures(PeerServices::compact_filters, (), compact_filters),
        call_ensures(PeerServices::network_limited, (), network_limited),
    ensures
        none.services == 0,
        network.services == 1u64 << 0,
        bloom.services == 1u64 << 1,
        witness.services == 1u64 << 2,
        compact_filters.services == 1u64 << 3,
        network_limited.services == 1u64 << 10,
{
    assert(1u64 << 0 == 0x1 && 1u64 << 1 == 0x2 && 1u64 << 2 == 0x4 && 1u64 << 3 == 0x8 && 1u64
        << 10 == 0x400) by (bit_vector);
}

} // verus!
