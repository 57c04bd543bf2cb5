//! The search for a free port among the ports held for one address.

use vstd::prelude::*;
use std::collections::HashSet;
use crate::random::RandomSource;

verus! {

broadcast use vstd::std_specs::hash::group_hash_axioms;

/// How often a port is drawn at random before the search goes through the
/// ports in order.
pub const PORT_DRAWS: u32 = 16;

/// The exclusive upper bound of the ports that are drawn at random.
pub const DRAW_LIMIT: u64 = 65535;

/// The port that lies `offset` ports after `start`, going round after the
/// highest port.
pub open spec fn port_after(start: u16, offset: int) -> u16 {
    ((start + offset) % 65536) as u16
}

/// Whether `port` is the first port at or after `start`, going round, that
/// `held` lacks.
pub open spec fn first_free_from(held: Set<u16>, start: u16, port: u16) -> bool {
    exists|offset: int|
        {
            &&& 0 <= offset < 65536
            &&& port == #[trigger] port_after(start, offset)
            &&& !held.contains(port)
            &&& forall|earlier: int|
                0 <= earlier < offset ==> held.contains(#[trigger] port_after(start, earlier))
        }
}

/// Every port is held exactly when 65536 ports are held.
pub proof fn lemma_all_ports_held(held: Set<u16>)
    ensures
        (forall|port: u16| held.contains(port)) <==> (held.finite() && held.len() == 65536),
{
    let all = Set::<u16>::full();
    let below = Set::<u16>::range(0u16, 65535u16);
    vstd::set_lib::range_set_properties::<u16>(0u16, 65535u16);
    assert(all =~= below.insert(65535u16));
    assert(!below.contains(65535u16));
    assert(all.finite() && all.len() == 65536);
    if forall|port: u16| held.contains(port) {
        assert(held =~= all);
    }
    if held.finite() && held.len() == 65536 {
        assert(held.subset_of(all));
        vstd::set_lib::lemma_subset_equality(held, all);
    }
}

/// Goes through the ports in order from `start`, round to the port below
/// it, and stops at the first that `ports` lacks.
pub fn scan_free_port(ports: &HashSet<u16>, start: u16) -> (found: Option<u16>)
    ensures
        match found {
            Some(port) => first_free_from(ports@, start, port) && !ports@.contains(port),
            None => forall|port: u16| ports@.contains(port),
        },
{
    let mut offset: u32 = 0;
    while offset < 65536
        invariant
            offset <= 65536,
            forall|earlier: int|
                0 <= earlier < offset ==> ports@.contains(#[trigger] port_after(start, earlier)),
        decreases 65536 - offset,
    {
        let port: u16 = ((start as u32 + offset) % 65536) as u16;
        assert(port == port_after(start, offset as int));
        if !ports.contains(&port) {
            return Some(port);
        }
        offset += 1;
    }
    proof {
        assert forall|port: u16| ports@.contains(port) by {
            let offset: int = if port >= start {
                port - start
            } else {
                port - start + 65536
            };
            assert(port_after(start, offset) == port);
        }
    }
    None
}

/// Draws ports at random until one is free; after `PORT_DRAWS` draws that
/// were all held it scans from the last draw. `None` exactly when every port
/// is held. A port that comes back is free, and it is a port that was
/// drawn or the first free port after one.
pub fn pick_free_port(ports: &HashSet<u16>, random: &mut RandomSource) -> (found: Option<u16>)
    ensures
        match found {
            Some(port) => {
                &&& !ports@.contains(port)
                &&& exists|drawn: u16| drawn < DRAW_LIMIT && first_free_from(ports@, drawn, port)
            },
            None => forall|port: u16| ports@.contains(port),
        },
{
    let mut candidate: u16 = 0;
    let mut draws: u32 = 0;
    while draws < PORT_DRAWS
        invariant
            draws <= PORT_DRAWS,
            candidate < DRAW_LIMIT,
        decreases PORT_DRAWS - draws,
    {
        candidate = random.draw(0, DRAW_LIMIT) as u16;
        if !ports.contains(&candidate) {
            proof {
                assert(candidate == port_after(candidate, 0));
                assert(first_free_from(ports@, candidate, candidate));
            }
            return Some(candidate);
        }
        draws += 1;
    }
    scan_free_port(ports, candidate)
}

} // verus!
