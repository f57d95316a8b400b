//! Filtering of externally discovered addresses: which interface addresses
//! are usable, and the split of a discovery run's results into the desired
//! per-family sets.

use vstd::prelude::*;
use crate::addr::IpAddress;
use crate::config::Config;

verus! {

/// One local interface and the addresses found on it.
#[derive(Debug)]
pub struct InterfaceAddresses {
    pub name: String,
    pub addresses: Vec<IpAddress>,
}

/// The usable addresses of the interfaces, in discovery order: addresses of
/// ignored interfaces and addresses the configuration refuses are left out.
pub open spec fn spec_interface_addresses(c: Config, ifaces: Seq<InterfaceAddresses>) -> Seq<
    IpAddress,
>
    decreases ifaces.len(),
{
    if ifaces.len() == 0 {
        Seq::<IpAddress>::empty()
    } else {
        spec_interface_addresses(c, ifaces.drop_last()) + (if c.spec_allows_interface(
            ifaces.last().name@,
        ) {
            ifaces.last().addresses@.filter(|a: IpAddress| c.spec_allows_address(a))
        } else {
            Seq::<IpAddress>::empty()
        })
    }
}

/// Gathers the usable addresses of the queried interfaces.
pub fn addresses_from_interfaces(config: &Config, interfaces: &Vec<InterfaceAddresses>) -> (r: Vec<
    IpAddress,
>)
    ensures
        r@ == spec_interface_addresses(*config, interfaces@),
{
    let mut out: Vec<IpAddress> = Vec::new();
    let mut i: usize = 0;
    proof {
        assert(spec_interface_addresses(*config, interfaces@.take(0)) =~= Seq::<
            IpAddress,
        >::empty());
    }
    while i < interfaces.len()
        invariant
            i <= interfaces@.len(),
            out@ == spec_interface_addresses(*config, interfaces@.take(i as int)),
        decreases interfaces@.len() - i,
    {
        proof {
            assert(interfaces@.take(i + 1).drop_last() =~= interfaces@.take(i as int));
            assert(interfaces@.take(i + 1).last() == interfaces@[i as int]);
        }
        let iface = &interfaces[i];
        if config.allows_interface(iface.name.as_str()) {
            let ghost prev = out@;
            let n = iface.addresses.len();
            let mut k: usize = 0;
            proof {
                assert(iface.addresses@.take(0).filter(
                    |a: IpAddress| config.spec_allows_address(a),
                ) =~= Seq::<IpAddress>::empty());
            }
            while k < n
                invariant
                    n == iface.addresses@.len(),
                    k <= n,
                    iface == &interfaces@[i as int],
                    out@ == prev + iface.addresses@.take(k as int).filter(
                        |a: IpAddress| config.spec_allows_address(a),
                    ),
                decreases n - k,
            {
                proof {
                    assert(iface.addresses@.take(k + 1).drop_last() =~= iface.addresses@.take(
                        k as int,
                    ));
                    assert(iface.addresses@.take(k + 1).last() == iface.addresses@[k as int]);
                    reveal_with_fuel(Seq::filter, 2);
                }
                if config.allows_address(&iface.addresses[k]) {
                    out.push(iface.addresses[k]);
                }
                k += 1;
            }
            proof {
                assert(iface.addresses@.take(n as int) =~= iface.addresses@);
            }
        }
        i += 1;
    }
    proof {
        assert(interfaces@.take(interfaces@.len() as int) =~= interfaces@);
    }
    out
}

/// The desired per-family address sets of a discovery run: the usable
/// addresses, split by family, first occurrence kept.
pub open spec fn spec_partition(c: Config, ds: Seq<IpAddress>) -> (Seq<IpAddress>, Seq<IpAddress>)
    decreases ds.len(),
{
    if ds.len() == 0 {
        (Seq::<IpAddress>::empty(), Seq::<IpAddress>::empty())
    } else {
        let (v4, v6) = spec_partition(c, ds.drop_last());
        let x = ds.last();
        if c.spec_allows_address(x) && x is V4 && !v4.contains(x) {
            (v4.push(x), v6)
        } else if c.spec_allows_address(x) && x is V6 && !v6.contains(x) {
            (v4, v6.push(x))
        } else {
            (v4, v6)
        }
    }
}

/// Whether a vector of addresses holds one.
fn contains_addr(v: &Vec<IpAddress>, x: IpAddress) -> (r: bool)
    ensures
        r == v@.contains(x),
{
    let mut i: usize = 0;
    while i < v.len()
        invariant
            i <= v@.len(),
            forall|j: int| 0 <= j < i ==> v@[j] != x,
        decreases v@.len() - i,
    {
        if v[i] == x {
            return true;
        }
        i += 1;
    }
    false
}

/// Splits the discovered addresses into the desired IPv4 and IPv6 sets:
/// allowed addresses only, deduplicated, in first-seen order.
pub fn partition_discovered(config: &Config, discovered: &Vec<IpAddress>) -> (r: (
    Vec<IpAddress>,
    Vec<IpAddress>,
))
    ensures
        (r.0@, r.1@) == spec_partition(*config, discovered@),
        forall|j: int| 0 <= j < r.0@.len() ==> (#[trigger] r.0@[j]) is V4,
        forall|j: int| 0 <= j < r.1@.len() ==> (#[trigger] r.1@[j]) is V6,
{
    let mut v4: Vec<IpAddress> = Vec::new();
    let mut v6: Vec<IpAddress> = Vec::new();
    let mut i: usize = 0;
    proof {
        assert(discovered@.take(0) =~= Seq::<IpAddress>::empty());
    }
    while i < discovered.len()
        invariant
            i <= discovered@.len(),
            (v4@, v6@) == spec_partition(*config, discovered@.take(i as int)),
            forall|j: int| 0 <= j < v4@.len() ==> (#[trigger] v4@[j]) is V4,
            forall|j: int| 0 <= j < v6@.len() ==> (#[trigger] v6@[j]) is V6,
        decreases discovered@.len() - i,
    {
        proof {
            assert(discovered@.take(i + 1).drop_last() =~= discovered@.take(i as int));
            assert(discovered@.take(i + 1).last() == discovered@[i as int]);
        }
        let addr = discovered[i];
        if config.allows_address(&addr) {
            if addr.is_v4() {
                if !contains_addr(&v4, addr) {
                    v4.push(addr);
                }
            } else {
                if !contains_addr(&v6, addr) {
                    v6.push(addr);
                }
            }
        }
        i += 1;
    }
    proof {
        assert(discovered@.take(discovered@.len() as int) =~= discovered@);
    }
    (v4, v6)
}

} // verus!
