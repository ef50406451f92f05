//! Network facts: normalizing raw address-enumeration records into a
//! per-device interface model, and selecting the primary interface.

use vstd::prelude::*;
use vstd::arithmetic::power2::lemma2_to64;
use vstd::arithmetic::power2::lemma_pow2_adds;
use vstd::arithmetic::power2::lemma_pow2_pos;
use vstd::arithmetic::power2::lemma_pow2_strictly_increases;
use vstd::arithmetic::power2::pow2;
use vstd::arithmetic::div_mod::lemma_small_mod;
use vstd::string::StrSliceExecFns;
use vstd::string::StringExecFns;

use crate::collector::CollectError;
use crate::text::push_char;
use crate::text::str_eq;

verus! {

/// Operational state of a network device.
#[derive(Clone, Copy, PartialEq, Eq, Structural, Debug)]
pub enum InterfaceState {
    UP,
    DOWN,
    UNKNOWN,
}

/// One address, tagged by family, as a plain machine integer in network
/// order.
#[derive(Clone, Copy, PartialEq, Eq, Structural, Debug)]
pub enum IpAddress {
    V4(u32),
    V6(u128),
}

/// One raw address entry of a device record.
#[derive(Debug)]
pub struct AddrEntry {
    pub addr: IpAddress,
    pub prefixlen: u32,
    pub scope: String,
    pub label: Option<String>,
    pub broadcast: Option<IpAddress>,
}

/// One raw device record from the address-enumeration utility.
#[derive(Debug)]
pub struct DeviceRecord {
    pub ifname: String,
    pub mtu: u32,
    pub operstate: String,
    pub link_type: String,
    pub mac: String,
    pub addr_info: Vec<AddrEntry>,
}

/// Normalized per-device attributes.
#[derive(Debug)]
pub struct InterfaceFields {
    pub state: InterfaceState,
    pub link_type: String,
    pub dhcp: Option<u32>,
    pub ip: Option<u32>,
    pub ip6: Option<u128>,
    pub mac: String,
    pub mtu: u32,
    pub prefix: Option<u32>,
    pub prefix6: Option<u32>,
    pub network: Option<u32>,
    pub network6: Option<u128>,
    pub scope6: String,
}

/// One normalized device: every bound address of each family, plus the
/// singular first-seen fields.
#[derive(Debug)]
pub struct Interface {
    pub bindings: Vec<u32>,
    pub bindings6: Vec<u128>,
    pub interface_fields: InterfaceFields,
}

/// The network facts document.
#[derive(Debug)]
pub struct NetworkFacts {
    pub hostname: String,
    pub domain: Option<String>,
    pub fqdn: String,
    pub interfaces: Vec<(String, Interface)>,
    pub primary: String,
    pub interface_fields: InterfaceFields,
}

/// The network probe: runs the address-enumeration utility and
/// normalizes its records.
pub struct NetworkComponent {}

/// State classification of the raw operational-state string.
pub open spec fn state_of(s: Seq<char>) -> InterfaceState {
    if s == "UP"@ {
        InterfaceState::UP
    } else if s == "DOWN"@ {
        InterfaceState::DOWN
    } else {
        InterfaceState::UNKNOWN
    }
}

/// A well-formed IPv4 entry: family tag and a prefix that fits it.
pub open spec fn entry_v4(e: AddrEntry) -> bool {
    e.addr is V4 && e.prefixlen <= 32
}

/// A well-formed IPv6 entry.
pub open spec fn entry_v6(e: AddrEntry) -> bool {
    e.addr is V6 && e.prefixlen <= 128
}

/// The `(address, prefix)` pairs of the well-formed IPv4 entries, in
/// order of appearance.
pub open spec fn v4_entries(s: Seq<AddrEntry>) -> Seq<(u32, u32)>
    decreases s.len(),
{
    if s.len() == 0 {
        seq![]
    } else {
        let prev = v4_entries(s.drop_last());
        if entry_v4(s.last()) {
            prev.push((s.last().addr->V4_0, s.last().prefixlen))
        } else {
            prev
        }
    }
}

/// The `(address, prefix)` pairs of the well-formed IPv6 entries.
pub open spec fn v6_entries(s: Seq<AddrEntry>) -> Seq<(u128, u32)>
    decreases s.len(),
{
    if s.len() == 0 {
        seq![]
    } else {
        let prev = v6_entries(s.drop_last());
        if entry_v6(s.last()) {
            prev.push((s.last().addr->V6_0, s.last().prefixlen))
        } else {
            prev
        }
    }
}

/// The first well-formed entry of each family, if any.
pub open spec fn first_v4(s: Seq<AddrEntry>) -> Option<(u32, u32)> {
    if v4_entries(s).len() == 0 {
        None
    } else {
        Some(v4_entries(s)[0])
    }
}

/// The first well-formed IPv6 entry, if any.
pub open spec fn first_v6(s: Seq<AddrEntry>) -> Option<(u128, u32)> {
    if v6_entries(s).len() == 0 {
        None
    } else {
        Some(v6_entries(s)[0])
    }
}

/// The IPv4 network of an address under a prefix length: the address
/// with its host bits cleared.
pub open spec fn network4(addr: u32, prefix: u32) -> u32
    recommends
        prefix <= 32,
{
    ((addr as int) - ((addr as int) % (pow2((32 - prefix) as nat) as int))) as u32
}

/// The IPv6 network of an address under a prefix length.
pub open spec fn network6(addr: u128, prefix: u32) -> u128
    recommends
        prefix <= 128,
{
    ((addr as int) - ((addr as int) % (pow2((128 - prefix) as nat) as int))) as u128
}

/// A device that can represent the host's main connectivity: up, a
/// physical `ether` link, and at least one IPv4 binding.
pub open spec fn qualifies(i: Interface) -> bool {
    &&& i.interface_fields.state == InterfaceState::UP
    &&& i.interface_fields.link_type@ == "ether"@
    &&& i.bindings@.len() > 0
}

/// First position of a qualifying interface at or after `from`, or the
/// length of the list when there is none.
pub open spec fn primary_idx(s: Seq<(String, Interface)>, from: int) -> int
    decreases s.len() - from,
{
    if from < 0 || from >= s.len() {
        s.len() as int
    } else if qualifies(s[from].1) {
        from
    } else {
        primary_idx(s, from + 1)
    }
}

/// The fully-qualified domain name: the hostname, dot-joined with the
/// domain when one is present.
pub open spec fn fqdn_of(hostname: Seq<char>, domain: Option<Seq<char>>) -> Seq<char> {
    match domain {
        Some(d) => hostname + seq!['.'] + d,
        None => hostname,
    }
}

/// Every collected IPv4 pair carries a prefix that fits the family.
proof fn lemma_v4_entries_wf(s: Seq<AddrEntry>)
    ensures
        forall|j: int| 0 <= j < v4_entries(s).len() ==> (#[trigger] v4_entries(s)[j]).1 <= 32,
    decreases s.len(),
{
    if s.len() > 0 {
        lemma_v4_entries_wf(s.drop_last());
        let prev = v4_entries(s.drop_last());
        assert forall|j: int| 0 <= j < v4_entries(s).len() implies (#[trigger] v4_entries(s)[j]).1
            <= 32 by {
            if entry_v4(s.last()) {
                if j < prev.len() {
                    assert(v4_entries(s)[j] == prev[j]);
                }
            } else {
                assert(v4_entries(s)[j] == prev[j]);
            }
        }
    }
}

/// Every collected IPv6 pair carries a prefix that fits the family.
proof fn lemma_v6_entries_wf(s: Seq<AddrEntry>)
    ensures
        forall|j: int| 0 <= j < v6_entries(s).len() ==> (#[trigger] v6_entries(s)[j]).1 <= 128,
    decreases s.len(),
{
    if s.len() > 0 {
        lemma_v6_entries_wf(s.drop_last());
        let prev = v6_entries(s.drop_last());
        assert forall|j: int| 0 <= j < v6_entries(s).len() implies (#[trigger] v6_entries(s)[j]).1
            <= 128 by {
            if entry_v6(s.last()) {
                if j < prev.len() {
                    assert(v6_entries(s)[j] == prev[j]);
                }
            } else {
                assert(v6_entries(s)[j] == prev[j]);
            }
        }
    }
}

/// `primary_idx` stays within bounds, finds a qualifying device, and
/// skips only non-qualifying ones.
pub proof fn lemma_primary_idx(s: Seq<(String, Interface)>, from: int)
    requires
        0 <= from <= s.len(),
    ensures
        from <= primary_idx(s, from) <= s.len(),
        primary_idx(s, from) < s.len() ==> qualifies(s[primary_idx(s, from)].1),
        forall|j: int| from <= j < primary_idx(s, from) ==> !qualifies(s[j].1),
    decreases s.len() - from,
{
    if from < s.len() && !qualifies(s[from].1) {
        lemma_primary_idx(s, from + 1);
    }
}

/// A power of two that fits a `u64`.
fn pow2_u64(e: u32) -> (r: u64)
    requires
        e < 64,
    ensures
        r == pow2(e as nat),
{
    let mut r: u64 = 1;
    let mut j: u32 = 0;
    proof {
        lemma2_to64();
        vstd::arithmetic::power2::lemma2_to64_rest();
    }
    while j < e
        invariant
            j <= e,
            e < 64,
            r == pow2(j as nat),
        decreases e - j,
    {
        proof {
            lemma2_to64();
            vstd::arithmetic::power2::lemma2_to64_rest();
            if (j + 1) < 64 {
                lemma_pow2_strictly_increases((j + 1) as nat, 64);
            }
            assert(pow2((j + 1) as nat) == pow2(j as nat) * 2) by {
                lemma_pow2_adds(j as nat, 1);
                lemma2_to64();
            }
        }
        r = r * 2;
        j = j + 1;
    }
    r
}

/// A power of two that fits a `u128`.
fn pow2_u128(e: u32) -> (r: u128)
    requires
        e < 128,
    ensures
        r == pow2(e as nat),
{
    let mut r: u128 = 1;
    let mut j: u32 = 0;
    proof {
        lemma2_to64();
    }
    while j < e
        invariant
            j <= e,
            e < 128,
            r == pow2(j as nat),
        decreases e - j,
    {
        proof {
            lemma2_to64();
            lemma_pow2_adds(64, 64);
            if (j + 1) < 128 {
                lemma_pow2_strictly_increases((j + 1) as nat, 128);
            }
            assert(pow2((j + 1) as nat) == pow2(j as nat) * 2) by {
                lemma_pow2_adds(j as nat, 1);
                lemma2_to64();
            }
        }
        r = r * 2;
        j = j + 1;
    }
    r
}

/// The IPv4 network of an address, as `network4` describes it.
pub fn mask_v4(addr: u32, prefix: u32) -> (r: u32)
    requires
        prefix <= 32,
    ensures
        r == network4(addr, prefix),
{
    if prefix == 0 {
        proof {
            lemma2_to64();
            lemma_small_mod(addr as nat, pow2(32));
        }
        0
    } else {
        let shift = 32 - prefix;
        let block = pow2_u64(shift);
        proof {
            lemma_pow2_pos(shift as nat);
        }
        let a = addr as u64;
        let rem = a % block;
        proof {
            vstd::arithmetic::div_mod::lemma_mod_decreases(a as nat, block as nat);
        }
        (a - rem) as u32
    }
}

/// The IPv6 network of an address, as `network6` describes it.
pub fn mask_v6(addr: u128, prefix: u32) -> (r: u128)
    requires
        prefix <= 128,
    ensures
        r == network6(addr, prefix),
{
    if prefix == 0 {
        proof {
            lemma2_to64();
            lemma_pow2_adds(64, 64);
            lemma_small_mod(addr as nat, pow2(128));
        }
        0
    } else {
        let shift = 128 - prefix;
        let block = pow2_u128(shift);
        proof {
            lemma_pow2_pos(shift as nat);
        }
        let rem = addr % block;
        proof {
            vstd::arithmetic::div_mod::lemma_mod_decreases(addr as nat, block as nat);
        }
        addr - rem
    }
}

/// State classification, as `state_of` describes it.
pub fn classify_state(operstate: &str) -> (r: InterfaceState)
    ensures
        r == state_of(operstate@),
{
    if str_eq(operstate, "UP") {
        InterfaceState::UP
    } else if str_eq(operstate, "DOWN") {
        InterfaceState::DOWN
    } else {
        InterfaceState::UNKNOWN
    }
}

/// An exact copy of a field set.
fn duplicate_fields(f: &InterfaceFields) -> (r: InterfaceFields)
    ensures
        r == *f,
{
    InterfaceFields {
        state: f.state,
        link_type: f.link_type.clone(),
        dhcp: f.dhcp,
        ip: f.ip,
        ip6: f.ip6,
        mac: f.mac.clone(),
        mtu: f.mtu,
        prefix: f.prefix,
        prefix6: f.prefix6,
        network: f.network,
        network6: f.network6,
        scope6: f.scope6.clone(),
    }
}

/// Normalizes one raw device record: classifies its state, collects
/// every well-formed address of each family into the binding lists, and
/// takes the singular address, prefix and derived network fields from
/// the first entry of each family.  The DHCP server and IPv6 scope label
/// come from auxiliary probes and are attached verbatim.
pub fn normalize_device(rec: &DeviceRecord, dhcp: Option<u32>, scope6: String) -> (r: Interface)
    ensures
        r.bindings@.len() == v4_entries(rec.addr_info@).len(),
        forall|j: int|
            0 <= j < r.bindings@.len() ==> r.bindings@[j] == (#[trigger] v4_entries(
                rec.addr_info@,
            )[j]).0,
        r.bindings6@.len() == v6_entries(rec.addr_info@).len(),
        forall|j: int|
            0 <= j < r.bindings6@.len() ==> r.bindings6@[j] == (#[trigger] v6_entries(
                rec.addr_info@,
            )[j]).0,
        r.interface_fields.state == state_of(rec.operstate@),
        r.interface_fields.link_type == rec.link_type,
        r.interface_fields.mac == rec.mac,
        r.interface_fields.mtu == rec.mtu,
        r.interface_fields.dhcp == dhcp,
        r.interface_fields.scope6 == scope6,
        match first_v4(rec.addr_info@) {
            Some(ap) => r.interface_fields.ip == Some(ap.0) && r.interface_fields.prefix == Some(
                ap.1,
            ) && r.interface_fields.network == Some(network4(ap.0, ap.1)),
            None => r.interface_fields.ip is None && r.interface_fields.prefix is None
                && r.interface_fields.network is None,
        },
        match first_v6(rec.addr_info@) {
            Some(ap) => r.interface_fields.ip6 == Some(ap.0) && r.interface_fields.prefix6 == Some(
                ap.1,
            ) && r.interface_fields.network6 == Some(network6(ap.0, ap.1)),
            None => r.interface_fields.ip6 is None && r.interface_fields.prefix6 is None
                && r.interface_fields.network6 is None,
        },
{
    let mut bindings: Vec<u32> = Vec::new();
    let mut bindings6: Vec<u128> = Vec::new();
    let mut ip: Option<u32> = None;
    let mut prefix: Option<u32> = None;
    let mut ip6: Option<u128> = None;
    let mut prefix6: Option<u32> = None;
    let n = rec.addr_info.len();
    let mut i: usize = 0;
    while i < n
        invariant
            n == rec.addr_info@.len(),
            i <= n,
            bindings@.len() == v4_entries(rec.addr_info@.take(i as int)).len(),
            forall|j: int|
                0 <= j < bindings@.len() ==> bindings@[j] == (#[trigger] v4_entries(
                    rec.addr_info@.take(i as int),
                )[j]).0,
            bindings6@.len() == v6_entries(rec.addr_info@.take(i as int)).len(),
            forall|j: int|
                0 <= j < bindings6@.len() ==> bindings6@[j] == (#[trigger] v6_entries(
                    rec.addr_info@.take(i as int),
                )[j]).0,
            match first_v4(rec.addr_info@.take(i as int)) {
                Some(ap) => ip == Some(ap.0) && prefix == Some(ap.1),
                None => ip is None && prefix is None,
            },
            match first_v6(rec.addr_info@.take(i as int)) {
                Some(ap) => ip6 == Some(ap.0) && prefix6 == Some(ap.1),
                None => ip6 is None && prefix6 is None,
            },
        decreases n - i,
    {
        proof {
            assert(rec.addr_info@.take(i + 1).drop_last() =~= rec.addr_info@.take(i as int));
            assert(rec.addr_info@.take(i + 1).last() == rec.addr_info@[i as int]);
        }
        let e = &rec.addr_info[i];
        match e.addr {
            IpAddress::V4(a) => {
                if e.prefixlen <= 32 {
                    bindings.push(a);
                    if ip.is_none() {
                        ip = Some(a);
                        prefix = Some(e.prefixlen);
                    }
                }
            },
            IpAddress::V6(a) => {
                if e.prefixlen <= 128 {
                    bindings6.push(a);
                    if ip6.is_none() {
                        ip6 = Some(a);
                        prefix6 = Some(e.prefixlen);
                    }
                }
            },
        }
        i = i + 1;
    }
    proof {
        assert(rec.addr_info@.take(n as int) =~= rec.addr_info@);
        lemma_v4_entries_wf(rec.addr_info@);
        lemma_v6_entries_wf(rec.addr_info@);
    }
    let network: Option<u32> = match (ip, prefix) {
        (Some(a), Some(p)) => Some(mask_v4(a, p)),
        _ => None,
    };
    let network6: Option<u128> = match (ip6, prefix6) {
        (Some(a), Some(p)) => Some(mask_v6(a, p)),
        _ => None,
    };
    let state = classify_state(rec.operstate.as_str());
    Interface {
        bindings,
        bindings6,
        interface_fields: InterfaceFields {
            state,
            link_type: rec.link_type.clone(),
            dhcp,
            ip,
            ip6,
            mac: rec.mac.clone(),
            mtu: rec.mtu,
            prefix,
            prefix6,
            network,
            network6,
            scope6,
        },
    }
}

/// Selects the primary interface: the first device that is up, has an
/// `ether` link and carries at least one IPv4 binding.  Yields nothing
/// when no device qualifies.
pub fn select_primary(interfaces: &Vec<(String, Interface)>) -> (r: Option<usize>)
    ensures
        match r {
            Some(i) => i == primary_idx(interfaces@, 0) && i < interfaces@.len() && qualifies(
                interfaces@[i as int].1,
            ) && forall|j: int| 0 <= j < i ==> !qualifies(interfaces@[j].1),
            None => forall|j: int| 0 <= j < interfaces@.len() ==> !qualifies(interfaces@[j].1),
        },
{
    let n = interfaces.len();
    let mut i: usize = 0;
    while i < n
        invariant
            n == interfaces@.len(),
            i <= n,
            primary_idx(interfaces@, 0) == primary_idx(interfaces@, i as int),
            forall|j: int| 0 <= j < i ==> !qualifies(interfaces@[j].1),
        decreases n - i,
    {
        let cand = &interfaces[i].1;
        let is_up = cand.interface_fields.state == InterfaceState::UP;
        let is_ether = str_eq(cand.interface_fields.link_type.as_str(), "ether");
        let has_v4 = cand.bindings.len() > 0;
        if is_up && is_ether && has_v4 {
            proof {
                lemma_primary_idx(interfaces@, i as int);
            }
            return Some(i);
        }
        i = i + 1;
    }
    None
}

/// Assembles the network facts: the primary device's name and a mirror
/// of its fields at the top level, the host identity fields, and the
/// full interface list unchanged.  Fails with the no-primary condition
/// exactly when no device qualifies.
pub fn build_network_facts(
    interfaces: Vec<(String, Interface)>,
    hostname: String,
    domain: Option<String>,
) -> (r: Result<NetworkFacts, CollectError>)
    ensures
        match r {
            Ok(nf) => {
                let pi = primary_idx(interfaces@, 0);
                &&& pi < interfaces@.len()
                &&& nf.primary == interfaces@[pi].0
                &&& nf.interface_fields == interfaces@[pi].1.interface_fields
                &&& nf.interfaces == interfaces
                &&& nf.hostname == hostname
                &&& nf.domain == domain
                &&& nf.fqdn@ == fqdn_of(hostname@, domain.deep_view())
            },
            Err(e) => {
                &&& e is NoPrimaryInterface
                &&& forall|j: int| 0 <= j < interfaces@.len() ==> !qualifies(interfaces@[j].1)
            },
        },
{
    let pidx = match select_primary(&interfaces) {
        Some(i) => i,
        None => {
            return Err(CollectError::NoPrimaryInterface);
        },
    };
    let primary = interfaces[pidx].0.clone();
    let mirror = duplicate_fields(&interfaces[pidx].1.interface_fields);
    let fqdn: String = match &domain {
        Some(d) => {
            let mut f = hostname.clone();
            push_char(&mut f, '.');
            f.append(d.as_str());
            proof {
                assert(f@ =~= hostname@ + seq!['.'] + d@);
            }
            f
        },
        None => hostname.clone(),
    };
    Ok(
        NetworkFacts {
            hostname,
            domain,
            fqdn,
            interfaces,
            primary,
            interface_fields: mirror,
        },
    )
}

impl NetworkComponent {
    /// A network probe.
    pub fn new() -> (r: Self)
        ensures
            r == (NetworkComponent {  }),
    {
        NetworkComponent {  }
    }

    /// The merge key of this probe.
    pub fn name(&self) -> (r: &'static str)
        ensures
            r@ == "network"@,
    {
        "network"
    }
}

} // verus!
