use vstd::prelude::*;

verus! {

/// An IP address: IPv4 as a 32-bit number, IPv6 as a 128-bit number, both in
/// network order of significance.
#[derive(Clone, Copy, Debug, PartialEq, Eq, Structural)]
pub enum IpAddress {
    V4(u32),
    V6(u128),
}

/// A UDP transport address: an IP address and a port.
#[derive(Clone, Copy, Debug, PartialEq, Eq, Structural)]
pub struct TransportAddr {
    pub ip: IpAddress,
    pub port: u16,
}

/// Errors surfaced to the caller on malformed input.
#[derive(Debug)]
pub enum IceError {
    BadCandidate(String),
}

/// The kinds of candidate, in the order of RFC 8445.
#[derive(Clone, Copy, Debug, PartialEq, Eq, Structural)]
pub enum CandidateKind {
    Host,
    PeerReflexive,
    ServerReflexive,
    Relayed,
}

/// The single RTP component that candidates in this scope belong to.
pub const COMPONENT: u32 = 1;

/// Candidate priorities handed in by a peer are below this bound (RFC 8445
/// gives them as integers from 1 to 2^31 - 1).
pub const MAX_PRIORITY_EXCL: u32 = 0x8000_0000;

pub open spec fn is_ipv6(a: TransportAddr) -> bool {
    a.ip is V6
}

/// Two addresses of the same IP family.
pub open spec fn same_family(a: TransportAddr, b: TransportAddr) -> bool {
    is_ipv6(a) == is_ipv6(b)
}

/// An address that can carry a candidate: not unspecified, not loopback and
/// not multicast or broadcast.
pub open spec fn is_usable_ip(ip: IpAddress) -> bool {
    match ip {
        IpAddress::V4(v) => v != 0 && v / 0x100_0000 != 127 && v / 0x1000_0000 != 14
            && v != 0xFFFF_FFFF,
        IpAddress::V6(v) => v != 0 && v != 1 && v / 0x100_0000_0000_0000_0000_0000_0000_0000 != 0xFF,
    }
}

/// The type preference of each kind (RFC 8445, 5.1.2.2).
pub open spec fn type_preference(k: CandidateKind) -> nat {
    match k {
        CandidateKind::Host => 126,
        CandidateKind::PeerReflexive => 110,
        CandidateKind::ServerReflexive => 100,
        CandidateKind::Relayed => 0,
    }
}

/// The highest local preference of a kind and IP family: the top of the band
/// of the kind, odd for IPv6 and even for IPv4.
pub open spec fn preference_start(k: CandidateKind, ipv6: bool) -> nat {
    let top: nat = match k {
        CandidateKind::Host => 65535,
        CandidateKind::PeerReflexive => 49151,
        CandidateKind::ServerReflexive => 32767,
        CandidateKind::Relayed => 16383,
    };
    if ipv6 { top } else { (top - 1) as nat }
}

/// The standard ICE candidate priority formula.
pub open spec fn candidate_priority(k: CandidateKind, local_preference: nat) -> nat {
    type_preference(k) * 0x100_0000 + local_preference * 0x100 + 255
}

/// One network endpoint at which a peer may be reached.
#[derive(Clone, Copy, Debug)]
pub struct Candidate {
    pub kind: CandidateKind,
    pub addr: TransportAddr,
    pub base: TransportAddr,
    pub raddr: Option<TransportAddr>,
    /// The preference within the kind, assigned when added as a local candidate.
    pub local_preference: u32,
    /// A priority given by the peer, for a remote candidate.
    pub prio: Option<u32>,
    pub discarded: bool,
}

impl Candidate {
    /// The candidate's priority: the one given, else the one computed from
    /// its kind and local preference.
    pub open spec fn spec_prio(&self) -> nat {
        match self.prio {
            Some(p) => p as nat,
            None => candidate_priority(self.kind, self.local_preference as nat),
        }
    }

    pub open spec fn wf(&self) -> bool {
        &&& self.local_preference <= 65535
        &&& self.prio matches Some(p) ==> 0 < p < MAX_PRIORITY_EXCL
    }

    /// A local candidate is the same endpoint as another when both its
    /// address and its base agree.
    pub open spec fn same_endpoint(&self, other: &Candidate) -> bool {
        self.addr == other.addr && self.base == other.base
    }

    fn new_local(kind: CandidateKind, addr: TransportAddr, base: TransportAddr, raddr: Option<TransportAddr>) -> (r: Candidate)
        ensures
            r.kind == kind,
            r.addr == addr,
            r.base == base,
            r.raddr == raddr,
            r.local_preference == 0,
            r.prio is None,
            !r.discarded,
            r.wf(),
    {
        Candidate { kind, addr, base, raddr, local_preference: 0, prio: None, discarded: false }
    }

    /// A host candidate at `addr`, which is its own base. An address that is
    /// unspecified, loopback, multicast or broadcast is refused.
    pub fn host(addr: TransportAddr) -> (r: Result<Candidate, IceError>)
        ensures
            is_usable_ip(addr.ip) <==> r is Ok,
            r matches Ok(c) ==> c.kind == CandidateKind::Host && c.addr == addr && c.base == addr
                && c.raddr is None && c.prio is None && !c.discarded && c.wf(),
    {
        if !usable_ip(addr.ip) {
            return Err(IceError::BadCandidate("unusable host address".to_owned()));
        }
        Ok(Candidate::new_local(CandidateKind::Host, addr, addr, None))
    }

    /// A peer-reflexive candidate seen at `addr`, derived from `base`.
    pub fn peer_reflexive(addr: TransportAddr, base: TransportAddr) -> (r: Candidate)
        ensures
            r.kind == CandidateKind::PeerReflexive,
            r.addr == addr,
            r.base == base,
            r.raddr == Some(base),
            r.prio is None,
            !r.discarded,
            r.wf(),
    {
        Candidate::new_local(CandidateKind::PeerReflexive, addr, base, Some(base))
    }

    /// A server-reflexive candidate: `addr` as a STUN server saw it, derived
    /// from `base`.
    pub fn server_reflexive(addr: TransportAddr, base: TransportAddr) -> (r: Candidate)
        ensures
            r.kind == CandidateKind::ServerReflexive,
            r.addr == addr,
            r.base == base,
            r.raddr == Some(base),
            r.prio is None,
            !r.discarded,
            r.wf(),
    {
        Candidate::new_local(CandidateKind::ServerReflexive, addr, base, Some(base))
    }

    /// A relayed candidate: `addr` allocated on a relay, reached from `base`.
    pub fn relayed(addr: TransportAddr, base: TransportAddr) -> (r: Candidate)
        ensures
            r.kind == CandidateKind::Relayed,
            r.addr == addr,
            r.base == base,
            r.raddr == Some(base),
            r.prio is None,
            !r.discarded,
            r.wf(),
    {
        Candidate::new_local(CandidateKind::Relayed, addr, base, Some(base))
    }

    /// A candidate announced by the peer, with the priority the peer gave it.
    /// A priority outside 1 to 2^31 - 1 is refused.
    pub fn remote(kind: CandidateKind, addr: TransportAddr, prio: u32) -> (r: Result<Candidate, IceError>)
        ensures
            (0 < prio < MAX_PRIORITY_EXCL) <==> r is Ok,
            r matches Ok(c) ==> c.kind == kind && c.addr == addr && c.base == addr
                && c.raddr is None && c.prio == Some(prio) && !c.discarded && c.wf(),
    {
        if prio == 0 || prio >= MAX_PRIORITY_EXCL {
            return Err(IceError::BadCandidate("priority out of range".to_owned()));
        }
        Ok(Candidate { kind, addr, base: addr, raddr: None, local_preference: 0, prio: Some(prio), discarded: false })
    }

    pub fn kind(&self) -> (r: CandidateKind)
        ensures r == self.kind,
    {
        self.kind
    }

    pub fn addr(&self) -> (r: TransportAddr)
        ensures r == self.addr,
    {
        self.addr
    }

    pub fn base(&self) -> (r: TransportAddr)
        ensures r == self.base,
    {
        self.base
    }

    pub fn raddr(&self) -> (r: Option<TransportAddr>)
        ensures r == self.raddr,
    {
        self.raddr
    }

    pub fn local_preference(&self) -> (r: u32)
        ensures r == self.local_preference,
    {
        self.local_preference
    }

    pub fn discarded(&self) -> (r: bool)
        ensures r == self.discarded,
    {
        self.discarded
    }

    pub(crate) fn set_local_preference(&mut self, v: u32)
        requires v <= 65535,
        ensures *final(self) == (Candidate { local_preference: v, ..*old(self) }),
    {
        self.local_preference = v;
    }

    pub(crate) fn set_discarded(&mut self)
        ensures *final(self) == (Candidate { discarded: true, ..*old(self) }),
    {
        self.discarded = true;
    }

    /// The candidate's priority.
    pub fn prio(&self) -> (r: u32)
        requires self.wf(),
        ensures
            r == self.spec_prio(),
            r < MAX_PRIORITY_EXCL,
    {
        match self.prio {
            Some(p) => p,
            None => {
                let tp: u32 = type_pref(self.kind);
                tp * 0x100_0000 + self.local_preference * 0x100 + (256 - COMPONENT)
            }
        }
    }
}

fn type_pref(k: CandidateKind) -> (r: u32)
    ensures r == type_preference(k),
{
    match k {
        CandidateKind::Host => 126,
        CandidateKind::PeerReflexive => 110,
        CandidateKind::ServerReflexive => 100,
        CandidateKind::Relayed => 0,
    }
}

/// The highest local preference of a kind and IP family.
pub(crate) fn pref_start(k: CandidateKind, ipv6: bool) -> (r: u32)
    ensures r == preference_start(k, ipv6),
{
    let top: u32 = match k {
        CandidateKind::Host => 65535,
        CandidateKind::PeerReflexive => 49151,
        CandidateKind::ServerReflexive => 32767,
        CandidateKind::Relayed => 16383,
    };
    if ipv6 { top } else { top - 1 }
}

/// Whether an address can carry a candidate.
pub fn usable_ip(ip: IpAddress) -> (r: bool)
    ensures r == is_usable_ip(ip),
{
    match ip {
        IpAddress::V4(v) => v != 0 && v / 0x100_0000 != 127 && v / 0x1000_0000 != 14 && v != 0xFFFF_FFFF,
        IpAddress::V6(v) => v != 0 && v != 1 && v / 0x100_0000_0000_0000_0000_0000_0000_0000 != 0xFF,
    }
}

impl TransportAddr {
    /// An IPv4 address from its four octets, and a port.
    pub fn ipv4(a: u8, b: u8, c: u8, d: u8, port: u16) -> (r: TransportAddr)
        ensures r == (TransportAddr {
            ip: IpAddress::V4((a as nat * 0x100_0000 + b as nat * 0x1_0000 + c as nat * 0x100 + d as nat) as u32),
            port,
        }),
    {
        let v: u32 = a as u32 * 0x100_0000 + b as u32 * 0x1_0000 + c as u32 * 0x100 + d as u32;
        TransportAddr { ip: IpAddress::V4(v), port }
    }

    /// An IPv6 address from its 128-bit value, and a port.
    pub fn ipv6(v: u128, port: u16) -> (r: TransportAddr)
        ensures r == (TransportAddr { ip: IpAddress::V6(v), port }),
    {
        TransportAddr { ip: IpAddress::V6(v), port }
    }

    pub fn is_ipv6(&self) -> (r: bool)
        ensures r == is_ipv6(*self),
    {
        match self.ip {
            IpAddress::V4(_) => false,
            IpAddress::V6(_) => true,
        }
    }
}

} // verus!
