use vstd::prelude::*;

verus! {

/// The connectivity-check state of a pair.
#[derive(Clone, Copy, Debug, PartialEq, Eq, Structural)]
pub enum CandidatePairState {
    Frozen,
    Waiting,
    InProgress,
    Succeeded,
    Failed,
}

/// A local and a remote candidate, by their indices in the agent's stores.
#[derive(Clone, Copy, Debug, PartialEq, Eq, Structural)]
pub struct CandidatePair {
    pub local_idx: usize,
    pub remote_idx: usize,
    pub prio: u64,
    pub state: CandidatePairState,
    pub nominated: bool,
    /// Checks that ended in a recoverable error.
    pub attempts: u32,
}

pub open spec fn min_nat(a: nat, b: nat) -> nat {
    if a <= b { a } else { b }
}

pub open spec fn max_nat(a: nat, b: nat) -> nat {
    if a <= b { b } else { a }
}

/// The pair priority of RFC 8445, 6.1.2.3, from the controlling agent's
/// candidate priority `g` and the controlled agent's `d`.
pub open spec fn spec_pair_priority(g: nat, d: nat) -> nat {
    0x1_0000_0000 * min_nat(g, d) + 2 * max_nat(g, d) + if g > d { 1nat } else { 0nat }
}

/// The pair priority from the controlling agent's candidate priority and the
/// controlled agent's. Only where both are `u32::MAX` would it not fit 64 bits.
pub fn pair_priority(controlling_prio: u32, controlled_prio: u32) -> (r: u64)
    requires
        controlling_prio < 0xFFFF_FFFF || controlled_prio < 0xFFFF_FFFF,
    ensures
        r == spec_pair_priority(controlling_prio as nat, controlled_prio as nat),
{
    let g = controlling_prio as u64;
    let d = controlled_prio as u64;
    let (lo, hi) = if g <= d { (g, d) } else { (d, g) };
    let tie: u64 = if g > d { 1 } else { 0 };
    assert(0x1_0000_0000 * lo + 2 * hi + tie <= 0xFFFF_FFFF_FFFF_FFFF) by (nonlinear_arith)
        requires lo <= hi, hi <= 0xFFFF_FFFF, lo < 0xFFFF_FFFF, tie <= 1;
    0x1_0000_0000 * lo + 2 * hi + tie
}

/// Swapping the roles of the two agents changes a pair's priority in its
/// lowest bit only: the tie-break term that favours the controlling side.
pub proof fn lemma_role_swap_changes_low_bit_only(g: nat, d: nat)
    ensures
        spec_pair_priority(g, d) / 2 == spec_pair_priority(d, g) / 2,
        spec_pair_priority(g, d) % 2 == if g > d { 1nat } else { 0nat },
{
    let m = min_nat(g, d);
    let x = max_nat(g, d);
    assert(min_nat(d, g) == m && max_nat(d, g) == x);
    let b1: nat = if g > d { 1 } else { 0 };
    let b2: nat = if d > g { 1 } else { 0 };
    assert((0x1_0000_0000 * m + 2 * x + b1) / 2 == 0x8000_0000 * m + x) by (nonlinear_arith)
        requires b1 <= 1;
    assert((0x1_0000_0000 * m + 2 * x + b2) / 2 == 0x8000_0000 * m + x) by (nonlinear_arith)
        requires b2 <= 1;
    assert((0x1_0000_0000 * m + 2 * x + b1) % 2 == b1) by (nonlinear_arith)
        requires b1 <= 1;
}

impl CandidatePair {
    pub fn local_idx(&self) -> (r: usize)
        ensures r == self.local_idx,
    {
        self.local_idx
    }

    pub fn remote_idx(&self) -> (r: usize)
        ensures r == self.remote_idx,
    {
        self.remote_idx
    }

    pub fn prio(&self) -> (r: u64)
        ensures r == self.prio,
    {
        self.prio
    }

    pub fn state(&self) -> (r: CandidatePairState)
        ensures r == self.state,
    {
        self.state
    }

    pub fn nominated(&self) -> (r: bool)
        ensures r == self.nominated,
    {
        self.nominated
    }
}

} // verus!
