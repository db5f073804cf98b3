use vstd::prelude::*;

use crate::candidate::{
    is_ipv6, preference_start, pref_start, same_family, Candidate, CandidateKind, TransportAddr,
};
use crate::id::{is_alphanumeric, random_alphanumeric};
use crate::pair::{pair_priority, spec_pair_priority, CandidatePair, CandidatePairState};

verus! {

/// The default timing advance (Ta), in milliseconds.
pub const DEFAULT_TIMING_ADVANCE_MS: u64 = 50;

/// Length of the generated username fragment: at least 24 random bits.
pub const USERNAME_LEN: usize = 8;

/// Length of the generated password: at least 128 random bits.
pub const PASSWORD_LEN: usize = 24;

/// Local candidates an agent holds at most, so that every kind keeps room for
/// a unique local preference.
pub const MAX_LOCAL_CANDIDATES: usize = 8190;

/// Checks of one pair that may end in a recoverable error before it fails.
pub const MAX_CHECK_ATTEMPTS: u32 = 3;

/// States the [`IceAgent`] can be in.
#[derive(Debug, Clone, Copy, PartialEq, Eq, Structural)]
pub enum IceConnectionState {
    /// Gathering addresses; no pair formed yet.
    New,
    /// Checking pairs; none has succeeded yet.
    Checking,
    /// A usable pair has been found, while other work is outstanding.
    Connected,
    /// Gathering is over, every pair has been decided and one is nominated.
    Completed,
    /// Gathering is over and every pair failed.
    Failed,
    /// Consent checks of the chosen pair stopped succeeding.
    Disconnected,
    /// Shut down: no further candidates, checks or responses are taken.
    Closed,
}

/// How one connectivity check of a pair ended.
#[derive(Debug, Clone, Copy, PartialEq, Eq, Structural)]
pub enum CheckOutcome {
    /// A successful binding response.
    Success,
    /// An error that a retry may cure (stale credentials, for instance).
    Recoverable,
    /// A hard failure, or a timeout after the retry schedule ran out.
    Failure,
}

/// The connectivity-establishment agent of one peer connection.
#[derive(Debug)]
pub struct IceAgent {
    /// Timing advance (Ta) in milliseconds, where one was agreed.
    timing_advance: Option<u64>,
    /// Whether this agent is operating as ice-lite.
    ice_lite: bool,
    username: String,
    password: String,
    controlling: bool,
    state: IceConnectionState,
    /// Whether gathering of local candidates has finished.
    gathering_complete: bool,
    /// All local candidates, in the order of discovery.
    local_candidates: Vec<Candidate>,
    /// All remote candidates, in the order we got to know them.
    remote_candidates: Vec<Candidate>,
    /// The candidate pairs, by descending priority.
    candidate_pairs: Vec<CandidatePair>,
}

/// The mathematical model of an [`IceAgent`].
pub struct IceAgentView {
    pub timing_advance: Option<u64>,
    pub ice_lite: bool,
    pub username: Seq<char>,
    pub password: Seq<char>,
    pub controlling: bool,
    pub state: IceConnectionState,
    pub gathering_complete: bool,
    pub local: Seq<Candidate>,
    pub remote: Seq<Candidate>,
    pub pairs: Seq<CandidatePair>,
}

impl View for IceAgent {
    type V = IceAgentView;

    closed spec fn view(&self) -> IceAgentView {
        IceAgentView {
            timing_advance: self.timing_advance,
            ice_lite: self.ice_lite,
            username: self.username@,
            password: self.password@,
            controlling: self.controlling,
            state: self.state,
            gathering_complete: self.gathering_complete,
            local: self.local_candidates@,
            remote: self.remote_candidates@,
            pairs: self.candidate_pairs@,
        }
    }
}

/// Non-discarded candidates of a store have distinct (address, base).
pub open spec fn endpoints_unique(s: Seq<Candidate>) -> bool {
    forall|i: int, j: int|
        0 <= i < s.len() && 0 <= j < s.len() && i != j && !s[i].discarded && !s[j].discarded
            ==> !(#[trigger] s[i]).same_endpoint(#[trigger] &s[j])
}

pub open spec fn candidates_wf(s: Seq<Candidate>) -> bool {
    forall|i: int| 0 <= i < s.len() ==> (#[trigger] s[i]).wf()
}

/// Pairs are kept by descending priority.
pub open spec fn pairs_sorted(s: Seq<CandidatePair>) -> bool {
    forall|a: int, b: int| 0 <= a < b < s.len() ==> (#[trigger] s[a]).prio >= (#[trigger] s[b]).prio
}

pub open spec fn same_key(p: CandidatePair, q: CandidatePair) -> bool {
    p.local_idx == q.local_idx && p.remote_idx == q.remote_idx
}

/// No two pairs join the same local and remote candidate.
pub open spec fn pairs_unique(s: Seq<CandidatePair>) -> bool {
    forall|a: int, b: int| 0 <= a < s.len() && 0 <= b < s.len() && a != b
        ==> !same_key(#[trigger] s[a], #[trigger] s[b])
}

pub open spec fn has_nominated(s: Seq<CandidatePair>) -> bool {
    exists|t: int| 0 <= t < s.len() && (#[trigger] s[t]).nominated
}

pub open spec fn is_terminal(st: CandidatePairState) -> bool {
    st == CandidatePairState::Succeeded || st == CandidatePairState::Failed
}

pub open spec fn all_terminal(s: Seq<CandidatePair>) -> bool {
    forall|t: int| 0 <= t < s.len() ==> is_terminal((#[trigger] s[t]).state)
}

pub open spec fn all_failed(s: Seq<CandidatePair>) -> bool {
    forall|t: int| 0 <= t < s.len() ==> (#[trigger] s[t]).state == CandidatePairState::Failed
}

/// The overall connection state, derived from the current one and the pairs.
/// `Closed`, `Failed` and `Disconnected` are left only by explicit transitions.
pub open spec fn next_state(
    cur: IceConnectionState,
    s: Seq<CandidatePair>,
    gathering_complete: bool,
) -> IceConnectionState {
    match cur {
        IceConnectionState::Closed => IceConnectionState::Closed,
        IceConnectionState::Failed => IceConnectionState::Failed,
        IceConnectionState::Disconnected => IceConnectionState::Disconnected,
        _ => if s.len() == 0 {
            if cur == IceConnectionState::New {
                IceConnectionState::New
            } else {
                IceConnectionState::Checking
            }
        } else if has_nominated(s) {
            if cur == IceConnectionState::Completed || (gathering_complete && all_terminal(s)) {
                IceConnectionState::Completed
            } else {
                IceConnectionState::Connected
            }
        } else if gathering_complete && all_failed(s) {
            IceConnectionState::Failed
        } else {
            IceConnectionState::Checking
        },
    }
}

/// Once `Failed`, the state stays `Failed` but for an explicit close; once
/// `Completed`, it stays `Completed` while a nominated pair remains, but for
/// a lost consent (`Disconnected`) or an explicit close.
pub proof fn lemma_no_regress_from_terminal(s: Seq<CandidatePair>, gathering_complete: bool, ok: bool)
    ensures
        next_state(IceConnectionState::Failed, s, gathering_complete) == IceConnectionState::Failed,
        consent_step(IceConnectionState::Failed, ok) == IceConnectionState::Failed,
        has_nominated(s) ==> next_state(IceConnectionState::Completed, s, gathering_complete)
            == IceConnectionState::Completed,
        consent_step(IceConnectionState::Completed, ok) == IceConnectionState::Completed
            || consent_step(IceConnectionState::Completed, ok) == IceConnectionState::Disconnected,
{
}

impl IceAgentView {
    /// The pair priority of a local and a remote candidate, by this agent's role.
    pub open spec fn pair_prio(self, li: int, ri: int) -> nat {
        if self.controlling {
            spec_pair_priority(self.local[li].spec_prio(), self.remote[ri].spec_prio())
        } else {
            spec_pair_priority(self.remote[ri].spec_prio(), self.local[li].spec_prio())
        }
    }

    /// A local and a remote candidate may be paired.
    pub open spec fn pairable(self, li: int, ri: int) -> bool {
        &&& 0 <= li < self.local.len()
        &&& 0 <= ri < self.remote.len()
        &&& !self.local[li].discarded
        &&& !self.remote[ri].discarded
        &&& same_family(self.local[li].addr, self.remote[ri].addr)
    }

    pub open spec fn pair_ok(self, p: CandidatePair) -> bool {
        &&& self.pairable(p.local_idx as int, p.remote_idx as int)
        &&& p.prio == self.pair_prio(p.local_idx as int, p.remote_idx as int)
        &&& p.nominated ==> p.state == CandidatePairState::Succeeded
    }

    pub open spec fn pairs_ok(self) -> bool {
        forall|t: int| 0 <= t < self.pairs.len() ==> self.pair_ok(#[trigger] self.pairs[t])
    }

    /// Two pairs of the same foundation: their local candidates share kind
    /// and base, and so do their remote candidates.
    pub open spec fn same_foundation(self, p: CandidatePair, li: int, ri: int) -> bool {
        &&& self.local[p.local_idx as int].kind == self.local[li].kind
        &&& self.local[p.local_idx as int].base == self.local[li].base
        &&& self.remote[p.remote_idx as int].kind == self.remote[ri].kind
        &&& self.remote[p.remote_idx as int].base == self.remote[ri].base
    }

    pub open spec fn wf(self) -> bool {
        &&& candidates_wf(self.local)
        &&& candidates_wf(self.remote)
        &&& forall|i: int| 0 <= i < self.local.len() ==> (#[trigger] self.local[i]).prio is None
        &&& endpoints_unique(self.local)
        &&& endpoints_unique(self.remote)
        &&& self.local.len() <= MAX_LOCAL_CANDIDATES
        &&& self.pairs_ok()
        &&& pairs_sorted(self.pairs)
        &&& pairs_unique(self.pairs)
        &&& self.state == IceConnectionState::New ==> self.pairs.len() == 0
    }
}

/// Inserting into a sequence keeps what it held and adds the new element.
proof fn lemma_insert_contains<A>(s: Seq<A>, pos: int, p: A, x: A)
    requires
        0 <= pos <= s.len(),
    ensures
        s.insert(pos, p).contains(x) <==> (s.contains(x) || x == p),
{
    s.insert_ensures(pos, p);
    let n = s.insert(pos, p);
    if n.contains(x) {
        let i = choose|i: int| 0 <= i < n.len() && n[i] == x;
        if i < pos {
            assert(s[i] == x);
        } else if i > pos {
            assert(s[i - 1] == x);
        }
    }
    if s.contains(x) {
        let i = choose|i: int| 0 <= i < s.len() && s[i] == x;
        if i < pos {
            assert(n[i] == x);
        } else {
            assert(n[i + 1] == x);
        }
    }
    if x == p {
        assert(n[pos] == x);
    }
}

/// Inserts a pair into a list kept by descending priority, after the pairs of
/// equal priority.
fn insert_sorted(pairs: &mut Vec<CandidatePair>, p: CandidatePair) -> (pos: usize)
    requires
        pairs_sorted(old(pairs)@),
    ensures
        pos <= old(pairs)@.len(),
        final(pairs)@ == old(pairs)@.insert(pos as int, p),
        pairs_sorted(final(pairs)@),
{
    let mut i: usize = 0;
    while i < pairs.len() && pairs[i].prio >= p.prio
        invariant
            0 <= i <= pairs.len(),
            forall|k: int| 0 <= k < i ==> (#[trigger] pairs@[k]).prio >= p.prio,
        decreases pairs.len() - i,
    {
        i = i + 1;
    }
    let ghost s = pairs@;
    pairs.insert(i, p);
    proof {
        s.insert_ensures(i as int, p);
        let n = pairs@;
        assert forall|a: int, b: int| 0 <= a < b < n.len() implies (#[trigger] n[a]).prio >= (
        #[trigger] n[b]).prio by {
            if i < s.len() {
                assert(s[i as int].prio < p.prio);
            }
            if b < i {
                assert(n[a] == s[a] && n[b] == s[b]);
            } else if b == i {
                assert(n[a] == s[a]);
            } else if a < i {
                assert(n[a] == s[a] && n[b] == s[b - 1]);
                assert(s[i as int].prio < p.prio);
                assert(s[i as int].prio >= s[b - 1].prio || b - 1 == i);
            } else if a == i {
                assert(n[b] == s[b - 1]);
                assert(s[i as int].prio >= s[b - 1].prio || b - 1 == i);
            } else {
                assert(n[a] == s[a - 1] && n[b] == s[b - 1]);
            }
        }
    }
    i
}

/// The pairs that remain once those referencing one candidate are removed.
pub open spec fn references(p: CandidatePair, local_side: bool, idx: nat) -> bool {
    if local_side {
        p.local_idx == idx
    } else {
        p.remote_idx == idx
    }
}

/// Removes every pair that references the given candidate, keeping the order
/// of the rest.
fn remove_pairs_referencing(pairs: &mut Vec<CandidatePair>, local_side: bool, idx: usize)
    requires
        pairs_sorted(old(pairs)@),
        pairs_unique(old(pairs)@),
    ensures
        pairs_sorted(final(pairs)@),
        pairs_unique(final(pairs)@),
        forall|t: int| 0 <= t < final(pairs)@.len() ==> old(pairs)@.contains(#[trigger] final(pairs)@[t])
            && !references(final(pairs)@[t], local_side, idx as nat),
        forall|k: int| 0 <= k < old(pairs)@.len() && !references(#[trigger] old(pairs)@[k], local_side, idx as nat)
            ==> final(pairs)@.contains(old(pairs)@[k]),
{
    let ghost s = pairs@;
    let mut kept: Vec<CandidatePair> = Vec::new();
    let ghost mut src: Seq<int> = Seq::empty();
    let ghost mut dst: Seq<int> = Seq::empty();
    let mut i: usize = 0;
    while i < pairs.len()
        invariant
            pairs@ == s,
            pairs_sorted(s),
            pairs_unique(s),
            0 <= i <= s.len(),
            src.len() == kept@.len(),
            dst.len() == i,
            forall|t: int| 0 <= t < kept@.len() ==> 0 <= #[trigger] src[t] < i && kept@[t] == s[src[t]]
                && !references(s[src[t]], local_side, idx as nat),
            forall|a: int, b: int| 0 <= a < b < kept@.len() ==> #[trigger] src[a] < #[trigger] src[b],
            forall|k: int| 0 <= k < i && !references(#[trigger] s[k], local_side, idx as nat)
                ==> 0 <= dst[k] < kept@.len() && kept@[dst[k]] == s[k],
        decreases s.len() - i,
    {
        let p = pairs[i];
        let r = if local_side { p.local_idx == idx } else { p.remote_idx == idx };
        if r {
            proof { dst = dst.push(-1); }
        } else {
            proof {
                dst = dst.push(kept@.len() as int);
                src = src.push(i as int);
            }
            kept.push(p);
        }
        i = i + 1;
    }
    proof {
        let n = kept@;
        assert forall|a: int, b: int| 0 <= a < b < n.len() implies (#[trigger] n[a]).prio >= (
        #[trigger] n[b]).prio by {
            assert(src[a] < src[b]);
        }
        assert forall|a: int, b: int| 0 <= a < n.len() && 0 <= b < n.len() && a != b
            implies !same_key(#[trigger] n[a], #[trigger] n[b]) by {
            if a < b {
                assert(src[a] < src[b]);
            } else {
                assert(src[b] < src[a]);
            }
        }
        assert forall|t: int| 0 <= t < n.len() implies s.contains(#[trigger] n[t])
            && !references(n[t], local_side, idx as nat) by {
            assert(s[src[t]] == n[t]);
        }
        assert forall|k: int| 0 <= k < s.len() && !references(#[trigger] s[k], local_side, idx as nat)
            implies n.contains(s[k]) by {
            assert(n[dst[k]] == s[k]);
        }
    }
    *pairs = kept;
}

/// Live candidates of a kind and IP family in a store.
pub open spec fn count_live_same(s: Seq<Candidate>, k: CandidateKind, ipv6: bool) -> nat
    decreases s.len(),
{
    if s.len() == 0 {
        0
    } else {
        count_live_same(s.drop_last(), k, ipv6) + if !s.last().discarded && s.last().kind == k
            && is_ipv6(s.last().addr) == ipv6 {
            1nat
        } else {
            0nat
        }
    }
}

/// The candidate at `i` is live and the same endpoint as `c`.
pub open spec fn live_match(s: Seq<Candidate>, i: int, c: Candidate) -> bool {
    0 <= i < s.len() && !s[i].discarded && s[i].same_endpoint(&c)
}

/// Some pair joins the local candidate `li` and the remote candidate `ri`.
pub open spec fn has_key(s: Seq<CandidatePair>, li: int, ri: int) -> bool {
    exists|t: int| 0 <= t < s.len() && (#[trigger] s[t]).local_idx == li && s[t].remote_idx == ri
}

/// A pair just formed: not yet checked, not nominated.
pub open spec fn fresh_pair(p: CandidatePair) -> bool {
    (p.state == CandidatePairState::Waiting || p.state == CandidatePairState::Frozen) && !p.nominated
        && p.attempts == 0
}

impl IceAgent {
    pub open spec fn wf(&self) -> bool {
        self@.wf()
    }

    /// A new agent: controlled, in state `New`, with no candidates, and with
    /// fresh random credentials.
    pub fn new() -> (r: IceAgent)
        ensures
            r.wf(),
            r@.state == IceConnectionState::New,
            !r@.controlling,
            !r@.ice_lite,
            !r@.gathering_complete,
            r@.timing_advance is None,
            r@.local.len() == 0,
            r@.remote.len() == 0,
            r@.pairs.len() == 0,
            r@.username.len() == USERNAME_LEN,
            r@.password.len() == PASSWORD_LEN,
            forall|i: int| 0 <= i < USERNAME_LEN ==> is_alphanumeric(#[trigger] r@.username[i]),
            forall|i: int| 0 <= i < PASSWORD_LEN ==> is_alphanumeric(#[trigger] r@.password[i]),
    {
        let username = random_alphanumeric(USERNAME_LEN);
        let password = random_alphanumeric(PASSWORD_LEN);
        IceAgent {
            timing_advance: None,
            ice_lite: false,
            username,
            password,
            controlling: false,
            state: IceConnectionState::New,
            gathering_complete: false,
            local_candidates: Vec::new(),
            remote_candidates: Vec::new(),
            candidate_pairs: Vec::new(),
        }
    }

    /// The STUN username.
    pub fn username(&self) -> (r: &str)
        ensures r@ == self@.username,
    {
        self.username.as_str()
    }

    /// The STUN password.
    pub fn password(&self) -> (r: &str)
        ensures r@ == self@.password,
    {
        self.password.as_str()
    }

    /// Whether this side is controlling or controlled.
    pub fn controlling(&self) -> (r: bool)
        ensures r == self@.controlling,
    {
        self.controlling
    }

    /// Sets whether we are the controlling side. The role is fixed before
    /// checks start, so this is for an agent still in state `New`.
    pub fn set_controlling(&mut self, v: bool)
        requires
            old(self).wf(),
            old(self)@.state == IceConnectionState::New,
        ensures
            final(self).wf(),
            final(self)@ == (IceAgentView { controlling: v, ..old(self)@ }),
    {
        self.controlling = v;
    }

    /// Sets whether this agent operates as ice-lite, which takes host
    /// candidates only.
    pub fn set_ice_lite(&mut self, v: bool)
        requires
            old(self).wf(),
        ensures
            final(self).wf(),
            final(self)@ == (IceAgentView { ice_lite: v, ..old(self)@ }),
    {
        self.ice_lite = v;
    }

    /// Current ice agent state.
    pub fn state(&self) -> (r: IceConnectionState)
        ensures r == self@.state,
    {
        self.state
    }

    /// The candidates that this side has, in the order they were discovered.
    pub fn local_candidates(&self) -> (r: &Vec<Candidate>)
        ensures r@ == self@.local,
    {
        &self.local_candidates
    }

    /// The candidates of the peer, in the order they were given.
    pub fn remote_candidates(&self) -> (r: &Vec<Candidate>)
        ensures r@ == self@.remote,
    {
        &self.remote_candidates
    }

    /// The candidate pairs, by descending priority.
    pub fn candidate_pairs(&self) -> (r: &Vec<CandidatePair>)
        ensures r@ == self@.pairs,
    {
        &self.candidate_pairs
    }

    /// Timing advance (Ta) in milliseconds: every time it expires the agent
    /// may start another transaction.
    pub fn timing_advance(&self) -> (r: u64)
        ensures
            r == self.spec_timing_advance(),
    {
        match self.timing_advance {
            Some(t) => t,
            None => DEFAULT_TIMING_ADVANCE_MS,
        }
    }

    /// Takes a Ta proposed by the peer: both sides use the higher of the
    /// proposed values.
    pub fn propose_timing_advance(&mut self, millis: u64)
        requires
            old(self).wf(),
        ensures
            final(self).wf(),
            final(self)@ == (IceAgentView {
                timing_advance: Some(
                    if millis > old(self).spec_timing_advance() { millis } else { old(self).spec_timing_advance() },
                ),
                ..old(self)@
            }),
    {
        let cur = self.timing_advance();
        self.timing_advance = Some(if millis > cur { millis } else { cur });
    }

    pub open spec fn spec_timing_advance(&self) -> u64 {
        match self@.timing_advance {
            Some(t) => t,
            None => DEFAULT_TIMING_ADVANCE_MS,
        }
    }
}

/// Counts the live candidates of a kind and IP family.
fn count_same(s: &Vec<Candidate>, k: CandidateKind, ipv6: bool) -> (r: u32)
    requires
        s@.len() <= MAX_LOCAL_CANDIDATES,
    ensures
        r == count_live_same(s@, k, ipv6),
        r <= s@.len(),
{
    let mut n: u32 = 0;
    let mut i: usize = 0;
    while i < s.len()
        invariant
            0 <= i <= s@.len(),
            s@.len() <= MAX_LOCAL_CANDIDATES,
            n == count_live_same(s@.subrange(0, i as int), k, ipv6),
            n <= i,
        decreases s@.len() - i,
    {
        assert(s@.subrange(0, i + 1).drop_last() == s@.subrange(0, i as int));
        let c = s[i];
        if !c.discarded && c.kind == k && c.addr.is_ipv6() == ipv6 {
            n = n + 1;
        }
        i = i + 1;
    }
    assert(s@.subrange(0, s@.len() as int) == s@);
    n
}

/// The index of the live candidate with the same address and base, if any.
fn find_live_endpoint(s: &Vec<Candidate>, c: &Candidate) -> (r: Option<usize>)
    ensures
        r matches Some(i) ==> live_match(s@, i as int, *c),
        r is None ==> forall|i: int| !live_match(s@, i, *c),
{
    let mut i: usize = 0;
    while i < s.len()
        invariant
            0 <= i <= s@.len(),
            forall|k: int| 0 <= k < i ==> !live_match(s@, k, *c),
        decreases s@.len() - i,
    {
        if !s[i].discarded && s[i].addr == c.addr && s[i].base == c.base {
            return Some(i);
        }
        i = i + 1;
    }
    None
}

pub open spec fn is_active(st: CandidatePairState) -> bool {
    st == CandidatePairState::Waiting || st == CandidatePairState::InProgress
}

/// The local and remote index of the pair of the candidate `idx` on one side
/// with the candidate `j` on the other.
pub open spec fn key_of(local_side: bool, idx: int, j: int) -> (int, int) {
    if local_side {
        (idx, j)
    } else {
        (j, idx)
    }
}

impl IceAgent {
    /// Recomputes the overall connection state from the pairs.
    fn refresh_state(&mut self)
        ensures
            final(self)@ == (IceAgentView {
                state: next_state(old(self)@.state, old(self)@.pairs, old(self)@.gathering_complete),
                ..old(self)@
            }),
    {
        let ghost s = self@.pairs;
        let mut nominated = false;
        let mut terminal = true;
        let mut failed = true;
        let mut i: usize = 0;
        while i < self.candidate_pairs.len()
            invariant
                self@ == old(self)@,
                s == self@.pairs,
                0 <= i <= s.len(),
                nominated == exists|t: int| 0 <= t < i && (#[trigger] s[t]).nominated,
                terminal == forall|t: int| 0 <= t < i ==> is_terminal((#[trigger] s[t]).state),
                failed == forall|t: int| 0 <= t < i ==> (#[trigger] s[t]).state == CandidatePairState::Failed,
            decreases s.len() - i,
        {
            let p = self.candidate_pairs[i];
            if p.nominated {
                nominated = true;
            }
            if !(p.state == CandidatePairState::Succeeded || p.state == CandidatePairState::Failed) {
                terminal = false;
            }
            if p.state != CandidatePairState::Failed {
                failed = false;
            }
            i = i + 1;
        }
        let cur = self.state;
        let g = self.gathering_complete;
        let empty = self.candidate_pairs.len() == 0;
        self.state = match cur {
            IceConnectionState::Closed => IceConnectionState::Closed,
            IceConnectionState::Failed => IceConnectionState::Failed,
            IceConnectionState::Disconnected => IceConnectionState::Disconnected,
            _ => if empty {
                if cur == IceConnectionState::New {
                    IceConnectionState::New
                } else {
                    IceConnectionState::Checking
                }
            } else if nominated {
                if cur == IceConnectionState::Completed || (g && terminal) {
                    IceConnectionState::Completed
                } else {
                    IceConnectionState::Connected
                }
            } else if g && failed {
                IceConnectionState::Failed
            } else {
                IceConnectionState::Checking
            },
        };
    }

    /// Whether a pair of the same foundation as the pair of `li` and `ri` is
    /// being checked or waits for its check.
    fn foundation_active(&self, li: usize, ri: usize) -> (r: bool)
        requires
            self@.pairs_ok(),
            li < self@.local.len(),
            ri < self@.remote.len(),
        ensures
            r == exists|t: int| 0 <= t < self@.pairs.len() && self@.same_foundation(
                #[trigger] self@.pairs[t], li as int, ri as int) && is_active(self@.pairs[t].state),
    {
        let l = self.local_candidates[li];
        let rc = self.remote_candidates[ri];
        let mut i: usize = 0;
        while i < self.candidate_pairs.len()
            invariant
                0 <= i <= self@.pairs.len(),
                self@.pairs_ok(),
                l == self@.local[li as int],
                rc == self@.remote[ri as int],
                forall|t: int| 0 <= t < i ==> !(self@.same_foundation(#[trigger] self@.pairs[t], li as int, ri as int)
                    && is_active(self@.pairs[t].state)),
            decreases self@.pairs.len() - i,
        {
            let p = self.candidate_pairs[i];
            assert(self@.pair_ok(self@.pairs[i as int]));
            let pl = self.local_candidates[p.local_idx];
            let pr = self.remote_candidates[p.remote_idx];
            if pl.kind == l.kind && pl.base == l.base && pr.kind == rc.kind && pr.base == rc.base && (
            p.state == CandidatePairState::Waiting || p.state == CandidatePairState::InProgress) {
                return true;
            }
            i = i + 1;
        }
        false
    }

    /// Forms the pair of the local candidate `li` and the remote candidate
    /// `ri` and inserts it by priority.
    fn add_pair(&mut self, li: usize, ri: usize) -> (res: (usize, CandidatePair))
        requires
            old(self)@.pairs_ok(),
            pairs_sorted(old(self)@.pairs),
            pairs_unique(old(self)@.pairs),
            candidates_wf(old(self)@.local),
            candidates_wf(old(self)@.remote),
            old(self)@.pairable(li as int, ri as int),
            forall|t: int| 0 <= t < old(self)@.pairs.len() ==> !(#[trigger] old(self)@.pairs[t].local_idx == li
                && old(self)@.pairs[t].remote_idx == ri),
        ensures
            final(self)@ == (IceAgentView { pairs: final(self)@.pairs, ..old(self)@ }),
            res.0 <= old(self)@.pairs.len(),
            final(self)@.pairs == old(self)@.pairs.insert(res.0 as int, res.1),
            res.1.local_idx == li,
            res.1.remote_idx == ri,
            fresh_pair(res.1),
            final(self)@.pairs_ok(),
            pairs_sorted(final(self)@.pairs),
            pairs_unique(final(self)@.pairs),
    {
        let l = self.local_candidates[li];
        let r = self.remote_candidates[ri];
        assert(self@.local[li as int].wf() && self@.remote[ri as int].wf());
        let lp = l.prio();
        let rp = r.prio();
        let prio = if self.controlling { pair_priority(lp, rp) } else { pair_priority(rp, lp) };
        let active = self.foundation_active(li, ri);
        let st = if active { CandidatePairState::Frozen } else { CandidatePairState::Waiting };
        let p = CandidatePair { local_idx: li, remote_idx: ri, prio, state: st, nominated: false, attempts: 0 };
        let ghost s = self@.pairs;
        let pos = insert_sorted(&mut self.candidate_pairs, p);
        proof {
            let n = self@.pairs;
            s.insert_ensures(pos as int, p);
            assert forall|t: int| 0 <= t < n.len() implies self@.pair_ok(#[trigger] n[t]) by {
                if t > pos {
                    assert(n[t] == s[t - 1]);
                }
            }
            assert forall|a: int, b: int| 0 <= a < n.len() && 0 <= b < n.len() && a != b
                implies !same_key(#[trigger] n[a], #[trigger] n[b]) by {
                if a > pos { assert(n[a] == s[a - 1]); }
                if b > pos { assert(n[b] == s[b - 1]); }
            }
        }
        (pos, p)
    }

    /// Pairs the candidate `idx` of one side with every candidate of the
    /// other side that it can be paired with.
    #[verifier::rlimit(50)]
    fn pair_candidate(&mut self, local_side: bool, idx: usize)
        requires
            old(self)@.pairs_ok(),
            pairs_sorted(old(self)@.pairs),
            pairs_unique(old(self)@.pairs),
            candidates_wf(old(self)@.local),
            candidates_wf(old(self)@.remote),
            local_side ==> idx < old(self)@.local.len(),
            !local_side ==> idx < old(self)@.remote.len(),
            forall|t: int| 0 <= t < old(self)@.pairs.len() ==> !references(
                #[trigger] old(self)@.pairs[t], local_side, idx as nat),
        ensures
            final(self)@ == (IceAgentView { pairs: final(self)@.pairs, ..old(self)@ }),
            final(self)@.pairs_ok(),
            pairs_sorted(final(self)@.pairs),
            pairs_unique(final(self)@.pairs),
            forall|t: int| 0 <= t < final(self)@.pairs.len() ==> old(self)@.pairs.contains(
                #[trigger] final(self)@.pairs[t]) || (references(final(self)@.pairs[t], local_side, idx as nat)
                && fresh_pair(final(self)@.pairs[t])),
            forall|k: int| 0 <= k < old(self)@.pairs.len() ==> final(self)@.pairs.contains(
                #[trigger] old(self)@.pairs[k]),
            forall|j: int| #![trigger key_of(local_side, idx as int, j)]
                old(self)@.pairable(key_of(local_side, idx as int, j).0, key_of(local_side, idx as int, j).1)
                ==> has_key(final(self)@.pairs, key_of(local_side, idx as int, j).0, key_of(local_side, idx as int, j).1),
    {
        let other_len = if local_side { self.remote_candidates.len() } else { self.local_candidates.len() };
        let ghost v0 = self@;
        let mut j: usize = 0;
        while j < other_len
            invariant
                self@ == (IceAgentView { pairs: self@.pairs, ..v0 }),
                v0 == old(self)@,
                other_len == if local_side { v0.remote.len() } else { v0.local.len() },
                local_side ==> idx < v0.local.len(),
                !local_side ==> idx < v0.remote.len(),
                candidates_wf(v0.local),
                candidates_wf(v0.remote),
                0 <= j <= other_len,
                self@.pairs_ok(),
                pairs_sorted(self@.pairs),
                pairs_unique(self@.pairs),
                forall|t: int| 0 <= t < v0.pairs.len() ==> !references(#[trigger] v0.pairs[t], local_side, idx as nat),
                forall|t: int| 0 <= t < self@.pairs.len() ==> v0.pairs.contains(#[trigger] self@.pairs[t])
                    || (references(self@.pairs[t], local_side, idx as nat) && fresh_pair(self@.pairs[t])
                    && (if local_side { self@.pairs[t].remote_idx } else { self@.pairs[t].local_idx }) < j),
                forall|k: int| 0 <= k < v0.pairs.len() ==> self@.pairs.contains(#[trigger] v0.pairs[k]),
                forall|jj: int| #![trigger key_of(local_side, idx as int, jj)]
                    0 <= jj < j && v0.pairable(key_of(local_side, idx as int, jj).0, key_of(local_side, idx as int, jj).1)
                    ==> has_key(self@.pairs, key_of(local_side, idx as int, jj).0, key_of(local_side, idx as int, jj).1),
            decreases other_len - j,
        {
            let li = if local_side { idx } else { j };
            let ri = if local_side { j } else { idx };
            assert(key_of(local_side, idx as int, j as int) == (li as int, ri as int));
            let l = self.local_candidates[li];
            let r = self.remote_candidates[ri];
            if !l.discarded && !r.discarded && l.addr.is_ipv6() == r.addr.is_ipv6() {
                let ghost s = self@.pairs;
                assert forall|t: int| 0 <= t < s.len() implies !(#[trigger] s[t].local_idx == li
                    && s[t].remote_idx == ri) by {
                    if v0.pairs.contains(s[t]) {
                        let k = choose|k: int| 0 <= k < v0.pairs.len() && v0.pairs[k] == s[t];
                        assert(!references(v0.pairs[k], local_side, idx as nat));
                    }
                }
                let (pos, p) = self.add_pair(li, ri);
                proof {
                    let n = self@.pairs;
                    s.insert_ensures(pos as int, p);
                    assert forall|t: int| 0 <= t < n.len() implies v0.pairs.contains(#[trigger] n[t])
                        || (references(n[t], local_side, idx as nat) && fresh_pair(n[t])
                        && (if local_side { n[t].remote_idx } else { n[t].local_idx }) < j + 1) by {
                        if t > pos {
                            assert(n[t] == s[t - 1]);
                        }
                    }
                    assert forall|k: int| 0 <= k < v0.pairs.len() implies n.contains(#[trigger] v0.pairs[k]) by {
                        assert(s.contains(v0.pairs[k]));
                        lemma_insert_contains(s, pos as int, p, v0.pairs[k]);
                    }
                    assert forall|jj: int| #![trigger key_of(local_side, idx as int, jj)]
                        0 <= jj < j + 1 && v0.pairable(key_of(local_side, idx as int, jj).0, key_of(local_side, idx as int, jj).1)
                        implies has_key(n, key_of(local_side, idx as int, jj).0, key_of(local_side, idx as int, jj).1) by {
                        if jj == j {
                            assert(n[pos as int] == p);
                        } else {
                            let kk = key_of(local_side, idx as int, jj);
                            let t = choose|t: int| 0 <= t < s.len() && (#[trigger] s[t]).local_idx == kk.0
                                && s[t].remote_idx == kk.1;
                            if t < pos {
                                assert(n[t] == s[t]);
                            } else {
                                assert(n[t + 1] == s[t]);
                            }
                        }
                    }
                }
            } else {
                assert(!v0.pairable(li as int, ri as int));
            }
            j = j + 1;
        }
    }
}

/// The candidate with its discarded flag set.
pub open spec fn discarded_copy(c: Candidate) -> Candidate {
    Candidate { discarded: true, ..c }
}

/// A live candidate of the same endpoint as `e` is discarded in favour of it.
pub open spec fn discard_if_match(c: Candidate, e: Candidate) -> Candidate {
    if !c.discarded && c.same_endpoint(&e) {
        discarded_copy(c)
    } else {
        c
    }
}

/// The candidate matches `c` in address, base and related address.
pub open spec fn matches_candidate(x: Candidate, c: Candidate) -> bool {
    x.addr == c.addr && x.base == c.base && x.raddr == c.raddr
}

impl IceAgentView {
    /// The local store, or the remote one.
    pub open spec fn store(self, local_side: bool) -> Seq<Candidate> {
        if local_side {
            self.local
        } else {
            self.remote
        }
    }

    /// Everything but the candidates, the pairs and the state is the same.
    pub open spec fn same_settings(self, o: IceAgentView) -> bool {
        &&& self.timing_advance == o.timing_advance
        &&& self.ice_lite == o.ice_lite
        &&& self.username == o.username
        &&& self.password == o.password
        &&& self.controlling == o.controlling
        &&& self.gathering_complete == o.gathering_complete
    }

    /// The local preference that a candidate gets when added now.
    pub open spec fn next_local_preference(self, c: Candidate) -> nat {
        (preference_start(c.kind, is_ipv6(c.addr)) - 2 * count_live_same(self.local, c.kind, is_ipv6(c.addr))) as nat
    }

    /// What is stored for a local candidate: its local preference assigned,
    /// its priority computed from it.
    pub open spec fn local_entry(self, c: Candidate) -> Candidate {
        Candidate { local_preference: self.next_local_preference(c) as u32, prio: None, discarded: false, ..c }
    }

    /// A live candidate of the same endpoint as `e` has a priority at least
    /// as high.
    pub open spec fn redundant(self, local_side: bool, e: Candidate) -> bool {
        exists|i: int| live_match(self.store(local_side), i, e)
            && e.spec_prio() <= (#[trigger] self.store(local_side)[i]).spec_prio()
    }

    /// Whether a local candidate is taken.
    pub open spec fn accepts_local(self, c: Candidate) -> bool {
        &&& self.state != IceConnectionState::Closed
        &&& !(self.ice_lite && c.kind != CandidateKind::Host)
        &&& !self.redundant(true, self.local_entry(c))
    }

    /// Whether a remote candidate is taken.
    pub open spec fn accepts_remote(self, c: Candidate) -> bool {
        &&& self.state != IceConnectionState::Closed
        &&& !self.redundant(false, Candidate { discarded: false, ..c })
    }

    /// `f` is this agent after `e` was appended to one store: the live
    /// candidate of the same endpoint discarded with its pairs, `e` paired
    /// with every candidate of the other side it can be paired with, and the
    /// state derived anew.
    pub open spec fn added(self, f: IceAgentView, local_side: bool, e: Candidate) -> bool {
        let s = self.store(local_side);
        let fs = f.store(local_side);
        let n = s.len() as int;
        &&& f.same_settings(self)
        &&& f.store(!local_side) == self.store(!local_side)
        &&& fs.len() == n + 1
        &&& fs[n] == e
        &&& forall|i: int| 0 <= i < n ==> #[trigger] fs[i] == discard_if_match(s[i], e)
        &&& forall|t: int| 0 <= t < f.pairs.len() ==> self.pairs.contains(#[trigger] f.pairs[t]) || (
            references(f.pairs[t], local_side, n as nat) && fresh_pair(f.pairs[t]))
        &&& forall|k: int| 0 <= k < self.pairs.len() && f.pairable(
            (#[trigger] self.pairs[k]).local_idx as int, self.pairs[k].remote_idx as int)
            ==> f.pairs.contains(self.pairs[k])
        &&& forall|j: int| #![trigger key_of(local_side, n, j)]
            f.pairable(key_of(local_side, n, j).0, key_of(local_side, n, j).1)
            ==> has_key(f.pairs, key_of(local_side, n, j).0, key_of(local_side, n, j).1)
        &&& f.state == next_state(self.state, f.pairs, self.gathering_complete)
    }

    /// A live local candidate matches `c`.
    pub open spec fn invalidatable(self, c: Candidate) -> bool {
        exists|i: int| 0 <= i < self.local.len() && !(#[trigger] self.local[i]).discarded
            && matches_candidate(self.local[i], c)
    }
}

impl IceAgent {
    /// Discards the candidate `idx` of one side and removes every pair that
    /// references it.
    fn discard_candidate(&mut self, local_side: bool, idx: usize)
        requires
            old(self).wf(),
            idx < old(self)@.store(local_side).len(),
        ensures
            final(self).wf(),
            final(self)@.same_settings(old(self)@),
            final(self)@.state == old(self)@.state,
            final(self)@.store(local_side) == old(self)@.store(local_side).update(
                idx as int, discarded_copy(old(self)@.store(local_side)[idx as int])),
            final(self)@.store(!local_side) == old(self)@.store(!local_side),
            forall|t: int| 0 <= t < final(self)@.pairs.len() ==> old(self)@.pairs.contains(
                #[trigger] final(self)@.pairs[t]) && !references(final(self)@.pairs[t], local_side, idx as nat),
            forall|k: int| 0 <= k < old(self)@.pairs.len() && !references(#[trigger] old(self)@.pairs[k], local_side, idx as nat)
                ==> final(self)@.pairs.contains(old(self)@.pairs[k]),
    {
        let ghost v0 = self@;
        if local_side {
            let c = self.local_candidates[idx];
            self.local_candidates.set(idx, Candidate { discarded: true, ..c });
        } else {
            let c = self.remote_candidates[idx];
            self.remote_candidates.set(idx, Candidate { discarded: true, ..c });
        }
        self.discard_candidate_pairs(local_side, idx);
        proof {
            let f = self@;
            assert forall|t: int| 0 <= t < f.pairs.len() implies f.pair_ok(#[trigger] f.pairs[t]) by {
                let k = choose|k: int| 0 <= k < v0.pairs.len() && v0.pairs[k] == f.pairs[t];
                assert(v0.pair_ok(v0.pairs[k]));
            }
            assert(candidates_wf(f.local));
            assert(candidates_wf(f.remote));
            assert forall|i: int, j: int|
                0 <= i < f.local.len() && 0 <= j < f.local.len() && i != j && !f.local[i].discarded && !f.local[j].discarded
                implies !(#[trigger] f.local[i]).same_endpoint(#[trigger] &f.local[j]) by {
                assert(!v0.local[i].discarded && !v0.local[j].discarded);
            }
            assert forall|i: int, j: int|
                0 <= i < f.remote.len() && 0 <= j < f.remote.len() && i != j && !f.remote[i].discarded && !f.remote[j].discarded
                implies !(#[trigger] f.remote[i]).same_endpoint(#[trigger] &f.remote[j]) by {
                assert(!v0.remote[i].discarded && !v0.remote[j].discarded);
            }
            if f.state == IceConnectionState::New && f.pairs.len() > 0 {
                assert(v0.pairs.contains(f.pairs[0]));
            }
        }
    }

    /// Removes every pair that references the candidate `idx` of one side.
    fn discard_candidate_pairs(&mut self, local_side: bool, idx: usize)
        requires
            pairs_sorted(old(self)@.pairs),
            pairs_unique(old(self)@.pairs),
        ensures
            final(self)@ == (IceAgentView { pairs: final(self)@.pairs, ..old(self)@ }),
            pairs_sorted(final(self)@.pairs),
            pairs_unique(final(self)@.pairs),
            forall|t: int| 0 <= t < final(self)@.pairs.len() ==> old(self)@.pairs.contains(
                #[trigger] final(self)@.pairs[t]) && !references(final(self)@.pairs[t], local_side, idx as nat),
            forall|k: int| 0 <= k < old(self)@.pairs.len() && !references(#[trigger] old(self)@.pairs[k], local_side, idx as nat)
                ==> final(self)@.pairs.contains(old(self)@.pairs[k]),
    {
        remove_pairs_referencing(&mut self.candidate_pairs, local_side, idx);
    }
}

impl IceAgent {
    /// Appends `e` to one store unless a live candidate of the same endpoint
    /// has a priority at least as high; a live one of lower priority is
    /// discarded in its favour. The new candidate is paired and the state
    /// derived anew.
    #[verifier::rlimit(50)]
    fn insert_candidate(&mut self, local_side: bool, e: Candidate) -> (r: bool)
        requires
            old(self).wf(),
            e.wf(),
            !e.discarded,
            local_side ==> e.prio is None,
            local_side ==> old(self)@.local.len() < MAX_LOCAL_CANDIDATES,
            !local_side ==> old(self)@.remote.len() < usize::MAX,
        ensures
            final(self).wf(),
            r == !old(self)@.redundant(local_side, e),
            !r ==> final(self)@ == old(self)@,
            r ==> old(self)@.added(final(self)@, local_side, e),
    {
        let ghost v0 = self@;
        let ep = e.prio();
        let found = if local_side {
            find_live_endpoint(&self.local_candidates, &e)
        } else {
            find_live_endpoint(&self.remote_candidates, &e)
        };
        match found {
            Some(i) => {
                let other = if local_side { self.local_candidates[i] } else { self.remote_candidates[i] };
                assert(other.wf()) by {
                    assert(v0.store(local_side)[i as int] == other);
                }
                let op = other.prio();
                if ep <= op {
                    assert(live_match(v0.store(local_side), i as int, e)
                        && e.spec_prio() <= v0.store(local_side)[i as int].spec_prio());
                    return false;
                }
                proof {
                    let st = v0.store(local_side);
                    assert forall|k: int| live_match(st, k, e) implies k == i by {
                        if k != i {
                            assert(st[k].same_endpoint(&st[i as int]));
                        }
                    }
                }
                self.discard_candidate(local_side, i);
            },
            None => {},
        }
        let ghost v1 = self@;
        proof {
            let st = v0.store(local_side);
            assert forall|k: int| 0 <= k < st.len() implies #[trigger] v1.store(local_side)[k]
                == discard_if_match(st[k], e) by {
                if let Some(i) = found {
                    if k != i {
                        assert(!live_match(st, k, e));
                    }
                } else {
                    assert(!live_match(st, k, e));
                }
            }
            assert(!v0.redundant(local_side, e)) by {
                if let Some(i) = found {
                    assert forall|k: int| live_match(st, k, e) implies !(e.spec_prio() <= (#[trigger] st[k]).spec_prio()) by {
                        if k != i {
                            assert(st[k].same_endpoint(&st[i as int]));
                        }
                    }
                }
            }
        }
        let n: usize;
        if local_side {
            n = self.local_candidates.len();
            self.local_candidates.push(e);
        } else {
            n = self.remote_candidates.len();
            self.remote_candidates.push(e);
        }
        let ghost v2 = self@;
        proof {
            assert(v2.store(local_side) == v1.store(local_side).push(e));
            assert(v2.store(!local_side) == v1.store(!local_side));
            assert forall|t: int| 0 <= t < v2.pairs.len() implies v2.pair_ok(#[trigger] v2.pairs[t])
                && !references(v2.pairs[t], local_side, n as nat) by {
                assert(v1.pair_ok(v1.pairs[t]));
            }
        }
        self.pair_candidate(local_side, n);
        let ghost v3 = self@;
        self.refresh_state();
        proof {
            let f = self@;
            let fs = f.store(local_side);
            assert(fs == v2.store(local_side));
            assert forall|i: int, j: int|
                0 <= i < fs.len() && 0 <= j < fs.len() && i != j && !fs[i].discarded && !fs[j].discarded
                implies !(#[trigger] fs[i]).same_endpoint(#[trigger] &fs[j]) by {
                if i < n && j < n {
                    assert(!v1.store(local_side)[i].discarded && !v1.store(local_side)[j].discarded);
                }
            }
            assert(candidates_wf(fs));
            assert forall|t: int| 0 <= t < f.pairs.len() implies v0.pairs.contains(#[trigger] f.pairs[t]) || (
                references(f.pairs[t], local_side, n as nat) && fresh_pair(f.pairs[t])) by {
                if v2.pairs.contains(f.pairs[t]) {
                    let k = choose|k: int| 0 <= k < v2.pairs.len() && v2.pairs[k] == f.pairs[t];
                    assert(v1.pairs[k] == v2.pairs[k]);
                }
            }
            assert forall|k: int| 0 <= k < v0.pairs.len() && f.pairable(
                (#[trigger] v0.pairs[k]).local_idx as int, v0.pairs[k].remote_idx as int)
                implies f.pairs.contains(v0.pairs[k]) by {
                if let Some(i) = found {
                    assert(!references(v0.pairs[k], local_side, i as nat));
                }
                assert(v1.pairs.contains(v0.pairs[k]));
                let t = choose|t: int| 0 <= t < v1.pairs.len() && v1.pairs[t] == v0.pairs[k];
                assert(v2.pairs[t] == v0.pairs[k]);
            }
            assert(fs[n as int] == e);
        }
        true
    }
}

impl IceAgent {
    /// Adds a local candidate.
    ///
    /// Its local preference is the top of its kind's band for its IP family
    /// less twice the number of live candidates of that kind and family.
    /// Returns `false`, and changes nothing, where the agent is closed, where
    /// an ice-lite agent is given anything but a host candidate, and where a
    /// live candidate of the same address and base has a priority at least as
    /// high. A live one of lower priority is discarded, with its pairs.
    pub fn add_local_candidate(&mut self, c: Candidate) -> (r: bool)
        requires
            old(self).wf(),
            c.wf(),
            old(self)@.local.len() < MAX_LOCAL_CANDIDATES,
        ensures
            final(self).wf(),
            r == old(self)@.accepts_local(c),
            !r ==> final(self)@ == old(self)@,
            r ==> old(self)@.added(final(self)@, true, old(self)@.local_entry(c)),
    {
        if self.state == IceConnectionState::Closed {
            return false;
        }
        if self.ice_lite && c.kind != CandidateKind::Host {
            return false;
        }
        let ipv6 = c.addr.is_ipv6();
        let start = pref_start(c.kind, ipv6);
        let same = count_same(&self.local_candidates, c.kind, ipv6);
        let e = Candidate { local_preference: start - 2 * same, prio: None, discarded: false, ..c };
        assert(e == self@.local_entry(c));
        self.insert_candidate(true, e)
    }

    /// Adds a candidate announced by the peer, under the same redundancy rule
    /// as local candidates, with the priority the peer gave it. Where the
    /// agent is closed, or a live remote candidate of the same address and
    /// base has a priority at least as high, nothing changes.
    pub fn add_remote_candidate(&mut self, c: Candidate)
        requires
            old(self).wf(),
            c.wf(),
            old(self)@.remote.len() < usize::MAX,
        ensures
            final(self).wf(),
            !old(self)@.accepts_remote(c) ==> final(self)@ == old(self)@,
            old(self)@.accepts_remote(c) ==> old(self)@.added(
                final(self)@, false, Candidate { discarded: false, ..c }),
    {
        if self.state == IceConnectionState::Closed {
            return;
        }
        self.insert_candidate(false, Candidate { discarded: false, ..c });
    }

    /// Invalidates the live local candidate that matches `c` in address,
    /// base and related address, and removes its pairs: for a network
    /// interface that went away. Returns `true` where there was one; else,
    /// and where the agent is closed, nothing changes.
    pub fn invalidate_candidate(&mut self, c: &Candidate) -> (r: bool)
        requires
            old(self).wf(),
        ensures
            final(self).wf(),
            r == (old(self)@.state != IceConnectionState::Closed && old(self)@.invalidatable(*c)),
            !r ==> final(self)@ == old(self)@,
            r ==> final(self)@.same_settings(old(self)@),
            r ==> final(self)@.remote == old(self)@.remote,
            r ==> final(self)@.local.len() == old(self)@.local.len(),
            r ==> forall|i: int| 0 <= i < old(self)@.local.len() ==> #[trigger] final(self)@.local[i] == if !old(
                self)@.local[i].discarded && matches_candidate(old(self)@.local[i], *c) {
                discarded_copy(old(self)@.local[i])
            } else {
                old(self)@.local[i]
            },
            r ==> forall|t: int| 0 <= t < final(self)@.pairs.len() ==> old(self)@.pairs.contains(
                #[trigger] final(self)@.pairs[t]),
            r ==> forall|k: int| 0 <= k < old(self)@.pairs.len() && final(self)@.pairable(
                (#[trigger] old(self)@.pairs[k]).local_idx as int, old(self)@.pairs[k].remote_idx as int)
                ==> final(self)@.pairs.contains(old(self)@.pairs[k]),
            r ==> final(self)@.state == next_state(old(self)@.state, final(self)@.pairs, old(self)@.gathering_complete),
            old(self)@.state != IceConnectionState::Closed ==> !final(self)@.invalidatable(*c),
    {
        let ghost v0 = self@;
        if self.state == IceConnectionState::Closed {
            return false;
        }
        let mut i: usize = 0;
        while i < self.local_candidates.len()
            invariant
                self@ == v0,
                v0 == old(self)@,
                v0.wf(),
                v0.state != IceConnectionState::Closed,
                0 <= i <= v0.local.len(),
                forall|k: int| 0 <= k < i ==> !(!(#[trigger] v0.local[k]).discarded && matches_candidate(v0.local[k], *c)),
            decreases v0.local.len() - i,
        {
            let x = self.local_candidates[i];
            if !x.discarded && x.addr == c.addr && x.base == c.base && x.raddr == c.raddr {
                proof {
                    assert forall|k: int| 0 <= k < v0.local.len() && k != i implies !(!(#[trigger] v0.local[k]).discarded
                        && matches_candidate(v0.local[k], *c)) by {
                        if !v0.local[k].discarded && matches_candidate(v0.local[k], *c) {
                            assert(v0.local[k].same_endpoint(&v0.local[i as int]));
                        }
                    }
                }
                self.discard_candidate(true, i);
                let ghost v1 = self@;
                self.refresh_state();
                proof {
                    let f = self@;
                    assert(v0.local[i as int] == x);
                    assert(v0.invalidatable(*c));
                    assert(f.same_settings(v1));
                    assert(v1.same_settings(v0));
                    assert forall|k: int| 0 <= k < v0.pairs.len() && f.pairable(
                        (#[trigger] v0.pairs[k]).local_idx as int, v0.pairs[k].remote_idx as int)
                        implies f.pairs.contains(v0.pairs[k]) by {
                        assert(!references(v0.pairs[k], true, i as nat));
                    }
                }
                return true;
            }
            i = i + 1;
        }
        false
    }
}

/// A pair after one of its checks ended with `outcome`; `nominate` says
/// whether a success nominates it.
pub open spec fn after_check(p: CandidatePair, outcome: CheckOutcome, nominate: bool) -> CandidatePair {
    match outcome {
        CheckOutcome::Success => CandidatePair { state: CandidatePairState::Succeeded, nominated: nominate, ..p },
        CheckOutcome::Recoverable => if p.attempts + 1 >= MAX_CHECK_ATTEMPTS {
            CandidatePair { state: CandidatePairState::Failed, ..p }
        } else {
            CandidatePair { state: CandidatePairState::Waiting, attempts: (p.attempts + 1) as u32, ..p }
        },
        CheckOutcome::Failure => CandidatePair { state: CandidatePairState::Failed, ..p },
    }
}

pub open spec fn with_state(p: CandidatePair, st: CandidatePairState) -> CandidatePair {
    CandidatePair { state: st, ..p }
}

/// `t` is the first pair that waits for its check.
pub open spec fn first_waiting(s: Seq<CandidatePair>, t: int) -> bool {
    &&& 0 <= t < s.len()
    &&& s[t].state == CandidatePairState::Waiting
    &&& forall|u: int| 0 <= u < t ==> (#[trigger] s[u]).state != CandidatePairState::Waiting
}

/// The pair at `t` holds the key, and is the one awaiting a response.
pub open spec fn in_progress_at(s: Seq<CandidatePair>, t: int, li: int, ri: int) -> bool {
    0 <= t < s.len() && s[t].local_idx == li && s[t].remote_idx == ri && s[t].state
        == CandidatePairState::InProgress
}

/// How a pair other than the checked one at `t` may change when the check
/// ends: a nomination fails the lower-priority pairs not yet checked, and a
/// frozen pair may be unfrozen.
pub open spec fn side_effect(old_p: CandidatePair, new_p: CandidatePair, u: int, t: int, nominated: bool) -> bool {
    ||| new_p == old_p
    ||| (nominated && u > t && (old_p.state == CandidatePairState::Waiting || old_p.state
        == CandidatePairState::Frozen) && new_p == with_state(old_p, CandidatePairState::Failed))
    ||| (old_p.state == CandidatePairState::Frozen && new_p == with_state(old_p, CandidatePairState::Waiting))
}

impl IceAgent {
    /// The next connectivity check to start, on a tick of Ta: the pair of
    /// highest priority that waits for its check is put in progress and its
    /// local and remote index returned. `None` where the agent is closed or
    /// no pair waits.
    pub fn poll_check(&mut self) -> (r: Option<(usize, usize)>)
        requires
            old(self).wf(),
        ensures
            final(self).wf(),
            r is None ==> final(self)@ == old(self)@,
            r is None <==> (old(self)@.state == IceConnectionState::Closed || forall|t: int|
                0 <= t < old(self)@.pairs.len() ==> (#[trigger] old(self)@.pairs[t]).state
                != CandidatePairState::Waiting),
            r matches Some(k) ==> exists|t: int| #![trigger old(self)@.pairs[t]]
                first_waiting(old(self)@.pairs, t) && k.0 == old(self)@.pairs[t].local_idx
                && k.1 == old(self)@.pairs[t].remote_idx && final(self)@ == (IceAgentView {
                    pairs: old(self)@.pairs.update(t, with_state(old(self)@.pairs[t], CandidatePairState::InProgress)),
                    ..old(self)@
                }),
    {
        if self.state == IceConnectionState::Closed {
            return None;
        }
        let ghost v0 = self@;
        let mut i: usize = 0;
        while i < self.candidate_pairs.len()
            invariant
                self@ == v0,
                v0 == old(self)@,
                v0.wf(),
                v0.state != IceConnectionState::Closed,
                0 <= i <= v0.pairs.len(),
                forall|u: int| 0 <= u < i ==> (#[trigger] v0.pairs[u]).state != CandidatePairState::Waiting,
            decreases v0.pairs.len() - i,
        {
            let p = self.candidate_pairs[i];
            if p.state == CandidatePairState::Waiting {
                self.candidate_pairs.set(i, CandidatePair { state: CandidatePairState::InProgress, ..p });
                proof {
                    let f = self@;
                    assert forall|t: int| 0 <= t < f.pairs.len() implies f.pair_ok(#[trigger] f.pairs[t]) by {
                        assert(v0.pair_ok(v0.pairs[t]));
                    }
                    assert(pairs_sorted(f.pairs)) by {
                        assert forall|a: int, b: int| 0 <= a < b < f.pairs.len() implies (#[trigger] f.pairs[a]).prio
                            >= (#[trigger] f.pairs[b]).prio by {
                            assert(v0.pairs[a].prio >= v0.pairs[b].prio);
                        }
                    }
                    assert(pairs_unique(f.pairs)) by {
                        assert forall|a: int, b: int| 0 <= a < f.pairs.len() && 0 <= b < f.pairs.len() && a != b
                            implies !same_key(#[trigger] f.pairs[a], #[trigger] f.pairs[b]) by {
                            assert(!same_key(v0.pairs[a], v0.pairs[b]));
                        }
                    }
                    assert(first_waiting(v0.pairs, i as int));
                    assert(f == (IceAgentView {
                        pairs: v0.pairs.update(i as int, with_state(v0.pairs[i as int], CandidatePairState::InProgress)),
                        ..v0
                    }));
                }
                return Some((p.local_idx, p.remote_idx));
            }
            i = i + 1;
        }
        None
    }
}

impl IceAgent {
    /// Replaces the pair at `t` by one of the same key and priority.
    fn replace_pair(&mut self, t: usize, q: CandidatePair)
        requires
            old(self).wf(),
            t < old(self)@.pairs.len(),
            same_key(q, old(self)@.pairs[t as int]),
            q.prio == old(self)@.pairs[t as int].prio,
            q.nominated ==> q.state == CandidatePairState::Succeeded,
        ensures
            final(self).wf(),
            final(self)@ == (IceAgentView { pairs: old(self)@.pairs.update(t as int, q), ..old(self)@ }),
    {
        let ghost v0 = self@;
        self.candidate_pairs.set(t, q);
        proof {
            let f = self@;
            assert forall|u: int| 0 <= u < f.pairs.len() implies f.pair_ok(#[trigger] f.pairs[u]) by {
                assert(v0.pair_ok(v0.pairs[u]));
            }
            assert forall|a: int, b: int| 0 <= a < b < f.pairs.len() implies (#[trigger] f.pairs[a]).prio
                >= (#[trigger] f.pairs[b]).prio by {
                assert(v0.pairs[a].prio >= v0.pairs[b].prio);
            }
            assert forall|a: int, b: int| 0 <= a < f.pairs.len() && 0 <= b < f.pairs.len() && a != b
                implies !same_key(#[trigger] f.pairs[a], #[trigger] f.pairs[b]) by {
                assert(!same_key(v0.pairs[a], v0.pairs[b]));
            }
        }
    }

    /// The index of the pair of `li` and `ri`, if there is one.
    fn find_pair(&self, li: usize, ri: usize) -> (r: Option<usize>)
        ensures
            r matches Some(t) ==> t < self@.pairs.len() && self@.pairs[t as int].local_idx == li
                && self@.pairs[t as int].remote_idx == ri,
            r is None ==> forall|u: int| 0 <= u < self@.pairs.len() ==> !(#[trigger] self@.pairs[u].local_idx == li
                && self@.pairs[u].remote_idx == ri),
    {
        let mut t: usize = 0;
        while t < self.candidate_pairs.len()
            invariant
                0 <= t <= self@.pairs.len(),
                forall|u: int| 0 <= u < t ==> !(#[trigger] self@.pairs[u].local_idx == li
                    && self@.pairs[u].remote_idx == ri),
            decreases self@.pairs.len() - t,
        {
            if self.candidate_pairs[t].local_idx == li && self.candidate_pairs[t].remote_idx == ri {
                return Some(t);
            }
            t = t + 1;
        }
        None
    }

    /// Takes the outcome of the check of the pair of `local_idx` and
    /// `remote_idx`. A success marks it succeeded, and nominated where this
    /// side is controlling or the peer asked for it (`use_candidate`); a
    /// nomination fails the lower-priority pairs not yet checked. A
    /// recoverable error sends it back to wait, up to a bounded number of
    /// attempts; a failure fails it. Once its foundation has no pair waiting
    /// or in progress, one frozen pair of that foundation is unfrozen.
    /// Returns `false`, and changes nothing, where the agent is closed or
    /// that pair awaits no response: a late response is no error.
    pub fn handle_check_result(
        &mut self,
        local_idx: usize,
        remote_idx: usize,
        outcome: CheckOutcome,
        use_candidate: bool,
    ) -> (r: bool)
        requires
            old(self).wf(),
        ensures
            final(self).wf(),
            r == (old(self)@.state != IceConnectionState::Closed && exists|t: int|
                in_progress_at(old(self)@.pairs, t, local_idx as int, remote_idx as int)),
            !r ==> final(self)@ == old(self)@,
            r ==> final(self)@.same_settings(old(self)@),
            r ==> final(self)@.local == old(self)@.local && final(self)@.remote == old(self)@.remote,
            r ==> final(self)@.pairs.len() == old(self)@.pairs.len(),
            r ==> exists|t: int| #![trigger old(self)@.pairs[t]]
                in_progress_at(old(self)@.pairs, t, local_idx as int, remote_idx as int)
                && final(self)@.pairs[t] == after_check(old(self)@.pairs[t], outcome,
                    outcome == CheckOutcome::Success && (old(self)@.controlling || use_candidate))
                && forall|u: int| 0 <= u < old(self)@.pairs.len() && u != t ==> side_effect(
                    #[trigger] old(self)@.pairs[u], final(self)@.pairs[u], u, t,
                    outcome == CheckOutcome::Success && (old(self)@.controlling || use_candidate)),
            r ==> final(self)@.state == next_state(old(self)@.state, final(self)@.pairs, old(self)@.gathering_complete),
    {
        if self.state == IceConnectionState::Closed {
            return false;
        }
        let ghost v0 = self@;
        let found = self.find_pair(local_idx, remote_idx);
        let t = match found {
            Some(t) => t,
            None => {
                return false;
            },
        };
        if self.candidate_pairs[t].state != CandidatePairState::InProgress {
            proof {
                assert forall|u: int| !in_progress_at(v0.pairs, u, local_idx as int, remote_idx as int) by {
                    if in_progress_at(v0.pairs, u, local_idx as int, remote_idx as int) && u != t {
                        assert(same_key(v0.pairs[u], v0.pairs[t as int]));
                    }
                }
            }
            return false;
        }
        assert(in_progress_at(v0.pairs, t as int, local_idx as int, remote_idx as int));
        let p = self.candidate_pairs[t];
        let nominate = outcome == CheckOutcome::Success && (self.controlling || use_candidate);
        let q = match outcome {
            CheckOutcome::Success => CandidatePair { state: CandidatePairState::Succeeded, nominated: nominate, ..p },
            CheckOutcome::Recoverable => if p.attempts >= MAX_CHECK_ATTEMPTS - 1 {
                CandidatePair { state: CandidatePairState::Failed, ..p }
            } else {
                CandidatePair { state: CandidatePairState::Waiting, attempts: p.attempts + 1, ..p }
            },
            CheckOutcome::Failure => CandidatePair { state: CandidatePairState::Failed, ..p },
        };
        assert(q == after_check(p, outcome, nominate));
        self.replace_pair(t, q);
        if nominate {
            let n = self.candidate_pairs.len();
            let mut u: usize = t + 1;
            while u < self.candidate_pairs.len()
                invariant
                    self.wf(),
                    self@.same_settings(v0),
                    self@.local == v0.local && self@.remote == v0.remote && self@.state == v0.state,
                    self@.pairs.len() == v0.pairs.len(),
                    nominate,
                    n == v0.pairs.len(),
                    t < u <= v0.pairs.len() + 1,
                    self@.pairs[t as int] == q,
                    forall|w: int| u <= w < v0.pairs.len() ==> #[trigger] self@.pairs[w] == v0.pairs[w],
                    forall|w: int| 0 <= w < v0.pairs.len() && w != t ==> side_effect(
                        #[trigger] v0.pairs[w], self@.pairs[w], w, t as int, nominate),
                decreases v0.pairs.len() + 1 - u,
            {
                let x = self.candidate_pairs[u];
                if x.state == CandidatePairState::Waiting || x.state == CandidatePairState::Frozen {
                    assert(self@.pairs[u as int] == v0.pairs[u as int]);
                    let ghost before = self@.pairs;
                    self.replace_pair(u, CandidatePair { state: CandidatePairState::Failed, ..x });
                    proof {
                        assert forall|w: int| 0 <= w < v0.pairs.len() && w != t implies side_effect(
                            #[trigger] v0.pairs[w], self@.pairs[w], w, t as int, nominate) by {
                            if w != u {
                                assert(self@.pairs[w] == before[w]);
                            }
                        }
                    }
                }
                u = u + 1;
            }
        }
        assert(v0.pair_ok(v0.pairs[t as int]));
        let pl = self.local_candidates[p.local_idx];
        let pr = self.remote_candidates[p.remote_idx];
        if q.state == CandidatePairState::Succeeded || q.state == CandidatePairState::Failed {
            let active = self.foundation_active(p.local_idx, p.remote_idx);
            if !active {
                let mut u: usize = 0;
                while u < self.candidate_pairs.len()
                    invariant
                        self.wf(),
                        self@.same_settings(v0),
                        self@.local == v0.local && self@.remote == v0.remote && self@.state == v0.state,
                        self@.pairs.len() == v0.pairs.len(),
                        0 <= u <= v0.pairs.len(),
                        t < v0.pairs.len(),
                        q.state == CandidatePairState::Succeeded || q.state == CandidatePairState::Failed,
                        pl == v0.local[p.local_idx as int],
                        pr == v0.remote[p.remote_idx as int],
                        self@.pairs[t as int] == q,
                        forall|w: int| 0 <= w < v0.pairs.len() && w != t ==> side_effect(
                            #[trigger] v0.pairs[w], self@.pairs[w], w, t as int, nominate),
                    decreases v0.pairs.len() - u,
                {
                    let x = self.candidate_pairs[u];
                    if x.state == CandidatePairState::Frozen {
                        assert(self@.pair_ok(self@.pairs[u as int]));
                        let xl = self.local_candidates[x.local_idx];
                        let xr = self.remote_candidates[x.remote_idx];
                        if xl.kind == pl.kind && xl.base == pl.base && xr.kind == pr.kind && xr.base == pr.base {
                            assert(u != t);
                            assert(self@.pairs[u as int] == v0.pairs[u as int]);
                            let ghost before = self@.pairs;
                            self.replace_pair(u, CandidatePair { state: CandidatePairState::Waiting, ..x });
                            proof {
                                assert forall|w: int| 0 <= w < v0.pairs.len() && w != t implies side_effect(
                                    #[trigger] v0.pairs[w], self@.pairs[w], w, t as int, nominate) by {
                                    if w != u {
                                        assert(self@.pairs[w] == before[w]);
                                    }
                                }
                            }
                            break;
                        }
                    }
                    u = u + 1;
                }
            }
        }
        self.refresh_state();
        true
    }
}

impl IceAgent {
    /// Records that gathering of local candidates has finished, and derives
    /// the state anew.
    pub fn set_gathering_complete(&mut self)
        requires
            old(self).wf(),
        ensures
            final(self).wf(),
            final(self)@ == (IceAgentView {
                gathering_complete: true,
                state: next_state(old(self)@.state, old(self)@.pairs, true),
                ..old(self)@
            }),
    {
        self.gathering_complete = true;
        self.refresh_state();
    }

    /// Takes the outcome of a consent-freshness check of the nominated pair:
    /// a failure takes `Connected` or `Completed` to `Disconnected`; a later
    /// success takes `Disconnected` back to `Connected`. Other states stay.
    pub fn consent_result(&mut self, ok: bool)
        requires
            old(self).wf(),
        ensures
            final(self).wf(),
            final(self)@ == (IceAgentView { state: consent_step(old(self)@.state, ok), ..old(self)@ }),
    {
        let st = self.state;
        if !ok && (st == IceConnectionState::Connected || st == IceConnectionState::Completed) {
            self.state = IceConnectionState::Disconnected;
        } else if ok && st == IceConnectionState::Disconnected {
            self.state = IceConnectionState::Connected;
        }
    }

    /// Shuts the agent down: every pair awaiting a response is failed, and
    /// no candidate, check or response is taken after.
    pub fn close(&mut self)
        requires
            old(self).wf(),
        ensures
            final(self).wf(),
            final(self)@.state == IceConnectionState::Closed,
            final(self)@.same_settings(old(self)@),
            final(self)@.local == old(self)@.local,
            final(self)@.remote == old(self)@.remote,
            final(self)@.pairs.len() == old(self)@.pairs.len(),
            forall|t: int| 0 <= t < old(self)@.pairs.len() ==> #[trigger] final(self)@.pairs[t] == if old(
                self)@.pairs[t].state == CandidatePairState::InProgress {
                with_state(old(self)@.pairs[t], CandidatePairState::Failed)
            } else {
                old(self)@.pairs[t]
            },
    {
        let ghost v0 = self@;
        self.state = IceConnectionState::Closed;
        let mut u: usize = 0;
        while u < self.candidate_pairs.len()
            invariant
                self.wf(),
                self@.same_settings(v0),
                self@.local == v0.local && self@.remote == v0.remote,
                self@.state == IceConnectionState::Closed,
                self@.pairs.len() == v0.pairs.len(),
                0 <= u <= v0.pairs.len(),
                forall|w: int| 0 <= w < u ==> #[trigger] self@.pairs[w] == if v0.pairs[w].state
                    == CandidatePairState::InProgress {
                    with_state(v0.pairs[w], CandidatePairState::Failed)
                } else {
                    v0.pairs[w]
                },
                forall|w: int| u <= w < v0.pairs.len() ==> #[trigger] self@.pairs[w] == v0.pairs[w],
            decreases v0.pairs.len() - u,
        {
            let x = self.candidate_pairs[u];
            if x.state == CandidatePairState::InProgress {
                self.replace_pair(u, CandidatePair { state: CandidatePairState::Failed, ..x });
            }
            u = u + 1;
        }
    }
}

/// The state after a consent-freshness check.
pub open spec fn consent_step(st: IceConnectionState, ok: bool) -> IceConnectionState {
    if !ok && (st == IceConnectionState::Connected || st == IceConnectionState::Completed) {
        IceConnectionState::Disconnected
    } else if ok && st == IceConnectionState::Disconnected {
        IceConnectionState::Connected
    } else {
        st
    }
}

/// Live candidates of a kind and family never become fewer as a store grows.
proof fn lemma_count_monotone(s: Seq<Candidate>, k: CandidateKind, ipv6: bool, a: int, b: int)
    requires
        0 <= a <= b <= s.len(),
    ensures
        count_live_same(s.subrange(0, a), k, ipv6) <= count_live_same(s.subrange(0, b), k, ipv6),
    decreases b - a,
{
    if a < b {
        lemma_count_monotone(s, k, ipv6, a, b - 1);
        assert(s.subrange(0, b).drop_last() == s.subrange(0, b - 1));
    }
}

/// A store holds no more live candidates of a kind and family than it holds.
proof fn lemma_count_bounded(s: Seq<Candidate>, k: CandidateKind, ipv6: bool)
    ensures
        count_live_same(s, k, ipv6) <= s.len(),
    decreases s.len(),
{
    if s.len() > 0 {
        lemma_count_bounded(s.drop_last(), k, ipv6);
    }
}

/// Each host candidate got its local preference when it was added: the top
/// of the host band for its family, less twice the live host candidates of
/// that family before it.
pub open spec fn host_preferences_assigned(s: Seq<Candidate>) -> bool {
    forall|i: int| #![trigger s[i]] 0 <= i < s.len() ==> s[i].kind == CandidateKind::Host && !s[i].discarded
        && s[i].local_preference == preference_start(CandidateKind::Host, is_ipv6(s[i].addr)) - 2
        * count_live_same(s.subrange(0, i), CandidateKind::Host, is_ipv6(s[i].addr))
}

/// Host candidates added one after another get local preferences that are
/// odd for IPv6 and even for IPv4, and strictly decrease within a family.
pub proof fn lemma_host_preferences_interleave(s: Seq<Candidate>)
    requires
        host_preferences_assigned(s),
    ensures
        forall|i: int| #![trigger s[i]] 0 <= i < s.len() ==> s[i].local_preference % 2 == if is_ipv6(s[i].addr) {
            1u32
        } else {
            0u32
        },
        forall|i: int, j: int| 0 <= i < j < s.len() && same_family(s[i].addr, s[j].addr)
            ==> (#[trigger] s[i]).local_preference > (#[trigger] s[j]).local_preference,
{
    assert forall|i: int, j: int| 0 <= i < j < s.len() && same_family(s[i].addr, s[j].addr)
        implies (#[trigger] s[i]).local_preference > (#[trigger] s[j]).local_preference by {
        let f = is_ipv6(s[i].addr);
        lemma_count_monotone(s, CandidateKind::Host, f, i + 1, j);
        assert(s.subrange(0, i + 1).drop_last() == s.subrange(0, i));
        assert(count_live_same(s.subrange(0, i + 1), CandidateKind::Host, f) == count_live_same(
            s.subrange(0, i), CandidateKind::Host, f) + 1);
    }
}

/// A reflexive candidate at the address and base of a live host candidate is
/// redundant: it is not added.
pub proof fn lemma_reflexive_redundant_to_host(v: IceAgentView, c: Candidate, i: int)
    requires
        v.wf(),
        0 <= i < v.local.len(),
        v.local[i].kind == CandidateKind::Host,
        !v.local[i].discarded,
        v.local[i].same_endpoint(&c),
        c.kind == CandidateKind::ServerReflexive || c.kind == CandidateKind::PeerReflexive,
    ensures
        !v.accepts_local(c),
{
    let e = v.local_entry(c);
    lemma_count_bounded(v.local, c.kind, is_ipv6(c.addr));
    assert(e.local_preference <= 65535);
    assert(v.local[i].wf());
    assert(v.local[i].prio is None);
    assert(live_match(v.local, i, e));
    assert(e.spec_prio() <= v.local[i].spec_prio());
    assert(v.store(true) == v.local);
    assert(live_match(v.store(true), i, e) && e.spec_prio() <= v.store(true)[i].spec_prio());
}

/// A host candidate at the address and base of a live peer-reflexive
/// candidate is added, and the peer-reflexive one is discarded.
pub proof fn lemma_host_replaces_reflexive(v: IceAgentView, c: Candidate, i: int)
    requires
        v.wf(),
        v.state != IceConnectionState::Closed,
        0 <= i < v.local.len(),
        v.local[i].kind == CandidateKind::PeerReflexive,
        !v.local[i].discarded,
        v.local[i].same_endpoint(&c),
        c.kind == CandidateKind::Host,
    ensures
        v.accepts_local(c),
        discard_if_match(v.local[i], v.local_entry(c)).discarded,
{
    let e = v.local_entry(c);
    assert forall|k: int| live_match(v.local, k, e) implies !(e.spec_prio() <= (#[trigger] v.local[k]).spec_prio()) by {
        if k != i {
            assert(v.local[k].same_endpoint(&v.local[i]));
        }
        assert(v.local[k].wf());
    }
}

/// No pair references a discarded candidate.
pub proof fn lemma_pairs_reference_live_candidates(v: IceAgentView, t: int)
    requires
        v.wf(),
        0 <= t < v.pairs.len(),
    ensures
        !v.local[v.pairs[t].local_idx as int].discarded,
        !v.remote[v.pairs[t].remote_idx as int].discarded,
{
    assert(v.pair_ok(v.pairs[t]));
}

impl IceAgent {
    /// The deadline for the next tick of the scheduler, given the time now
    /// in milliseconds: one Ta later (at most `u64::MAX`). `None` once the
    /// agent is closed.
    pub fn poll_timeout(&self, now_ms: u64) -> (r: Option<u64>)
        ensures
            self@.state == IceConnectionState::Closed ==> r is None,
            self@.state != IceConnectionState::Closed ==> r == Some(
                if now_ms + self.spec_timing_advance() > u64::MAX {
                    u64::MAX
                } else {
                    (now_ms + self.spec_timing_advance()) as u64
                },
            ),
    {
        if self.state == IceConnectionState::Closed {
            return None;
        }
        Some(now_ms.saturating_add(self.timing_advance()))
    }
}

} // verus!
