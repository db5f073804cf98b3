//! The connectivity-establishment core of an ICE agent: candidates, their
//! priorities, the pairing of local and remote candidates, the connectivity
//! check schedule and the overall connection state.

mod agent;
mod candidate;
mod id;
mod pair;

pub use agent::{
    CheckOutcome, IceAgent, IceAgentView, IceConnectionState, DEFAULT_TIMING_ADVANCE_MS,
    MAX_CHECK_ATTEMPTS, MAX_LOCAL_CANDIDATES, PASSWORD_LEN, USERNAME_LEN,
};
pub use candidate::{usable_ip, Candidate, CandidateKind, IceError, IpAddress, TransportAddr};
pub use pair::{pair_priority, CandidatePair, CandidatePairState};
