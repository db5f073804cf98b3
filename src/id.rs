use vstd::prelude::*;

verus! {

pub open spec fn is_alphanumeric(c: char) -> bool {
    ('a' <= c && c <= 'z') || ('A' <= c && c <= 'Z') || ('0' <= c && c <= '9')
}

/// Relies on rand's `DistString::sample_string` for the `Alphanumeric`
/// distribution, drawn from the thread-local generator (seeded from the
/// operating system): `len` characters, each an ASCII letter or digit.
#[verifier::external_body]
pub(crate) fn random_alphanumeric(len: usize) -> (r: String)
    ensures
        r@.len() == len,
        forall|i: int| 0 <= i < len ==> is_alphanumeric(#[trigger] r@[i]),
{
    rand::distributions::DistString::sample_string(
        &rand::distributions::Alphanumeric,
        &mut rand::thread_rng(),
        len,
    )
}

} // verus!
