use vstd::prelude::*;

verus! {

/// Identifier of a plugin handle on a media backend.
#[derive(Clone, Copy, Debug, PartialEq, Eq, Structural, Hash)]
pub struct HandleId(pub i64);

/// Identifier of a session on a media backend.
#[derive(Clone, Copy, Debug, PartialEq, Eq, Structural, Hash)]
pub struct SessionId(pub i64);

/// Relies on rand::random for a uniformly drawn `i64`; nothing is known of the value.
#[verifier::external_body]
fn random_i64() -> (r: i64) {
    rand::random::<i64>()
}

impl HandleId {
    /// The fixed handle identifier used where no real handle exists yet.
    pub fn stub_id() -> (r: HandleId)
        ensures
            r.0 == 123,
    {
        HandleId(123)
    }

    /// A randomly drawn handle identifier.
    pub fn random() -> (r: HandleId) {
        HandleId(random_i64())
    }
}

impl SessionId {
    /// A randomly drawn session identifier.
    pub fn random() -> (r: SessionId) {
        SessionId(random_i64())
    }
}

} // verus!
