//! The authentication values that the orchestration and WebSocket logic read:
//! a shared authentication configuration, known by its identity and by the
//! verdict of its own validation, and the authenticated user that an
//! authentication middleware attaches to a request.
use vstd::prelude::*;

verus! {

/// A shared authentication configuration. Several rules may share one
/// configuration; `handle` identifies it (two values with the same handle
/// stand for the same configuration), and `problem` is what the
/// configuration's own validation reports (`None` when it is valid).
#[derive(Debug, Clone)]
pub struct SharedAuthConfig {
    pub handle: u64,
    pub problem: Option<String>,
}

impl SharedAuthConfig {
    /// A configuration with identity `handle` and validation verdict `problem`.
    pub fn new(handle: u64, problem: Option<String>) -> (res: Self)
        ensures
            res.handle == handle,
            res.problem == problem,
    {
        SharedAuthConfig { handle, problem }
    }
}

/// How a request was authenticated.
#[derive(Debug, Clone, Copy, PartialEq, Eq, Structural)]
pub enum AuthType {
    Basic,
    ApiKey,
    Jwt,
}

/// An authenticated user.
#[derive(Debug, Clone)]
pub struct User {
    pub id: String,
    pub username: String,
    pub roles: Vec<String>,
    pub permissions: Vec<String>,
}

/// The user attached to a request by an authentication middleware.
#[derive(Debug, Clone)]
pub struct AuthUser {
    pub user: User,
    pub auth_type: AuthType,
}

} // verus!
