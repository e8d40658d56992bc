//! The closed set of protocol error kinds.
use vstd::prelude::*;

verus! {

pub const NOT_FOUND: &'static str = "not_found";

pub const AUTH_FAILED: &'static str = "auth_failed";

pub const PERMISSION_DENIED: &'static str = "permission_denied";

pub const RATE_LIMITED: &'static str = "rate_limited";

pub const UNSUPPORTED: &'static str = "unsupported";

pub const UNSUPPORTED_VERSION: &'static str = "unsupported_version";

pub const INVALID_REQUEST: &'static str = "invalid_request";

pub const INTERNAL: &'static str = "internal";

} // verus!
