use vstd::prelude::*;

verus! {

/// The address the server listens on when none is configured.
pub fn default_address() -> (r: String)
    ensures
        r@ == "[::1]:8001"@,
{
    String::from_str("[::1]:8001")
}

/// The store URL used when none is configured.
pub fn default_redis_url() -> (r: String)
    ensures
        r@ == "redis://127.0.0.1/"@,
{
    String::from_str("redis://127.0.0.1/")
}

} // verus!
