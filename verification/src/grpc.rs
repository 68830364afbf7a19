//! The decisions of a gRPC service whose messages are generated elsewhere:
//! the numbered messages of its download stream.

use crate::text::{decimal, decimal_text, push_str};
use vstd::prelude::*;

verus! {

/// The service.
pub struct ApiImpl {}

impl Default for ApiImpl {
    fn default() -> (r: Self)
        ensures
            r == (ApiImpl {}),
    {
        ApiImpl {}
    }
}

impl ApiImpl {
    /// The text of the `counter`-th message of the download stream, from
    /// 0: `count N`.
    pub fn download_message(counter: u64) -> (r: String)
        ensures
            r@ == "count "@ + decimal(counter as nat),
    {
        let mut r = String::new();
        push_str(&mut r, "count ");
        let digits = decimal_text(counter);
        push_str(&mut r, digits.as_str());
        assert(r@ =~= "count "@ + decimal(counter as nat));
        r
    }
}

} // verus!
