//! The decisions that the permission queries of the oracles feed.
use vstd::prelude::*;
use vstd::string::*;
use crate::common::{StdError, StdResult};

verus! {

/// Fails where the user is neither an oracle admin nor a price bot;
/// `is_admin` and `is_bot` are the outcomes of the two permission checks.
pub fn require_admin_or_bot(is_admin: StdResult<()>, is_bot: StdResult<()>) -> (r: StdResult<()>)
    ensures
        r is Ok <==> is_admin is Ok || is_bot is Ok,
        r matches Err(e) ==> e.is_generic("User is not an admin or bot."@),
{
    if is_admin.is_err() && is_bot.is_err() {
        Err(StdError::generic_err(String::from_str("User is not an admin or bot.")))
    } else {
        Ok(())
    }
}

} // verus!
