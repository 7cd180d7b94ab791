//! The handlers a listener can hand received data to.
pub mod call;
pub mod redis;

use vstd::prelude::*;

verus! {

/// The handler that a listener's configuration names: 1 for `redis`, and
/// 0, the handler that answers with nothing, for any other name.
pub fn get_id_handler(handler: String) -> (r: usize)
    ensures
        r == (if handler@ == "redis"@ {
            1usize
        } else {
            0usize
        }),
{
    if handler == String::from_str("redis") {
        return 1;
    } else {
        return 0;
    }
}

} // verus!
