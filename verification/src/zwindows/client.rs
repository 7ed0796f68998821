//! The state array of a toplevel handle.

use vstd::prelude::*;

use crate::wire;
use crate::wire::ByteOrder;

verus! {

/// State entry of a minimized toplevel.
pub const STATE_MINIMIZED: u32 = 1;

/// State entry of an activated toplevel.
pub const STATE_ACTIVATED: u32 = 2;

/// Whether one of the four-byte entries of `raw` is `value`. Bytes behind the
/// last whole entry do not count.
pub open spec fn has_state(raw: Seq<u8>, order: ByteOrder, value: u32) -> bool {
    exists|i: int| 0 <= i && i * 4 + 4 <= raw.len() && #[trigger] wire::word(raw, i * 4, 4, order) == value
}

/// Reads the flags out of a state array: whether the toplevel is activated, and
/// whether it is minimized.
pub fn decode_state(raw: &[u8], order: ByteOrder) -> (r: (bool, bool))
    ensures
        r.0 == has_state(raw@, order, STATE_ACTIVATED),
        r.1 == has_state(raw@, order, STATE_MINIMIZED),
{
    let mut activated = false;
    let mut minimized = false;
    let n: usize = raw.len() / 4;
    let mut i: usize = 0;
    while i < n
        invariant
            i <= n,
            n == raw@.len() / 4,
            raw@.len() <= usize::MAX,
            activated == exists|j: int|
                0 <= j < i && #[trigger] wire::word(raw@, j * 4, 4, order) == STATE_ACTIVATED,
            minimized == exists|j: int|
                0 <= j < i && #[trigger] wire::word(raw@, j * 4, 4, order) == STATE_MINIMIZED,
        decreases n - i,
    {
        let value: u32 = wire::read_u32(raw, i * 4, order);
        proof {
            assert(value == wire::word(raw@, (i as int) * 4, 4, order));
        }
        if value == STATE_ACTIVATED {
            activated = true;
        } else if value == STATE_MINIMIZED {
            minimized = true;
        }
        i = i + 1;
    }
    (activated, minimized)
}

} // verus!
