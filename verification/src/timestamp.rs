//! Timestamp rebasing for remuxed packets.
//!
//! Streams that are copied packet by packet may start at an arbitrary
//! timestamp; the first packet fixes a shift that rebases the stream to
//! zero, and every later packet is moved by that same shift.

use vstd::prelude::*;

verus! {

/// Rebases one timestamp. The first timestamped packet records the
/// negated timestamp as the stream's shift and is itself rebased to
/// zero; later packets are moved by the recorded shift. A packet without
/// a timestamp is passed through and records nothing.
pub fn make_shift(cur: Option<i64>, shift: &mut Option<i64>) -> (r: Option<i64>)
    requires
        cur matches Some(c) ==> (*old(shift) matches Some(sh) ==> i64::MIN <= c + sh <= i64::MAX),
        cur matches Some(c) ==> (*old(shift) is None ==> c != i64::MIN),
    ensures
        cur is None ==> r == cur && *final(shift) == *old(shift),
        cur matches Some(c) ==> (*old(shift) matches Some(sh) ==> r == Some((c + sh) as i64)
            && *final(shift) == *old(shift)),
        cur matches Some(c) ==> (*old(shift) is None ==> r == Some(0i64) && *final(shift) == Some(
            (-c) as i64,
        )),
{
    if let Some(c) = cur {
        if let Some(sh) = *shift {
            Some(c + sh)
        } else {
            *shift = Some(-c);
            Some(0)
        }
    } else {
        cur
    }
}

} // verus!
