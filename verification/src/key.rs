//! The keys of piston's keyboard, as far as a behavior tree looks at them.

use piston::keyboard::Key;
use vstd::prelude::*;

verus! {

/// piston's `keyboard::Key`, an enum without fields that names the keys of a keyboard.
/// Nothing is known here of a key but which key it is.
#[verifier::external_type_specification]
#[verifier::external_body]
pub struct ExKey(Key);

/// Compares two keys with the `==` that piston derives for `Key`. The enum has no fields, so
/// the derived comparison is true exactly when both values are the same key.
#[verifier::external_body]
pub(crate) fn same_key(a: Key, b: Key) -> (same: bool)
    ensures
        same == (a == b),
{
    a == b
}

} // verus!
