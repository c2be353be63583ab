//! The value a port carries when nothing is connected to it.

use vstd::prelude::*;

verus! {

/// Ports carry no value of their own: they are only ever connected.
#[derive(Debug, Clone, Copy, PartialEq, Eq, Structural)]
pub struct ValueType;

impl Default for ValueType {
    fn default() -> (value: Self)
        ensures
            value == ValueType,
    {
        ValueType
    }
}

} // verus!
