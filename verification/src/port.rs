//! Writes to I/O ports, as values.

use vstd::prelude::*;

verus! {

/// Write `value` to the I/O port `port`.
#[derive(Clone, Copy, Debug, PartialEq, Eq, Structural)]
pub struct PortWrite {
    pub port: u16,
    pub value: u8,
}

} // verus!
