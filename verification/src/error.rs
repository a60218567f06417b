use vstd::prelude::*;

verus! {

/// Why reading a value from the wire failed.
#[derive(Debug, Clone, Copy, PartialEq, Eq, Structural)]
pub enum RwError {
    /// The input ended before the value was complete.
    UnexpectedEof,
    /// A string's bytes are not valid UTF-8.
    Utf8,
    /// An enum or message discriminant that no variant carries.
    InvalidEnumDiscriminant(u32),
}

} // verus!
