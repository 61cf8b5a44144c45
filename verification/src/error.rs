use vstd::prelude::*;

verus! {

/// Why a memory operation or a configuration was refused.
#[derive(Clone, Copy, Debug, PartialEq, Eq, Structural)]
pub enum MemoryError {
    /// An address lies outside the bounds of the memory that was asked.
    OutOfRange,
    /// A cache geometry breaks the rules of its organisation.
    ConfigurationInvalid,
}

impl MemoryError {
    /// A short description of the error.
    pub fn message(&self) -> (s: &'static str)
        ensures
            s@ == (match *self {
                MemoryError::OutOfRange => "address out of range"@,
                MemoryError::ConfigurationInvalid => "invalid cache configuration"@,
            }),
    {
        match self {
            MemoryError::OutOfRange => "address out of range",
            MemoryError::ConfigurationInvalid => "invalid cache configuration",
        }
    }
}

} // verus!
