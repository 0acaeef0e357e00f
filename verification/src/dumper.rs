//! Where controller input data goes.
use vstd::prelude::*;

verus! {

/// What went wrong while dumping.
#[derive(Clone, Debug)]
pub struct DumpError {
    pub message: String,
}

/// Something that takes controller input data.
pub trait Dumper {
    fn dump(&mut self, data: &[u8]) -> Result<(), DumpError>;

    fn flush(&mut self) -> Result<(), DumpError>;
}

/// A dumper that discards all data.
#[derive(Clone, Copy, Debug, PartialEq, Eq, Structural)]
pub struct NullDumper;

impl NullDumper {
    pub fn new() -> (r: NullDumper)
        ensures
            r == NullDumper,
    {
        NullDumper
    }
}

impl Dumper for NullDumper {
    /// Always succeeds.
    fn dump(&mut self, data: &[u8]) -> (r: Result<(), DumpError>)
        ensures
            r == Ok::<(), DumpError>(()),
            *final(self) == *old(self),
    {
        Ok(())
    }

    /// Always succeeds.
    fn flush(&mut self) -> (r: Result<(), DumpError>)
        ensures
            r == Ok::<(), DumpError>(()),
            *final(self) == *old(self),
    {
        Ok(())
    }
}

} // verus!
