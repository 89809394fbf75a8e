//! The `noop` table format: writes consume their input without storing it,
//! which serves benchmarks, dry runs and the materializing of caches;
//! reading is not supported.

use vstd::prelude::*;

verus! {

/// No-operation write format that consumes input without persisting data.
#[derive(Debug)]
pub struct NoopTableFormat;

impl NoopTableFormat {
    /// The name under which the format is registered.
    pub fn name(&self) -> (r: &'static str)
        ensures
            r@ == "noop"@,
    {
        "noop"
    }

    /// Opening a table of this format for reading: always refused, with
    /// the message of the refusal.
    pub fn create_provider(&self) -> (r: Result<(), &'static str>)
        ensures
            r matches Err(m) && m@ == "noop table format does not support reading"@,
    {
        proof {
            reveal_strlit("noop table format does not support reading");
        }
        Err("noop table format does not support reading")
    }
}

} // verus!
