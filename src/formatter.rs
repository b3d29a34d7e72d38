//! Output formats of the report.

use vstd::prelude::*;

verus! {

/// The formats in which the report can be written.
#[allow(non_camel_case_types)]
pub enum Formats {
    JSON,
}

} // verus!
