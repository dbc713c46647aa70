//! Reading spectral line lists: `FREQUENCY INTENSITY` records, one per line,
//! with comments, skipped lines and real-number fields checked.
use vstd::prelude::*;

pub mod loader;
pub mod number;
pub mod text;

verus! {

/// The kernel used to broaden each spectral line.
#[derive(Clone, Copy, Debug, PartialEq, Eq, Structural)]
pub enum LineShape {
    Gaussian,
    Lorentzian,
}

} // verus!
