//! Direction of a discrete cosine transform.

use vstd::prelude::*;

verus! {

/// Which way a DCT runs.
#[derive(Debug, Clone, Copy, PartialEq, Eq, Structural, Hash)]
pub enum DctDirection {
    Forward,
    Inverse,
}

} // verus!
