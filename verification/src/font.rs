//! Embedded font data. This build carries no font: the page falls back to
//! the font files it serves itself.
use vstd::prelude::*;

verus! {

/// The regular-weight font bytes; empty, as no font is embedded.
pub fn regular_bytes() -> (r: &'static [u8])
    ensures
        r@.len() == 0,
{
    &[]
}

/// The bold-weight font bytes; empty, as no font is embedded.
pub fn bold_bytes() -> (r: &'static [u8])
    ensures
        r@.len() == 0,
{
    &[]
}

/// Whether font bytes are embedded: never in this build.
pub fn is_embedded() -> (r: bool)
    ensures
        !r,
{
    false
}

} // verus!
