//! Batch EXIF/XMP metadata editing for JPEG and PNG photographs: the
//! verified core of a desktop editor.

use vstd::prelude::*;

pub mod text;
pub mod xmp;
pub mod fields;
pub mod editor;
pub mod exif;
pub mod plan;
pub mod container;
pub mod readback;

verus! {

} // verus!
