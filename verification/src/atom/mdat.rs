//! The media data atom (`mdat`).

use crate::atom::base::{find_leaf, found_at, read};
use crate::error::Error;
use crate::head::{AtomBounds, Size};
use crate::ident::{Ident, MEDIA_DATA};
use crate::reader::Reader;
use vstd::prelude::*;

verus! {

/// The media data atom, which holds the samples. Nothing of it is read.
#[derive(Clone, Copy, Debug, PartialEq, Eq, Structural)]
pub struct Mdat;

/// Where the media data atom lies in the file.
#[derive(Clone, Copy, Debug, PartialEq, Eq, Structural)]
pub struct MdatBounds {
    /// The bounds of the atom.
    pub bounds: AtomBounds,
}

impl Mdat {
    /// Finds where the media data atom lies: the cursor stands behind its
    /// head, which declared the size `size`.
    pub fn find(reader: &mut Reader, size: Size) -> (r: Result<MdatBounds, Error>)
        requires
            old(reader).wf(),
            size.wf(),
            old(reader).abs() >= size.spec_head_len(),
        ensures
            read(
                found_at(
                    old(reader).data@,
                    old(reader).pos as int,
                    old(reader).base as int,
                    size,
                    Ident(MEDIA_DATA),
                ),
                match r {
                    Ok(b) => Ok(b.bounds),
                    Err(e) => Err(e@),
                },
                old(reader),
                final(reader),
                size.spec_content_len(),
            ),
            r is Ok ==> r->Ok_0.bounds.wf(),
    {
        Ok(MdatBounds { bounds: find_leaf(reader, size, Ident(MEDIA_DATA))? })
    }
}

} // verus!
