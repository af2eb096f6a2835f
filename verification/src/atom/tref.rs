//! The track reference atom (`tref`).

use crate::atom::base::{boxed, content_of, find_leaf, fits, found_at, read, view_of};
use crate::atom::base::{write_boxed, ReadConfig};
use crate::error::{annotate, eof, Error, ErrorView};
use crate::head::{AtomBounds, Size};
use crate::ident::{Ident, TRACK_REFERENCE};
use crate::reader::Reader;
use vstd::prelude::*;

verus! {

/// A track reference atom: its content as it stands in the file, which names
/// the tracks that this one refers to.
#[derive(Clone, Debug, Default, PartialEq, Eq)]
pub struct Tref(pub Vec<u8>);

impl View for Tref {
    type V = Seq<u8>;

    open spec fn view(&self) -> Seq<u8> {
        self.0@
    }
}

/// Where a track reference atom lies in the file.
#[derive(Clone, Copy, Debug, PartialEq, Eq, Structural)]
pub struct TrefBounds {
    /// The bounds of the atom.
    pub bounds: AtomBounds,
}

impl Tref {
    /// What reading a track reference atom gives whose content starts at
    /// position `p` of the stream `s`: the content.
    #[verifier::opaque]
    pub open spec fn parsed(s: Seq<u8>, p: int, size: Size) -> Result<Seq<u8>, ErrorView> {
        annotate(
            "parsing",
            Ident(TRACK_REFERENCE),
            match content_of(s, p, size) {
                None => Err(eof()),
                Some(c) => Ok(c),
            },
        )
    }

    /// The bytes of a track reference atom with the content `v`.
    #[verifier::opaque]
    pub open spec fn bytes(v: Seq<u8>) -> Seq<u8> {
        boxed(Ident(TRACK_REFERENCE), v)
    }

    /// Reads a track reference atom: the cursor stands behind its head,
    /// which declared the size `size`.
    pub fn parse(reader: &mut Reader, cfg: &ReadConfig, size: Size) -> (r: Result<Tref, Error>)
        requires
            old(reader).wf(),
            size.wf(),
        ensures
            read(
                Tref::parsed(old(reader).data@, old(reader).pos as int, size),
                view_of(r),
                old(reader),
                final(reader),
                size.spec_content_len(),
            ),
    {
        proof {
            reveal(Tref::parsed);
        }
        match reader.read_u8_vec(size.content_len()) {
            Ok(v) => Ok(Tref(v)),
            Err(e) => Err(e.annotate("parsing", Ident(TRACK_REFERENCE))),
        }
    }

    /// Finds where a track reference atom lies: the cursor stands behind
    /// its head, which declared the size `size`.
    pub fn find(reader: &mut Reader, size: Size) -> (r: Result<TrefBounds, Error>)
        requires
            old(reader).wf(),
            size.wf(),
            old(reader).abs() >= size.spec_head_len(),
        ensures
            read(
                found_at(
                    old(reader).data@,
                    old(reader).pos as int,
                    old(reader).base as int,
                    size,
                    Ident(TRACK_REFERENCE),
                ),
                match r {
                    Ok(b) => Ok(b.bounds),
                    Err(e) => Err(e@),
                },
                old(reader),
                final(reader),
                size.spec_content_len(),
            ),
            r is Ok ==> r->Ok_0.bounds.wf(),
    {
        Ok(TrefBounds { bounds: find_leaf(reader, size, Ident(TRACK_REFERENCE))? })
    }

    /// The size of the atom.
    pub fn size(&self) -> (r: Size)
        requires
            fits(self@.len() as int),
        ensures
            r == Size::of(self@.len() as int),
            r.len == Tref::bytes(self@).len(),
    {
        proof {
            reveal(Tref::bytes);
        }
        Size::from(self.0.len() as u64)
    }

    /// The length of the atom in bytes.
    pub fn len(&self) -> (r: u64)
        requires
            fits(self@.len() as int),
        ensures
            r == Tref::bytes(self@).len(),
    {
        self.size().len()
    }

    /// Writes the atom.
    pub fn write(&self, out: &mut Vec<u8>)
        requires
            fits(self@.len() as int),
        ensures
            final(out)@ == old(out)@ + Tref::bytes(self@),
    {
        proof {
            reveal(Tref::bytes);
        }
        write_boxed(out, Ident(TRACK_REFERENCE), &self.0);
    }
}

/// Reading the atom back from where its bytes stand gives the atom.
pub proof fn lemma_tref_round_trip(c: Seq<u8>, p: int, v: Seq<u8>)
    requires
        0 <= p,
        fits(v.len() as int),
        p + Tref::bytes(v).len() <= c.len(),
        c.subrange(p, p + Tref::bytes(v).len()) == Tref::bytes(v),
    ensures
        crate::atom::base::stands_at(c, p, Ident(TRACK_REFERENCE), Tref::bytes(v).len() as int),
        Tref::parsed(c, crate::atom::base::content_at(c, p), crate::atom::base::size_at(c, p))
            == Ok::<
            Seq<u8>,
            ErrorView,
        >(v),
{
    reveal(Tref::parsed);
    reveal(Tref::bytes);
    crate::atom::base::lemma_boxed_child(c, p, Ident(TRACK_REFERENCE), v);
}

} // verus!
