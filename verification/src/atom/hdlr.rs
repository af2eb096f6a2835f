//! The handler reference atom (`hdlr`).

use crate::atom::base::{boxed, content_of, find_leaf, fits, found_at, read, view_of};
use crate::atom::base::{write_boxed, ReadConfig};
use crate::error::{annotate, eof, Error, ErrorView};
use crate::head::{AtomBounds, Size};
use crate::ident::{Ident, HANDLER_REFERENCE};
use crate::reader::Reader;
use vstd::prelude::*;

verus! {

/// A handler reference atom: its content as it stands in the file.
#[derive(Clone, Debug, Default, PartialEq, Eq)]
pub struct Hdlr(pub Vec<u8>);

impl View for Hdlr {
    type V = Seq<u8>;

    open spec fn view(&self) -> Seq<u8> {
        self.0@
    }
}

/// Where a handler reference atom lies in the file.
#[derive(Clone, Copy, Debug, PartialEq, Eq, Structural)]
pub struct HdlrBounds {
    /// The bounds of the atom.
    pub bounds: AtomBounds,
}

impl Hdlr {
    /// What reading a handler reference atom gives whose content starts at
    /// position `p` of the stream `s`: the content.
    #[verifier::opaque]
    pub open spec fn parsed(s: Seq<u8>, p: int, size: Size) -> Result<Seq<u8>, ErrorView> {
        annotate(
            "parsing",
            Ident(HANDLER_REFERENCE),
            match content_of(s, p, size) {
                None => Err(eof()),
                Some(c) => Ok(c),
            },
        )
    }

    /// The bytes of a handler reference atom with the content `v`.
    #[verifier::opaque]
    pub open spec fn bytes(v: Seq<u8>) -> Seq<u8> {
        boxed(Ident(HANDLER_REFERENCE), v)
    }

    /// Reads a handler reference atom: the cursor stands behind its head,
    /// which declared the size `size`.
    pub fn parse(reader: &mut Reader, cfg: &ReadConfig, size: Size) -> (r: Result<Hdlr, Error>)
        requires
            old(reader).wf(),
            size.wf(),
        ensures
            read(
                Hdlr::parsed(old(reader).data@, old(reader).pos as int, size),
                view_of(r),
                old(reader),
                final(reader),
                size.spec_content_len(),
            ),
    {
        proof {
            reveal(Hdlr::parsed);
        }
        match reader.read_u8_vec(size.content_len()) {
            Ok(v) => Ok(Hdlr(v)),
            Err(e) => Err(e.annotate("parsing", Ident(HANDLER_REFERENCE))),
        }
    }

    /// Finds where a handler reference atom lies: the cursor stands behind
    /// its head, which declared the size `size`.
    pub fn find(reader: &mut Reader, size: Size) -> (r: Result<HdlrBounds, Error>)
        requires
            old(reader).wf(),
            size.wf(),
            old(reader).abs() >= size.spec_head_len(),
        ensures
            read(
                found_at(
                    old(reader).data@,
                    old(reader).pos as int,
                    old(reader).base as int,
                    size,
                    Ident(HANDLER_REFERENCE),
                ),
                match r {
                    Ok(b) => Ok(b.bounds),
                    Err(e) => Err(e@),
                },
                old(reader),
                final(reader),
                size.spec_content_len(),
            ),
            r is Ok ==> r->Ok_0.bounds.wf(),
    {
        Ok(HdlrBounds { bounds: find_leaf(reader, size, Ident(HANDLER_REFERENCE))? })
    }

    /// The size of the atom.
    pub fn size(&self) -> (r: Size)
        requires
            fits(self@.len() as int),
        ensures
            r == Size::of(self@.len() as int),
            r.len == Hdlr::bytes(self@).len(),
    {
        proof {
            reveal(Hdlr::bytes);
        }
        Size::from(self.0.len() as u64)
    }

    /// The length of the atom in bytes.
    pub fn len(&self) -> (r: u64)
        requires
            fits(self@.len() as int),
        ensures
            r == Hdlr::bytes(self@).len(),
    {
        self.size().len()
    }

    /// Writes the atom.
    pub fn write(&self, out: &mut Vec<u8>)
        requires
            fits(self@.len() as int),
        ensures
            final(out)@ == old(out)@ + Hdlr::bytes(self@),
    {
        proof {
            reveal(Hdlr::bytes);
        }
        write_boxed(out, Ident(HANDLER_REFERENCE), &self.0);
    }

    /// Reading a handler reference atom back from where its bytes stand
    /// gives its content.
    pub proof fn lemma_atom_round_trip(c: Seq<u8>, p: int, v: Seq<u8>)
        requires
            0 <= p,
            fits(v.len() as int),
            p + Hdlr::bytes(v).len() <= c.len(),
            c.subrange(p, p + Hdlr::bytes(v).len()) == Hdlr::bytes(v),
        ensures
            crate::atom::base::child_at(c, p) is Ok,
            crate::atom::base::child_at(c, p)->Ok_0.fourcc == Ident(HANDLER_REFERENCE),
            crate::atom::base::child_at(c, p)->Ok_0.spec_size().len == Hdlr::bytes(v).len(),
            Hdlr::parsed(
                c,
                p + crate::atom::base::child_at(c, p)->Ok_0.spec_size().spec_head_len(),
                crate::atom::base::child_at(c, p)->Ok_0.spec_size(),
            ) == Ok::<Seq<u8>, ErrorView>(v),
    {
        reveal(Hdlr::parsed);
        reveal(Hdlr::bytes);
        crate::atom::base::lemma_boxed_child(c, p, Ident(HANDLER_REFERENCE), v);
    }
}

} // verus!
