//! The track header atom (`tkhd`).

use crate::atom::base::{boxed, content_of, plain_of, read, write_boxed, ReadConfig};
use crate::atom::zeros;
use crate::codec::{put_be_u32, u32_be};
use crate::error::{annotate, eof, error, Error, ErrorKind, ErrorKindView, ErrorView};
use crate::head::{parse_full_head, Size};
use crate::ident::{Ident, TRACK_HEADER};
use crate::reader::{at32, Reader};
use vstd::prelude::*;

verus! {

/// A track header atom: the identifier of the track.
#[derive(Clone, Copy, Debug, Default, PartialEq, Eq, Structural)]
pub struct Tkhd {
    /// The identifier of the track.
    pub id: u32,
}

impl Tkhd {
    /// What the content `c` of a track header atom says. The identifier of
    /// the track follows the version and flags and the two times, which have
    /// 32 bits each in version 0 and 64 bits each in version 1.
    pub open spec fn decode(c: Seq<u8>) -> Result<Tkhd, ErrorView> {
        if c.len() < 4 {
            Err(eof())
        } else if c[0] == 0 {
            if c.len() < 16 {
                Err(eof())
            } else {
                Ok(Tkhd { id: at32(c, 12) })
            }
        } else if c[0] == 1 {
            if c.len() < 24 {
                Err(eof())
            } else {
                Ok(Tkhd { id: at32(c, 20) })
            }
        } else {
            Err(error(ErrorKindView::UnknownVersion(c[0]), "Unknown track header (tkhd) version"))
        }
    }

    /// What reading a track header atom gives whose content starts at
    /// position `p` of the stream `s`.
    #[verifier::opaque]
    pub open spec fn parsed(s: Seq<u8>, p: int, size: Size) -> Result<Tkhd, ErrorView> {
        annotate(
            "parsing",
            Ident(TRACK_HEADER),
            match content_of(s, p, size) {
                None => Err(eof()),
                Some(c) => Tkhd::decode(c),
            },
        )
    }

    /// The content of a track header atom as it is written: version 0, with
    /// everything but the identifier of the track zero.
    pub open spec fn content_bytes(self) -> Seq<u8> {
        zeros(12) + u32_be(self.id) + zeros(68)
    }

    /// The bytes of the atom.
    #[verifier::opaque]
    pub open spec fn bytes(self) -> Seq<u8> {
        boxed(Ident(TRACK_HEADER), self.content_bytes())
    }

    /// Reads a track header atom: the cursor stands behind its head, which
    /// declared the size `size`.
    pub fn parse(reader: &mut Reader, cfg: &ReadConfig, size: Size) -> (r: Result<Tkhd, Error>)
        requires
            old(reader).wf(),
            size.wf(),
        ensures
            read(
                Tkhd::parsed(old(reader).data@, old(reader).pos as int, size),
                plain_of(r),
                old(reader),
                final(reader),
                size.spec_content_len(),
            ),
    {
        proof {
            reveal(Tkhd::parsed);
        }
        let mut content = match reader.take(size.content_len()) {
            Ok(c) => c,
            Err(e) => {
                return Err(e.annotate("parsing", Ident(TRACK_HEADER)));
            },
        };
        match Tkhd::parse_atom(&mut content) {
            Ok(v) => Ok(v),
            Err(e) => Err(e.annotate("parsing", Ident(TRACK_HEADER))),
        }
    }

    /// Reads the content of a track header atom, which the cursor is over.
    pub fn parse_atom(content: &mut Reader) -> (r: Result<Tkhd, Error>)
        requires
            old(content).wf(),
            old(content).pos == 0,
        ensures
            plain_of(r) == Tkhd::decode(old(content).data@),
            final(content).same_stream(old(content)),
    {
        let (version, _) = parse_full_head(content)?;
        if version == 0 {
            content.skip(8)?;
            Ok(Tkhd { id: content.read_be_u32()? })
        } else if version == 1 {
            content.skip(16)?;
            Ok(Tkhd { id: content.read_be_u32()? })
        } else {
            Err(
                Error::new(
                    ErrorKind::UnknownVersion(version),
                    "Unknown track header (tkhd) version",
                ),
            )
        }
    }

    /// The size of the atom.
    pub fn size(&self) -> (r: Size)
        ensures
            r == Size::of(self.content_bytes().len() as int),
            r.len == self.bytes().len(),
            r.len == 92,
    {
        proof {
            reveal(Tkhd::bytes);
        }
        Size::from(84)
    }

    /// The length of the atom in bytes.
    pub fn len(&self) -> (r: u64)
        ensures
            r == self.bytes().len(),
    {
        self.size().len()
    }

    /// Writes the atom.
    pub fn write(&self, out: &mut Vec<u8>)
        ensures
            final(out)@ == old(out)@ + self.bytes(),
    {
        proof {
            reveal(Tkhd::bytes);
        }
        let mut body: Vec<u8> = Vec::new();
        crate::atom::put_zeros(&mut body, 12);
        put_be_u32(&mut body, self.id);
        crate::atom::put_zeros(&mut body, 68);
        assert(body@ =~= self.content_bytes());
        write_boxed(out, Ident(TRACK_HEADER), &body);
    }

    /// Reading an atom back from what was written of it gives the atom.
    pub proof fn lemma_round_trip(self)
        ensures
            Tkhd::decode(self.content_bytes()) == Ok::<Tkhd, ErrorView>(self),
    {
        let c = self.content_bytes();
        assert(c.subrange(12, 16) =~= u32_be(self.id));
        crate::codec::lemma_be_u32_of_bytes(self.id);
    }
}

/// Reading the atom back from where its bytes stand gives the atom.
pub proof fn lemma_tkhd_round_trip(c: Seq<u8>, p: int, v: Tkhd)
    requires
        0 <= p,
        p + v.bytes().len() <= c.len(),
        c.subrange(p, p + v.bytes().len()) == v.bytes(),
    ensures
        crate::atom::base::stands_at(c, p, Ident(TRACK_HEADER), v.bytes().len() as int),
        Tkhd::parsed(c, crate::atom::base::content_at(c, p), crate::atom::base::size_at(c, p))
            == Ok::<
            Tkhd,
            ErrorView,
        >(v),
{
    reveal(Tkhd::parsed);
    reveal(Tkhd::bytes);
    crate::atom::base::lemma_boxed_child(c, p, Ident(TRACK_HEADER), v.content_bytes());
    v.lemma_round_trip();
}

} // verus!
