//! The media header atom (`mdhd`).

use crate::atom::base::{boxed, content_of, plain_of, read, write_boxed, ReadConfig};
use crate::atom::zeros;
use crate::codec::{put_be_u32, put_be_u64, put_u8, u32_be, u64_be};
use crate::error::{annotate, eof, error, Error, ErrorKind, ErrorKindView, ErrorView};
use crate::head::{parse_full_head, Size};
use crate::ident::{Ident, MEDIA_HEADER};
use crate::reader::{at32, at64, Reader};
use vstd::prelude::*;

verus! {

/// A media header atom: the time scale of the media and its duration in
/// units of that scale.
#[derive(Clone, Copy, Debug, Default, PartialEq, Eq, Structural)]
pub struct Mdhd {
    /// The number of units of time in a second.
    pub timescale: u32,
    /// The duration of the media in units of the time scale.
    pub duration: u64,
}

/// The time scale and the duration that stand in the content `c` of a header
/// atom behind the version and flags and the two times. In version 0 the
/// times and the duration have 32 bits each, in version 1 they have 64 bits
/// each; the time scale has 32 bits in both.
pub open spec fn times_of(c: Seq<u8>) -> Result<(u32, u64), ErrorView> {
    if c.len() < 4 {
        Err(eof())
    } else if c[0] == 0 {
        if c.len() < 20 {
            Err(eof())
        } else {
            Ok((at32(c, 12), at32(c, 16) as u64))
        }
    } else if c[0] == 1 {
        if c.len() < 32 {
            Err(eof())
        } else {
            Ok((at32(c, 20), at64(c, 24)))
        }
    } else {
        Err(error(ErrorKindView::UnknownVersion(c[0]), "Unknown header version"))
    }
}

/// The bytes of the version and flags, the two times, the time scale and the
/// duration of a header atom as they are written: version 1, with the times
/// zero.
pub open spec fn times_bytes(timescale: u32, duration: u64) -> Seq<u8> {
    seq![1u8, 0u8, 0u8, 0u8] + zeros(16) + u32_be(timescale) + u64_be(duration)
}

/// Reads the time scale and the duration of a header atom, whose content the
/// cursor is over.
pub fn parse_times(content: &mut Reader) -> (r: Result<(u32, u64), Error>)
    requires
        old(content).wf(),
        old(content).pos == 0,
    ensures
        plain_of(r) == times_of(old(content).data@),
        final(content).same_stream(old(content)),
{
    let (version, _) = parse_full_head(content)?;
    if version == 0 {
        content.skip(8)?;
        let timescale = content.read_be_u32()?;
        let duration = content.read_be_u32()?;
        Ok((timescale, duration as u64))
    } else if version == 1 {
        content.skip(16)?;
        let timescale = content.read_be_u32()?;
        let duration = content.read_be_u64()?;
        Ok((timescale, duration))
    } else {
        Err(Error::new(ErrorKind::UnknownVersion(version), "Unknown header version"))
    }
}

/// Writes the version and flags, the two times, the time scale and the
/// duration of a header atom.
pub fn write_times(out: &mut Vec<u8>, timescale: u32, duration: u64)
    ensures
        final(out)@ == old(out)@ + times_bytes(timescale, duration),
{
    put_u8(out, 1);
    crate::atom::put_zeros(out, 3);
    crate::atom::put_zeros(out, 16);
    put_be_u32(out, timescale);
    put_be_u64(out, duration);
    assert(out@ =~= old(out)@ + times_bytes(timescale, duration));
}

/// Reading the time scale and the duration back from what was written of
/// them, and of anything behind it, gives them.
pub proof fn lemma_times_round_trip(timescale: u32, duration: u64, rest: Seq<u8>)
    ensures
        times_of(times_bytes(timescale, duration) + rest) == Ok::<(u32, u64), ErrorView>(
            (timescale, duration),
        ),
        times_bytes(timescale, duration).len() == 32,
{
    let c = times_bytes(timescale, duration) + rest;
    assert(c.subrange(20, 24) =~= u32_be(timescale));
    assert(c.subrange(24, 32) =~= u64_be(duration));
    crate::codec::lemma_be_u32_of_bytes(timescale);
    crate::codec::lemma_be_u64_of_bytes(duration);
}

impl Mdhd {
    /// What the content `c` of a media header atom says.
    pub open spec fn decode(c: Seq<u8>) -> Result<Mdhd, ErrorView> {
        match times_of(c) {
            Ok(t) => Ok(Mdhd { timescale: t.0, duration: t.1 }),
            Err(e) => Err(e),
        }
    }

    /// What reading a media header atom gives whose content starts at
    /// position `p` of the stream `s`.
    #[verifier::opaque]
    pub open spec fn parsed(s: Seq<u8>, p: int, size: Size) -> Result<Mdhd, ErrorView> {
        annotate(
            "parsing",
            Ident(MEDIA_HEADER),
            match content_of(s, p, size) {
                None => Err(eof()),
                Some(c) => Mdhd::decode(c),
            },
        )
    }

    /// The content of a media header atom as it is written: version 1, with
    /// the times, the language and the quality zero.
    pub open spec fn content_bytes(self) -> Seq<u8> {
        times_bytes(self.timescale, self.duration) + zeros(4)
    }

    /// The bytes of the atom.
    #[verifier::opaque]
    pub open spec fn bytes(self) -> Seq<u8> {
        boxed(Ident(MEDIA_HEADER), self.content_bytes())
    }

    /// Reads a media header atom: the cursor stands behind its head, which
    /// declared the size `size`.
    pub fn parse(reader: &mut Reader, cfg: &ReadConfig, size: Size) -> (r: Result<Mdhd, Error>)
        requires
            old(reader).wf(),
            size.wf(),
        ensures
            read(
                Mdhd::parsed(old(reader).data@, old(reader).pos as int, size),
                plain_of(r),
                old(reader),
                final(reader),
                size.spec_content_len(),
            ),
    {
        proof {
            reveal(Mdhd::parsed);
        }
        let mut content = match reader.take(size.content_len()) {
            Ok(c) => c,
            Err(e) => {
                return Err(e.annotate("parsing", Ident(MEDIA_HEADER)));
            },
        };
        match parse_times(&mut content) {
            Ok(t) => Ok(Mdhd { timescale: t.0, duration: t.1 }),
            Err(e) => Err(e.annotate("parsing", Ident(MEDIA_HEADER))),
        }
    }

    /// The size of the atom.
    pub fn size(&self) -> (r: Size)
        ensures
            r == Size::of(self.content_bytes().len() as int),
            r.len == self.bytes().len(),
            r.len == 44,
    {
        proof {
            reveal(Mdhd::bytes);
        }
        Size::from(36)
    }

    /// The length of the atom in bytes.
    pub fn len(&self) -> (r: u64)
        ensures
            r == self.bytes().len(),
    {
        self.size().len()
    }

    /// Writes the atom.
    pub fn write(&self, out: &mut Vec<u8>)
        ensures
            final(out)@ == old(out)@ + self.bytes(),
    {
        proof {
            reveal(Mdhd::bytes);
        }
        let mut body: Vec<u8> = Vec::new();
        write_times(&mut body, self.timescale, self.duration);
        crate::atom::put_zeros(&mut body, 4);
        assert(body@ =~= self.content_bytes());
        write_boxed(out, Ident(MEDIA_HEADER), &body);
    }

    /// Reading an atom back from what was written of it gives the atom.
    pub proof fn lemma_round_trip(self)
        ensures
            Mdhd::decode(self.content_bytes()) == Ok::<Mdhd, ErrorView>(self),
    {
        lemma_times_round_trip(self.timescale, self.duration, zeros(4));
    }
}

/// Reading the atom back from where its bytes stand gives the atom.
pub proof fn lemma_mdhd_round_trip(c: Seq<u8>, p: int, v: Mdhd)
    requires
        0 <= p,
        p + v.bytes().len() <= c.len(),
        c.subrange(p, p + v.bytes().len()) == v.bytes(),
    ensures
        crate::atom::base::stands_at(c, p, Ident(MEDIA_HEADER), v.bytes().len() as int),
        Mdhd::parsed(c, crate::atom::base::content_at(c, p), crate::atom::base::size_at(c, p))
            == Ok::<
            Mdhd,
            ErrorView,
        >(v),
{
    reveal(Mdhd::parsed);
    reveal(Mdhd::bytes);
    crate::atom::base::lemma_boxed_child(c, p, Ident(MEDIA_HEADER), v.content_bytes());
    v.lemma_round_trip();
}

} // verus!
