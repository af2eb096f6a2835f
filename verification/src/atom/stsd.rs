//! The sample table sample description atom (`stsd`).

use crate::atom::base::{boxed, child_at, content_of, next_child, plain_of, read, write_boxed};
use crate::atom::base::ReadConfig;
use crate::atom::mp4a::{lemma_mp4a_round_trip, Mp4a};
use crate::atom::zeros;
use crate::codec::{put_be_u32, u32_be};
use crate::error::{annotate, eof, error, Error, ErrorKind, ErrorKindView, ErrorView};
use crate::head::Size;
use crate::ident::{Ident, MP4_AUDIO, SAMPLE_TABLE_SAMPLE_DESCRIPTION};
use crate::reader::Reader;
use vstd::prelude::*;

verus! {

/// A sample description atom: the MPEG-4 audio sample entry that it holds.
#[derive(Clone, Copy, Debug, PartialEq, Eq, Structural)]
pub struct Stsd {
    /// The MPEG-4 audio sample entry.
    pub mp4a: Option<Mp4a>,
}

/// What reading the sample entries from position `p` of the content `c` of a
/// sample description atom adds to what was read before. Of several audio
/// sample entries the last counts; other entries are passed over.
pub open spec fn stsd_parts(c: Seq<u8>, p: int, acc: Stsd) -> Result<Stsd, ErrorView>
    decreases c.len() - p,
{
    if p >= c.len() {
        Ok(acc)
    } else {
        match child_at(c, p) {
            Err(e) => Err(e),
            Ok(h) => {
                let size = h.spec_size();
                let cp = p + size.spec_head_len();
                let next = p + size.len;
                if h.fourcc == Ident(MP4_AUDIO) {
                    match Mp4a::parsed(c, cp, size) {
                        Err(e) => Err(e),
                        Ok(v) => stsd_parts(c, next, Stsd { mp4a: Some(v) }),
                    }
                } else {
                    stsd_parts(c, next, acc)
                }
            },
        }
    }
}

impl Stsd {
    /// The sample entry, if there is one, can be written.
    pub open spec fn wf(self) -> bool {
        self.mp4a is Some ==> self.mp4a->0.wf()
    }

    /// What the content `c` of a sample description atom says: behind the
    /// version and flags and the number of entries stand the entries.
    pub open spec fn decode(c: Seq<u8>) -> Result<Stsd, ErrorView> {
        if c.len() < 4 {
            Err(eof())
        } else if c[0] != 0 {
            Err(
                error(
                    ErrorKindView::UnknownVersion(c[0]),
                    "Unknown sample table sample description (stsd) version",
                ),
            )
        } else if c.len() < 8 {
            Err(eof())
        } else {
            stsd_parts(c, 8, Stsd { mp4a: None })
        }
    }

    /// What reading a sample description atom gives whose content starts at
    /// position `p` of the stream `s`.
    #[verifier::opaque]
    pub open spec fn parsed(s: Seq<u8>, p: int, size: Size) -> Result<Stsd, ErrorView> {
        annotate(
            "parsing",
            Ident(SAMPLE_TABLE_SAMPLE_DESCRIPTION),
            match content_of(s, p, size) {
                None => Err(eof()),
                Some(c) => Stsd::decode(c),
            },
        )
    }

    /// The content of the atom: version and flags of zero, the number of
    /// entries, and the sample entry.
    pub open spec fn content_bytes(self) -> Seq<u8> {
        zeros(4) + (match self.mp4a {
            Some(a) => u32_be(1) + a.bytes(),
            None => u32_be(0),
        })
    }

    /// The bytes of the atom.
    #[verifier::opaque]
    pub open spec fn bytes(self) -> Seq<u8> {
        boxed(Ident(SAMPLE_TABLE_SAMPLE_DESCRIPTION), self.content_bytes())
    }

    /// Reads a sample description atom: the cursor stands behind its head,
    /// which declared the size `size`.
    pub fn parse(reader: &mut Reader, cfg: &ReadConfig, size: Size) -> (r: Result<Stsd, Error>)
        requires
            old(reader).wf(),
            size.wf(),
        ensures
            read(
                Stsd::parsed(old(reader).data@, old(reader).pos as int, size),
                plain_of(r),
                old(reader),
                final(reader),
                size.spec_content_len(),
            ),
    {
        proof {
            reveal(Stsd::parsed);
        }
        let mut content = match reader.take(size.content_len()) {
            Ok(c) => c,
            Err(e) => {
                return Err(e.annotate("parsing", Ident(SAMPLE_TABLE_SAMPLE_DESCRIPTION)));
            },
        };
        match Stsd::parse_atom(&mut content, cfg) {
            Ok(v) => Ok(v),
            Err(e) => Err(e.annotate("parsing", Ident(SAMPLE_TABLE_SAMPLE_DESCRIPTION))),
        }
    }

    /// Reads the content of a sample description atom, which the cursor is
    /// over.
    pub fn parse_atom(content: &mut Reader, cfg: &ReadConfig) -> (r: Result<Stsd, Error>)
        requires
            old(content).wf(),
            old(content).pos == 0,
        ensures
            plain_of(r) == Stsd::decode(old(content).data@),
            final(content).same_stream(old(content)),
    {
        let ghost c = content.data@;
        let (version, _) = crate::head::parse_full_head(content)?;
        if version != 0 {
            return Err(
                Error::new(
                    ErrorKind::UnknownVersion(version),
                    "Unknown sample table sample description (stsd) version",
                ),
            );
        }
        content.skip(4)?;
        let mut stsd = Stsd { mp4a: None };
        while content.remaining() > 0
            invariant
                content.same_stream(old(content)),
                c == content.data@,
                stsd_parts(c, content.pos as int, stsd) == Stsd::decode(c),
            decreases content.left(),
        {
            let head = match next_child(content) {
                Ok(h) => h,
                Err(e) => {
                    return Err(e);
                },
            };
            if head.fourcc.0 == MP4_AUDIO {
                match Mp4a::parse(content, cfg, head.size()) {
                    Ok(v) => {
                        stsd.mp4a = Some(v);
                    },
                    Err(e) => {
                        return Err(e);
                    },
                }
            } else {
                match content.skip(head.content_len()) {
                    Ok(_) => {},
                    Err(e) => {
                        return Err(e);
                    },
                }
            }
        }
        Ok(stsd)
    }

    /// The size of the atom.
    pub fn size(&self) -> (r: Size)
        requires
            self.wf(),
        ensures
            r == Size::of(self.content_bytes().len() as int),
            r.len == self.bytes().len(),
    {
        proof {
            reveal(Stsd::bytes);
            if self.mp4a is Some {
                self.mp4a->0.lemma_len();
            }
        }
        match &self.mp4a {
            Some(a) => Size::from(8 + a.len()),
            None => Size::from(8),
        }
    }

    /// The length of the atom in bytes.
    pub fn len(&self) -> (r: u64)
        requires
            self.wf(),
        ensures
            r == self.bytes().len(),
    {
        self.size().len()
    }

    /// Writes the atom.
    pub fn write(&self, out: &mut Vec<u8>)
        requires
            self.wf(),
        ensures
            final(out)@ == old(out)@ + self.bytes(),
    {
        proof {
            reveal(Stsd::bytes);
            if self.mp4a is Some {
                self.mp4a->0.lemma_len();
            }
        }
        let mut body: Vec<u8> = Vec::new();
        crate::atom::put_zeros(&mut body, 4);
        match &self.mp4a {
            Some(a) => {
                put_be_u32(&mut body, 1);
                a.write(&mut body);
            },
            None => {
                put_be_u32(&mut body, 0);
            },
        }
        assert(body@ =~= self.content_bytes());
        write_boxed(out, Ident(SAMPLE_TABLE_SAMPLE_DESCRIPTION), &body);
    }
}

impl Stsd {
    /// Reading a sample description atom back from the content that is
    /// written of it gives the atom.
    pub proof fn lemma_decode(self)
        requires
            self.wf(),
        ensures
            Stsd::decode(self.content_bytes()) == Ok::<Stsd, ErrorView>(self),
    {
        let c = self.content_bytes();
        if self.mp4a is Some {
            let a = self.mp4a->0;
            a.lemma_len();
            assert(c.subrange(8, 8 + a.bytes().len() as int) =~= a.bytes());
            lemma_mp4a_round_trip(c, 8, a);
            assert(stsd_parts(c, 8, Stsd { mp4a: None }) == stsd_parts(c, c.len() as int, self));
        }
    }
}

/// Reading the atom back from where its bytes stand gives the atom.
pub proof fn lemma_stsd_round_trip(c: Seq<u8>, p: int, v: Stsd)
    requires
        0 <= p,
        v.wf(),
        p + v.bytes().len() <= c.len(),
        c.subrange(p, p + v.bytes().len()) == v.bytes(),
    ensures
        crate::atom::base::stands_at(
            c,
            p,
            Ident(SAMPLE_TABLE_SAMPLE_DESCRIPTION),
            v.bytes().len() as int,
        ),
        Stsd::parsed(c, crate::atom::base::content_at(c, p), crate::atom::base::size_at(c, p))
            == Ok::<Stsd, ErrorView>(v),
{
    reveal(Stsd::parsed);
    reveal(Stsd::bytes);
    if v.mp4a is Some {
        v.mp4a->0.lemma_len();
    }
    crate::atom::base::lemma_boxed_child(
        c,
        p,
        Ident(SAMPLE_TABLE_SAMPLE_DESCRIPTION),
        v.content_bytes(),
    );
    v.lemma_decode();
}

} // verus!
