//! The movie header atom (`mvhd`).

use crate::atom::base::{boxed, content_of, plain_of, read, write_boxed, ReadConfig};
use crate::atom::mdhd::{lemma_times_round_trip, parse_times, times_bytes, times_of, write_times};
use crate::atom::zeros;
use crate::audio::Duration;
use crate::error::{annotate, eof, error, Error, ErrorKind, ErrorKindView, ErrorView};
use crate::head::Size;
use crate::ident::{Ident, MOVIE_HEADER};
use crate::reader::Reader;
use vstd::prelude::*;

verus! {

/// A movie header atom: the duration of the movie.
#[derive(Clone, Copy, Debug, PartialEq, Eq, Structural)]
pub struct Mvhd {
    /// The duration of the movie.
    pub duration: Duration,
}

impl Mvhd {
    /// The duration can be written: it is well-formed and has no more
    /// nanoseconds than 64 bits can count.
    pub open spec fn wf(self) -> bool {
        self.duration.wf() && self.duration.total_nanos() <= u64::MAX
    }

    /// What the content `c` of a movie header atom says: the duration that
    /// its time scale and its duration in units of that scale make. A time
    /// scale of zero is an error.
    pub open spec fn decode(c: Seq<u8>) -> Result<Mvhd, ErrorView> {
        match times_of(c) {
            Ok(t) => if t.0 == 0 {
                Err(error(ErrorKindView::Parsing, "Movie header (mvhd) with a time scale of zero"))
            } else {
                Ok(Mvhd { duration: Duration::scaled(t.1, t.0) })
            },
            Err(e) => Err(e),
        }
    }

    /// What reading a movie header atom gives whose content starts at
    /// position `p` of the stream `s`.
    #[verifier::opaque]
    pub open spec fn parsed(s: Seq<u8>, p: int, size: Size) -> Result<Mvhd, ErrorView> {
        annotate(
            "parsing",
            Ident(MOVIE_HEADER),
            match content_of(s, p, size) {
                None => Err(eof()),
                Some(c) => Mvhd::decode(c),
            },
        )
    }

    /// The content of a movie header atom as it is written: version 1, a
    /// time scale of nanoseconds, and everything but the duration zero.
    pub open spec fn content_bytes(self) -> Seq<u8> {
        times_bytes(1_000_000_000, self.duration.total_nanos() as u64) + zeros(80)
    }

    /// The bytes of the atom.
    #[verifier::opaque]
    pub open spec fn bytes(self) -> Seq<u8> {
        boxed(Ident(MOVIE_HEADER), self.content_bytes())
    }

    /// Reads a movie header atom: the cursor stands behind its head, which
    /// declared the size `size`.
    pub fn parse(reader: &mut Reader, cfg: &ReadConfig, size: Size) -> (r: Result<Mvhd, Error>)
        requires
            old(reader).wf(),
            size.wf(),
        ensures
            read(
                Mvhd::parsed(old(reader).data@, old(reader).pos as int, size),
                plain_of(r),
                old(reader),
                final(reader),
                size.spec_content_len(),
            ),
            r is Ok ==> r->Ok_0.duration.wf(),
    {
        proof {
            reveal(Mvhd::parsed);
        }
        let mut content = match reader.take(size.content_len()) {
            Ok(c) => c,
            Err(e) => {
                return Err(e.annotate("parsing", Ident(MOVIE_HEADER)));
            },
        };
        match parse_times(&mut content) {
            Ok(t) => {
                if t.0 == 0 {
                    Err(
                        Error::new(
                            ErrorKind::Parsing,
                            "Movie header (mvhd) with a time scale of zero",
                        ).annotate("parsing", Ident(MOVIE_HEADER)),
                    )
                } else {
                    Ok(Mvhd { duration: Duration::from_scaled(t.1, t.0) })
                }
            },
            Err(e) => Err(e.annotate("parsing", Ident(MOVIE_HEADER))),
        }
    }

    /// The size of the atom.
    pub fn size(&self) -> (r: Size)
        ensures
            r == Size::of(self.content_bytes().len() as int),
            r.len == self.bytes().len(),
            r.len == 120,
    {
        proof {
            reveal(Mvhd::bytes);
        }
        Size::from(112)
    }

    /// The length of the atom in bytes.
    pub fn len(&self) -> (r: u64)
        ensures
            r == self.bytes().len(),
    {
        self.size().len()
    }

    /// Writes the atom.
    pub fn write(&self, out: &mut Vec<u8>)
        requires
            self.wf(),
        ensures
            final(out)@ == old(out)@ + self.bytes(),
    {
        proof {
            reveal(Mvhd::bytes);
        }
        let mut body: Vec<u8> = Vec::new();
        let nanos: u64 = self.duration.secs * 1_000_000_000 + self.duration.nanos as u64;
        write_times(&mut body, 1_000_000_000, nanos);
        crate::atom::put_zeros(&mut body, 80);
        assert(body@ =~= self.content_bytes());
        write_boxed(out, Ident(MOVIE_HEADER), &body);
    }

    /// Reading an atom back from what was written of it gives the atom.
    pub proof fn lemma_round_trip(self)
        requires
            self.wf(),
        ensures
            Mvhd::decode(self.content_bytes()) == Ok::<Mvhd, ErrorView>(self),
    {
        let n = self.duration.total_nanos();
        lemma_times_round_trip(1_000_000_000, n as u64, zeros(80));
        assert(n * 1_000_000_000 / 1_000_000_000 == n) by (nonlinear_arith);
        assert(times_of(self.content_bytes()) == Ok::<(u32, u64), ErrorView>(
            (1_000_000_000u32, n as u64),
        ));
        assert(n / 1_000_000_000 == self.duration.secs && n % 1_000_000_000
            == self.duration.nanos) by (nonlinear_arith)
            requires
                n == self.duration.secs * 1_000_000_000 + self.duration.nanos,
                self.duration.nanos < 1_000_000_000,
        ;
    }
}

/// Reading the atom back from where its bytes stand gives the atom.
pub proof fn lemma_mvhd_round_trip(c: Seq<u8>, p: int, v: Mvhd)
    requires
        0 <= p,
        v.wf(),
        p + v.bytes().len() <= c.len(),
        c.subrange(p, p + v.bytes().len()) == v.bytes(),
    ensures
        crate::atom::base::stands_at(c, p, Ident(MOVIE_HEADER), v.bytes().len() as int),
        Mvhd::parsed(c, crate::atom::base::content_at(c, p), crate::atom::base::size_at(c, p))
            == Ok::<
            Mvhd,
            ErrorView,
        >(v),
{
    reveal(Mvhd::parsed);
    reveal(Mvhd::bytes);
    crate::atom::base::lemma_boxed_child(c, p, Ident(MOVIE_HEADER), v.content_bytes());
    v.lemma_round_trip();
}

} // verus!
