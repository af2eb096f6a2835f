//! The movie atom (`moov`).

use crate::atom::base::{boxed, child_at, content_of, fits, next_child, read};
use crate::atom::base::{lemma_child_anchored, view_of, write_boxed, ReadConfig};
use crate::atom::mvhd::Mvhd;
use crate::atom::trak::{lemma_trak_nested, lemma_trak_round_trip, Trak, TrakBounds, TrakView};
use crate::atom::base::{content_at, lemma_boxed_child, size_at, stands_at};
use crate::atom::udta::{lemma_udta_nested, lemma_udta_round_trip, Udta, UdtaBounds, UdtaView};
use crate::error::{annotate, eof, Error, ErrorView};
use crate::head::{bounds_at, find_bounds, AtomBounds, Size};
use crate::ident::{Ident, MOVIE, MOVIE_HEADER, TRACK, USER_DATA};
use crate::reader::Reader;
use vstd::prelude::*;

verus! {

/// A movie atom: the movie header, the tracks and the user data that it
/// holds.
#[derive(Clone, Debug, PartialEq, Eq)]
pub struct Moov<'a> {
    /// The movie header.
    pub mvhd: Option<Mvhd>,
    /// The tracks, in the order of the file.
    pub trak: Vec<Trak>,
    /// The user data.
    pub udta: Option<Udta<'a>>,
}

/// The mathematical value of a [`Moov`].
pub struct MoovView {
    pub mvhd: Option<Mvhd>,
    pub trak: Seq<TrakView>,
    pub udta: Option<UdtaView>,
}

/// The values of a list of tracks.
pub open spec fn trak_views(s: Seq<Trak>) -> Seq<TrakView> {
    Seq::new(s.len(), |i: int| s[i]@)
}

impl<'a> View for Moov<'a> {
    type V = MoovView;

    open spec fn view(&self) -> MoovView {
        MoovView {
            mvhd: self.mvhd,
            trak: trak_views(self.trak@),
            udta: match self.udta {
                Some(x) => Some(x@),
                None => None,
            },
        }
    }
}

/// Where a movie atom and the atoms that it holds lie in the file.
#[derive(Clone, Debug, PartialEq, Eq)]
pub struct MoovBounds {
    /// The bounds of the atom.
    pub bounds: AtomBounds,
    /// Where the tracks lie, in the order of the file.
    pub trak: Vec<TrakBounds>,
    /// Where the user data lies.
    pub udta: Option<UdtaBounds>,
}

/// The mathematical value of a [`MoovBounds`].
pub struct MoovBoundsView {
    pub bounds: AtomBounds,
    pub trak: Seq<TrakBounds>,
    pub udta: Option<UdtaBounds>,
}

impl View for MoovBounds {
    type V = MoovBoundsView;

    open spec fn view(&self) -> MoovBoundsView {
        MoovBoundsView { bounds: self.bounds, trak: self.trak@, udta: self.udta }
    }
}

/// What reading the children of a movie atom from position `p` of its
/// content `c`, which starts at position `base` of the file, adds to what
/// was read before. Every track is kept; of several movie headers or user
/// data atoms the last counts; what the configuration does not ask for is
/// passed over.
pub open spec fn moov_parts(
    c: Seq<u8>,
    p: int,
    base: int,
    cfg: ReadConfig,
    acc: MoovView,
) -> Result<MoovView, ErrorView>
    decreases c.len() - p,
{
    if p >= c.len() {
        Ok(acc)
    } else {
        match child_at(c, p) {
            Err(e) => Err(e),
            Ok(h) => {
                let size = h.spec_size();
                let cp = p + size.spec_head_len();
                let next = p + size.len;
                if h.fourcc == Ident(MOVIE_HEADER) && cfg.read_audio_info {
                    match Mvhd::parsed(c, cp, size) {
                        Err(e) => Err(e),
                        Ok(v) => moov_parts(c, next, base, cfg, MoovView { mvhd: Some(v), ..acc }),
                    }
                } else if h.fourcc == Ident(TRACK) && (cfg.read_chapters || cfg.read_audio_info) {
                    match Trak::parsed(c, cp, base, cfg, size) {
                        Err(e) => Err(e),
                        Ok(v) => moov_parts(
                            c,
                            next,
                            base,
                            cfg,
                            MoovView { trak: acc.trak.push(v), ..acc },
                        ),
                    }
                } else if h.fourcc == Ident(USER_DATA) && cfg.read_tag {
                    match Udta::parsed(c, cp, cfg, size) {
                        Err(e) => Err(e),
                        Ok(v) => moov_parts(c, next, base, cfg, MoovView { udta: Some(v), ..acc }),
                    }
                } else {
                    moov_parts(c, next, base, cfg, acc)
                }
            },
        }
    }
}

/// What finding the children of a movie atom from position `p` of its
/// content `c`, which starts at position `base` of the file, adds to what
/// was found before.
pub open spec fn moov_found(c: Seq<u8>, p: int, base: int, acc: MoovBoundsView) -> Result<
    MoovBoundsView,
    ErrorView,
>
    decreases c.len() - p,
{
    if p >= c.len() {
        Ok(acc)
    } else {
        match child_at(c, p) {
            Err(e) => Err(e),
            Ok(h) => {
                let size = h.spec_size();
                let cp = p + size.spec_head_len();
                let next = p + size.len;
                if h.fourcc == Ident(TRACK) {
                    match Trak::found(c, cp, base, size) {
                        Err(e) => Err(e),
                        Ok(b) => moov_found(
                            c,
                            next,
                            base,
                            MoovBoundsView { trak: acc.trak.push(b), ..acc },
                        ),
                    }
                } else if h.fourcc == Ident(USER_DATA) {
                    match Udta::found(c, cp, base, size) {
                        Err(e) => Err(e),
                        Ok(b) => moov_found(
                            c,
                            next,
                            base,
                            MoovBoundsView { udta: Some(b), ..acc },
                        ),
                    }
                } else {
                    moov_found(c, next, base, acc)
                }
            },
        }
    }
}

impl MoovBoundsView {
    /// What was found fits together and fits the file `f`: the atoms are
    /// atoms of the file, and the tracks and the user data and what they
    /// hold lie inside the content of the movie atom, apart from one
    /// another.
    pub open spec fn nested(self, f: Seq<u8>) -> bool {
        &&& self.bounds.anchored(f)
        &&& self.udta is Some ==> self.udta->0.nested(f) && self.bounds.holds(
            self.udta->0.bounds,
        )
        &&& forall|i: int|
            0 <= i < self.trak.len() ==> (#[trigger] self.trak[i]).nested(f) && self.bounds.holds(
                self.trak[i].bounds,
            )
        &&& forall|i: int|
            0 <= i < self.trak.len() && self.udta is Some
                ==> (#[trigger] self.trak[i]).bounds.apart(
                self.udta->0.bounds,
            )
        &&& forall|i: int, j: int|
            0 <= i < j < self.trak.len() ==> (#[trigger] self.trak[i]).bounds.apart(
                (#[trigger] self.trak[j]).bounds,
            )
    }

    /// What was found ends at or before the position `q` of the file.
    pub open spec fn before(self, q: int) -> bool {
        &&& self.udta is Some ==> self.udta->0.bounds.spec_end() <= q
        &&& forall|i: int| 0 <= i < self.trak.len()
            ==> (#[trigger] self.trak[i]).bounds.spec_end() <= q
    }
}

/// What is found in the content of a movie atom lies inside it.
pub proof fn lemma_moov_found_nested(
    f: Seq<u8>,
    c: Seq<u8>,
    p: int,
    base: int,
    acc: MoovBoundsView,
)
    requires
        0 <= p,
        0 <= base,
        base + c.len() <= f.len(),
        f.len() <= u64::MAX,
        c == f.subrange(base, base + c.len()),
        acc.nested(f),
        acc.before(base + p),
        acc.bounds.spec_content_pos() <= base,
        acc.bounds.spec_end() == base + c.len(),
    ensures
        moov_found(c, p, base, acc) is Ok ==> moov_found(c, p, base, acc)->Ok_0.nested(f)
            && moov_found(c, p, base, acc)->Ok_0.bounds == acc.bounds,
    decreases c.len() - p,
{
    if p < c.len() {
        match child_at(c, p) {
            Err(_) => {},
            Ok(h) => {
                lemma_child_anchored(f, c, base, p);
                let size = h.spec_size();
                let cp = p + size.spec_head_len();
                let next = p + size.len;
                if h.fourcc == Ident(TRACK) {
                    lemma_trak_nested(f, c, cp, base, size);
                    match Trak::found(c, cp, base, size) {
                        Err(_) => {},
                        Ok(b) => {
                            let next_acc = MoovBoundsView { trak: acc.trak.push(b), ..acc };
                            assert forall|i: int| 0 <= i < next_acc.trak.len() implies (
                            #[trigger] next_acc.trak[i]).nested(f) && next_acc.bounds.holds(
                                next_acc.trak[i].bounds,
                            ) && next_acc.trak[i].bounds.spec_end() <= base + next by {
                                if i < acc.trak.len() {
                                    assert(next_acc.trak[i] == acc.trak[i]);
                                }
                            }
                            assert forall|i: int, j: int|
                                0 <= i < j < next_acc.trak.len() implies (
                            #[trigger] next_acc.trak[i]).bounds.apart(
                                (#[trigger] next_acc.trak[j]).bounds,
                            ) by {
                                assert(next_acc.trak[i] == acc.trak[i]);
                                if j < acc.trak.len() {
                                    assert(next_acc.trak[j] == acc.trak[j]);
                                }
                            }
                            assert forall|i: int|
                                0 <= i < next_acc.trak.len() && next_acc.udta is Some implies (
                            #[trigger] next_acc.trak[i]).bounds.apart(next_acc.udta->0.bounds) by {
                                if i < acc.trak.len() {
                                    assert(next_acc.trak[i] == acc.trak[i]);
                                }
                            }
                            lemma_moov_found_nested(f, c, next, base, next_acc);
                        },
                    }
                } else if h.fourcc == Ident(USER_DATA) {
                    lemma_udta_nested(f, c, cp, base, size);
                    match Udta::found(c, cp, base, size) {
                        Err(_) => {},
                        Ok(b) => {
                            lemma_moov_found_nested(
                                f,
                                c,
                                next,
                                base,
                                MoovBoundsView { udta: Some(b), ..acc },
                            );
                        },
                    }
                } else {
                    lemma_moov_found_nested(f, c, next, base, acc);
                }
            },
        }
    }
}

/// A movie atom that is found in the stream `s`, which is the part of the
/// file `f` from position `base` on, has the bounds that its head gives, and
/// what is found in it lies inside it.
pub proof fn lemma_moov_nested(f: Seq<u8>, s: Seq<u8>, p: int, base: int, size: Size)
    requires
        0 <= p,
        0 <= base,
        base + s.len() <= f.len(),
        f.len() <= u64::MAX,
        s == f.subrange(base, base + s.len()),
        bounds_at(base + p, size, Ident(MOVIE)).anchored(f),
        base + p >= size.spec_head_len(),
    ensures
        Moov::found(s, p, base, size) is Ok ==> Moov::found(s, p, base, size)->Ok_0.nested(f)
            && Moov::found(s, p, base, size)->Ok_0.bounds == bounds_at(
            base + p,
            size,
            Ident(MOVIE),
        ),
{
    reveal(Moov::found);
    match content_of(s, p, size) {
        None => {},
        Some(c) => {
            let init = MoovBoundsView {
                bounds: bounds_at(base + p, size, Ident(MOVIE)),
                trak: Seq::empty(),
                udta: None,
            };
            assert(c =~= f.subrange(base + p, base + p + c.len()));
            lemma_moov_found_nested(f, c, 0, base + p, init);
        },
    }
}

/// The bytes of the atoms of the tracks, one after another.
pub open spec fn traks_bytes(s: Seq<TrakView>) -> Seq<u8>
    decreases s.len(),
{
    if s.len() == 0 {
        Seq::empty()
    } else {
        traks_bytes(s.drop_last()) + s.last().bytes()
    }
}

/// The bytes of a list of tracks grow by those of the track that is added,
/// and no track is longer than the list.
pub proof fn lemma_traks_take(s: Seq<TrakView>, i: int)
    requires
        0 <= i < s.len(),
    ensures
        traks_bytes(s.take(i + 1)) == traks_bytes(s.take(i)) + s[i].bytes(),
        traks_bytes(s.take(i)).len() + s[i].bytes().len() <= traks_bytes(s).len(),
    decreases s.len() - i,
{
    assert(s.take(i + 1).drop_last() =~= s.take(i));
    if i + 1 < s.len() {
        lemma_traks_take(s, i + 1);
    } else {
        assert(s.take(i + 1) =~= s);
    }
}

impl MoovView {
    /// The movie of which nothing is known.
    pub open spec fn none() -> MoovView {
        MoovView { mvhd: None, trak: Seq::empty(), udta: None }
    }

    /// The bytes of the movie header, if there is one.
    pub open spec fn mvhd_bytes(self) -> Seq<u8> {
        match self.mvhd {
            Some(x) => x.bytes(),
            None => Seq::empty(),
        }
    }

    /// The bytes of the user data, if there is one.
    pub open spec fn udta_bytes(self) -> Seq<u8> {
        match self.udta {
            Some(x) => x.bytes(),
            None => Seq::empty(),
        }
    }

    /// The content of the atom: the movie header, the tracks and the user
    /// data.
    pub open spec fn content_bytes(self) -> Seq<u8> {
        self.mvhd_bytes() + traks_bytes(self.trak) + self.udta_bytes()
    }

    /// The bytes of the atom.
    #[verifier::opaque]
    pub open spec fn bytes(self) -> Seq<u8> {
        boxed(Ident(MOVIE), self.content_bytes())
    }

    /// The atom can be written: the atoms that it holds can, and its length
    /// is a number of 64 bits.
    pub open spec fn writable(self) -> bool {
        &&& fits(self.content_bytes().len() as int)
        &&& self.mvhd is Some ==> self.mvhd->0.wf()
        &&& forall|i: int| 0 <= i < self.trak.len() ==> (#[trigger] self.trak[i]).writable()
        &&& self.udta is Some ==> self.udta->0.writable()
    }
}

impl<'a> Moov<'a> {
    /// What the content `c` of a movie atom says, which starts at position
    /// `base` of the file.
    pub open spec fn decode(c: Seq<u8>, base: int, cfg: ReadConfig) -> Result<
        MoovView,
        ErrorView,
    > {
        moov_parts(c, 0, base, cfg, MoovView::none())
    }

    /// What reading a movie atom gives whose content starts at position `p`
    /// of the stream `s`, which starts at position `base` of the file.
    #[verifier::opaque]
    pub open spec fn parsed(s: Seq<u8>, p: int, base: int, cfg: ReadConfig, size: Size) -> Result<
        MoovView,
        ErrorView,
    > {
        annotate(
            "parsing",
            Ident(MOVIE),
            match content_of(s, p, size) {
                None => Err(eof()),
                Some(c) => Moov::decode(c, base + p, cfg),
            },
        )
    }

    /// Where the movie atom lies whose content `c` starts at position `base`
    /// of the file, and where the atoms lie that it holds.
    pub open spec fn locate(c: Seq<u8>, base: int, size: Size) -> Result<
        MoovBoundsView,
        ErrorView,
    > {
        moov_found(
            c,
            0,
            base,
            MoovBoundsView {
                bounds: bounds_at(base, size, Ident(MOVIE)),
                trak: Seq::empty(),
                udta: None,
            },
        )
    }

    /// What finding a movie atom gives whose content starts at position `p`
    /// of the stream `s`, which starts at position `base` of the file.
    #[verifier::opaque]
    pub open spec fn found(s: Seq<u8>, p: int, base: int, size: Size) -> Result<
        MoovBoundsView,
        ErrorView,
    > {
        annotate(
            "parsing",
            Ident(MOVIE),
            match content_of(s, p, size) {
                None => Err(eof()),
                Some(c) => Moov::locate(c, base + p, size),
            },
        )
    }

    /// Reads a movie atom: the cursor stands behind its head, which declared
    /// the size `size`.
    pub fn parse(reader: &mut Reader, cfg: &ReadConfig, size: Size) -> (r: Result<
        Moov<'static>,
        Error,
    >)
        requires
            old(reader).wf(),
            size.wf(),
        ensures
            read(
                Moov::parsed(
                    old(reader).data@,
                    old(reader).pos as int,
                    old(reader).base as int,
                    *cfg,
                    size,
                ),
                view_of(r),
                old(reader),
                final(reader),
                size.spec_content_len(),
            ),
    {
        proof {
            reveal(Moov::parsed);
        }
        let mut content = match reader.take(size.content_len()) {
            Ok(c) => c,
            Err(e) => {
                return Err(e.annotate("parsing", Ident(MOVIE)));
            },
        };
        match Moov::parse_atom(&mut content, cfg) {
            Ok(v) => Ok(v),
            Err(e) => Err(e.annotate("parsing", Ident(MOVIE))),
        }
    }

    /// Reads the content of a movie atom, which the cursor is over.
    pub fn parse_atom(content: &mut Reader, cfg: &ReadConfig) -> (r: Result<Moov<'static>, Error>)
        requires
            old(content).wf(),
            old(content).pos == 0,
        ensures
            view_of(r) == Moov::decode(old(content).data@, old(content).base as int, *cfg),
            final(content).same_stream(old(content)),
    {
        let ghost c = content.data@;
        let ghost base = content.base as int;
        let mut moov: Moov<'static> = Moov { mvhd: None, trak: Vec::new(), udta: None };
        assert(moov@.trak =~= Seq::empty());
        while content.remaining() > 0
            invariant
                content.same_stream(old(content)),
                c == content.data@,
                base == content.base,
                moov_parts(c, content.pos as int, base, *cfg, moov@) == Moov::decode(c, base, *cfg),
            decreases content.left(),
        {
            let head = match next_child(content) {
                Ok(h) => h,
                Err(e) => {
                    return Err(e);
                },
            };
            if head.fourcc.0 == MOVIE_HEADER && cfg.read_audio_info {
                match Mvhd::parse(content, cfg, head.size()) {
                    Ok(v) => {
                        moov.mvhd = Some(v);
                    },
                    Err(e) => {
                        return Err(e);
                    },
                }
            } else if head.fourcc.0 == TRACK && (cfg.read_chapters || cfg.read_audio_info) {
                match Trak::parse(content, cfg, head.size()) {
                    Ok(v) => {
                        assert(trak_views(moov.trak@.push(v)) =~= trak_views(moov.trak@).push(v@));
                        moov.trak.push(v);
                    },
                    Err(e) => {
                        return Err(e);
                    },
                }
            } else if head.fourcc.0 == USER_DATA && cfg.read_tag {
                match Udta::parse(content, cfg, head.size()) {
                    Ok(v) => {
                        moov.udta = Some(v);
                    },
                    Err(e) => {
                        return Err(e);
                    },
                }
            } else {
                match content.skip(head.content_len()) {
                    Ok(_) => {},
                    Err(e) => {
                        return Err(e);
                    },
                }
            }
        }
        Ok(moov)
    }

    /// Finds where a movie atom and the atoms that it holds lie: the cursor
    /// stands behind its head, which declared the size `size`.
    pub fn find(reader: &mut Reader, size: Size) -> (r: Result<MoovBounds, Error>)
        requires
            old(reader).wf(),
            size.wf(),
            old(reader).abs() >= size.spec_head_len(),
        ensures
            read(
                Moov::found(
                    old(reader).data@,
                    old(reader).pos as int,
                    old(reader).base as int,
                    size,
                ),
                view_of(r),
                old(reader),
                final(reader),
                size.spec_content_len(),
            ),
    {
        proof {
            reveal(Moov::found);
        }
        let mut content = match reader.take(size.content_len()) {
            Ok(c) => c,
            Err(e) => {
                return Err(e.annotate("parsing", Ident(MOVIE)));
            },
        };
        match Moov::find_atom(&mut content, size) {
            Ok(v) => Ok(v),
            Err(e) => Err(e.annotate("parsing", Ident(MOVIE))),
        }
    }

    /// Finds what the content of a movie atom holds, which the cursor is
    /// over.
    pub fn find_atom(content: &mut Reader, size: Size) -> (r: Result<MoovBounds, Error>)
        requires
            old(content).wf(),
            old(content).pos == 0,
            size.wf(),
            old(content).base >= size.spec_head_len(),
            old(content).data@.len() == size.spec_content_len(),
        ensures
            view_of(r) == Moov::locate(old(content).data@, old(content).base as int, size),
            final(content).same_stream(old(content)),
    {
        let ghost c = content.data@;
        let ghost base = content.base as int;
        let bounds = find_bounds(content, size, Ident(MOVIE));
        let mut moov = MoovBounds { bounds, trak: Vec::new(), udta: None };
        while content.remaining() > 0
            invariant
                content.same_stream(old(content)),
                c == content.data@,
                base == content.base,
                moov_found(c, content.pos as int, base, moov@) == Moov::locate(c, base, size),
            decreases content.left(),
        {
            let head = match next_child(content) {
                Ok(h) => h,
                Err(e) => {
                    return Err(e);
                },
            };
            if head.fourcc.0 == TRACK {
                match Trak::find(content, head.size()) {
                    Ok(v) => {
                        moov.trak.push(v);
                    },
                    Err(e) => {
                        return Err(e);
                    },
                }
            } else if head.fourcc.0 == USER_DATA {
                match Udta::find(content, head.size()) {
                    Ok(v) => {
                        moov.udta = Some(v);
                    },
                    Err(e) => {
                        return Err(e);
                    },
                }
            } else {
                match content.skip(head.content_len()) {
                    Ok(_) => {},
                    Err(e) => {
                        return Err(e);
                    },
                }
            }
        }
        Ok(moov)
    }

    /// The size of the atom.
    pub fn size(&self) -> (r: Size)
        requires
            self@.writable(),
        ensures
            r == Size::of(self@.content_bytes().len() as int),
            r.len == self@.bytes().len(),
    {
        proof {
            reveal(MoovView::bytes);
        }
        let ghost v = self@;
        let mut n: u64 = 0;
        match &self.mvhd {
            Some(a) => {
                n = n + a.len();
            },
            None => {},
        }
        let mut i: usize = 0;
        assert(traks_bytes(v.trak.take(0)).len() == 0);
        while i < self.trak.len()
            invariant
                i <= self.trak.len(),
                v == self@,
                v.writable(),
                n == v.mvhd_bytes().len() + traks_bytes(v.trak.take(i as int)).len(),
            decreases self.trak.len() - i,
        {
            proof {
                lemma_traks_take(v.trak, i as int);
                assert(v.trak[i as int].writable());
            }
            n = n + self.trak[i].len();
            i += 1;
        }
        assert(v.trak.take(i as int) =~= v.trak);
        match &self.udta {
            Some(a) => {
                n = n + a.len();
            },
            None => {},
        }
        Size::from(n)
    }

    /// The length of the atom in bytes.
    pub fn len(&self) -> (r: u64)
        requires
            self@.writable(),
        ensures
            r == self@.bytes().len(),
    {
        self.size().len()
    }

    /// Writes the atom.
    pub fn write(&self, out: &mut Vec<u8>)
        requires
            self@.writable(),
        ensures
            final(out)@ == old(out)@ + self@.bytes(),
    {
        proof {
            reveal(MoovView::bytes);
        }
        let ghost v = self@;
        let mut body: Vec<u8> = Vec::new();
        match &self.mvhd {
            Some(a) => {
                a.write(&mut body);
            },
            None => {},
        }
        let mut i: usize = 0;
        assert(body@ =~= v.mvhd_bytes() + traks_bytes(v.trak.take(0)));
        while i < self.trak.len()
            invariant
                i <= self.trak.len(),
                v == self@,
                v.writable(),
                body@ == v.mvhd_bytes() + traks_bytes(v.trak.take(i as int)),
            decreases self.trak.len() - i,
        {
            proof {
                lemma_traks_take(v.trak, i as int);
                assert(v.trak[i as int].writable());
            }
            self.trak[i].write(&mut body);
            assert(body@ =~= v.mvhd_bytes() + traks_bytes(v.trak.take(i + 1)));
            i += 1;
        }
        assert(v.trak.take(i as int) =~= v.trak);
        match &self.udta {
            Some(a) => {
                a.write(&mut body);
            },
            None => {},
        }
        assert(body@ =~= v.content_bytes());
        write_boxed(out, Ident(MOVIE), &body);
    }
}

/// The tracks can be read back from their bytes, where these stand one
/// after another from position `pos` of the file on.
pub open spec fn traks_readable(traks: Seq<TrakView>, pos: int) -> bool
    decreases traks.len(),
{
    traks.len() == 0 || (traks[0].readable_at(pos) && traks_readable(
        traks.drop_first(),
        pos + traks[0].bytes().len(),
    ))
}

impl MoovView {
    /// The atom can be read back from its bytes, where they stand at
    /// position `pos` of the file: it can be written, the user data can be
    /// read back, and the positions that the tracks name are those at which
    /// they are written.
    pub open spec fn readable_at(self, pos: int) -> bool {
        &&& self.writable()
        &&& self.udta is Some ==> self.udta->0.readable()
        &&& traks_readable(
            self.trak,
            pos + Size::of(self.content_bytes().len() as int).spec_head_len()
                + self.mvhd_bytes().len(),
        )
    }
}

/// The bytes of a list of tracks with one more track in front are the bytes
/// of that track and those of the list.
pub proof fn lemma_traks_front(t: TrakView, rest: Seq<TrakView>)
    ensures
        traks_bytes(seq![t] + rest) == t.bytes() + traks_bytes(rest),
    decreases rest.len(),
{
    reveal_with_fuel(traks_bytes, 3);
    if rest.len() == 0 {
        assert(seq![t] + rest =~= seq![t]);
        assert(seq![t].drop_last() =~= Seq::<TrakView>::empty());
        assert(traks_bytes(seq![t]) =~= t.bytes());
        assert(t.bytes() + traks_bytes(rest) =~= t.bytes());
    } else {
        let all = seq![t] + rest;
        assert(all.drop_last() =~= seq![t] + rest.drop_last());
        assert(all.last() == rest.last());
        lemma_traks_front(t, rest.drop_last());
        assert(traks_bytes(all) =~= t.bytes() + traks_bytes(rest));
    }
}

/// Reading tracks back from where their bytes stand adds them to what was
/// read before.
pub proof fn lemma_moov_traks(c: Seq<u8>, p: int, base: int, acc: MoovView, ts: Seq<TrakView>)
    requires
        0 <= p,
        p + traks_bytes(ts).len() <= c.len(),
        c.subrange(p, p + traks_bytes(ts).len()) == traks_bytes(ts),
        traks_readable(ts, base + p),
    ensures
        moov_parts(c, p, base, ReadConfig::spec_all(), acc) == moov_parts(
            c,
            p + traks_bytes(ts).len(),
            base,
            ReadConfig::spec_all(),
            MoovView { trak: acc.trak + ts, ..acc },
        ),
    decreases ts.len(),
{
    if ts.len() == 0 {
        assert(acc.trak + ts =~= acc.trak);
    } else {
        let t = ts[0];
        let rest = ts.drop_first();
        assert(ts =~= seq![t] + rest);
        lemma_traks_front(t, rest);
        let a = t.bytes();
        let tail = traks_bytes(rest);
        let all = c.subrange(p, p + traks_bytes(ts).len());
        assert(all == a + tail);
        assert(c.subrange(p, p + a.len()) =~= all.subrange(0, a.len() as int));
        assert(all.subrange(0, a.len() as int) =~= a);
        lemma_trak_round_trip(c, p, base, t);
        let next = p + a.len();
        assert(c.subrange(next, next + tail.len()) =~= all.subrange(
            a.len() as int,
            all.len() as int,
        ));
        assert(all.subrange(a.len() as int, all.len() as int) =~= tail);
        let acc2 = MoovView { trak: acc.trak.push(t), ..acc };
        lemma_moov_traks(c, next, base, acc2, rest);
        assert(acc.trak.push(t) + rest =~= acc.trak + ts);
    }
}

/// Reading a movie atom back from the content that is written of it gives
/// the atom.
pub proof fn lemma_moov_decode(v: MoovView, base: int)
    requires
        v.writable(),
        v.udta is Some ==> v.udta->0.readable(),
        traks_readable(v.trak, base + v.mvhd_bytes().len()),
    ensures
        Moov::decode(v.content_bytes(), base, ReadConfig::spec_all()) == Ok::<MoovView, ErrorView>(
            v,
        ),
{
    let c = v.content_bytes();
    let cfg = ReadConfig::spec_all();
    let acc0 = MoovView::none();
    let at1: int = v.mvhd_bytes().len() as int;
    let acc1 = MoovView { mvhd: v.mvhd, ..acc0 };
    if v.mvhd is Some {
        let x = v.mvhd->0;
        assert(c.subrange(0, at1) =~= v.mvhd_bytes());
        crate::atom::mvhd::lemma_mvhd_round_trip(c, 0, x);
        assert(moov_parts(c, 0, base, cfg, acc0) == moov_parts(c, at1, base, cfg, acc1));
    } else {
        assert(acc1 == acc0);
    }
    let at2: int = at1 + traks_bytes(v.trak).len();
    assert(c.subrange(at1, at2) =~= traks_bytes(v.trak));
    lemma_moov_traks(c, at1, base, acc1, v.trak);
    assert(Seq::<TrakView>::empty() + v.trak =~= v.trak);
    let acc2 = MoovView { trak: v.trak, ..acc1 };
    assert(acc2 == (MoovView { trak: acc1.trak + v.trak, ..acc1 }));
    let at3: int = at2 + v.udta_bytes().len();
    if v.udta is Some {
        let x = v.udta->0;
        assert(c.subrange(at2, at3) =~= v.udta_bytes());
        lemma_udta_round_trip(c, at2, x);
        assert(moov_parts(c, at2, base, cfg, acc2) == moov_parts(c, at3, base, cfg, v));
    } else {
        assert(acc2 == v);
    }
    assert(at3 == c.len());
}

/// Reading a movie atom back from where its bytes stand gives the atom.
pub proof fn lemma_moov_round_trip(c: Seq<u8>, p: int, base: int, v: MoovView)
    requires
        0 <= p,
        v.readable_at(base + p),
        p + v.bytes().len() <= c.len(),
        c.subrange(p, p + v.bytes().len()) == v.bytes(),
    ensures
        stands_at(c, p, Ident(MOVIE), v.bytes().len() as int),
        Moov::parsed(c, content_at(c, p), base, ReadConfig::spec_all(), size_at(c, p)) == Ok::<
            MoovView,
            ErrorView,
        >(v),
{
    reveal(Moov::parsed);
    reveal(MoovView::bytes);
    lemma_boxed_child(c, p, Ident(MOVIE), v.content_bytes());
    lemma_moov_decode(v, base + content_at(c, p));
}

} // verus!
