//! The track atom (`trak`).

use crate::atom::base::{boxed, child_at, content_of, fits, found_at, next_child, plain_of, read};
use crate::atom::base::{lemma_boxed_len, lemma_child_anchored, view_of, write_boxed, ReadConfig};
use crate::atom::base::{content_at, lemma_boxed_child, size_at, stands_at};
use crate::atom::mdia::{lemma_mdia_nested, Mdia, MdiaBounds, MdiaView};
use crate::atom::tkhd::Tkhd;
use crate::atom::tref::{Tref, TrefBounds};
use crate::error::{annotate, eof, Error, ErrorView};
use crate::head::{bounds_at, find_bounds, AtomBounds, Size};
use crate::ident::{Ident, MEDIA, TRACK, TRACK_HEADER, TRACK_REFERENCE};
use crate::reader::Reader;
use vstd::prelude::*;

verus! {

/// A track atom: the atoms that it holds.
#[derive(Clone, Debug, Default, PartialEq, Eq)]
pub struct Trak {
    /// The track header.
    pub tkhd: Option<Tkhd>,
    /// The track reference.
    pub tref: Option<Tref>,
    /// The media.
    pub mdia: Option<Mdia>,
}

/// The mathematical value of a [`Trak`].
pub struct TrakView {
    pub tkhd: Option<Tkhd>,
    pub tref: Option<Seq<u8>>,
    pub mdia: Option<MdiaView>,
}

impl View for Trak {
    type V = TrakView;

    open spec fn view(&self) -> TrakView {
        TrakView {
            tkhd: self.tkhd,
            tref: match self.tref {
                Some(x) => Some(x@),
                None => None,
            },
            mdia: match self.mdia {
                Some(x) => Some(x@),
                None => None,
            },
        }
    }
}

/// Where a track atom and the atoms that it holds lie in the file.
#[derive(Clone, Copy, Debug, PartialEq, Eq, Structural)]
pub struct TrakBounds {
    /// The bounds of the atom.
    pub bounds: AtomBounds,
    /// The track header.
    pub tkhd: Option<Tkhd>,
    /// Where the track reference lies.
    pub tref: Option<TrefBounds>,
    /// Where the media lies.
    pub mdia: Option<MdiaBounds>,
}

/// What reading the children of a track atom from position `p` of its
/// content `c`, which starts at position `base` of the file, adds to what
/// was read before. Of several children of one kind the last counts; what
/// the configuration does not ask for is passed over.
pub open spec fn trak_parts(
    c: Seq<u8>,
    p: int,
    base: int,
    cfg: ReadConfig,
    acc: TrakView,
) -> Result<TrakView, ErrorView>
    decreases c.len() - p,
{
    if p >= c.len() {
        Ok(acc)
    } else {
        match child_at(c, p) {
            Err(e) => Err(e),
            Ok(h) => {
                let size = h.spec_size();
                let cp = p + size.spec_head_len();
                let next = p + size.len;
                if h.fourcc == Ident(TRACK_HEADER) && (cfg.read_chapters) {
                    match Tkhd::parsed(c, cp, size) {
                        Err(e) => Err(e),
                        Ok(v) => trak_parts(c, next, base, cfg, TrakView { tkhd: Some(v), ..acc }),
                    }
                } else if h.fourcc == Ident(TRACK_REFERENCE) && (cfg.read_chapters) {
                    match Tref::parsed(c, cp, size) {
                        Err(e) => Err(e),
                        Ok(v) => trak_parts(c, next, base, cfg, TrakView { tref: Some(v), ..acc }),
                    }
                } else if h.fourcc == Ident(MEDIA) && (cfg.read_chapters || cfg.read_audio_info) {
                    match Mdia::parsed(c, cp, base, cfg, size) {
                        Err(e) => Err(e),
                        Ok(v) => trak_parts(c, next, base, cfg, TrakView { mdia: Some(v), ..acc }),
                    }
                } else {
                    trak_parts(c, next, base, cfg, acc)
                }
            },
        }
    }
}

/// What finding the children of a track atom from position `p` of its
/// content `c`, which starts at position `base` of the file, adds to what
/// was found before.
pub open spec fn trak_found(c: Seq<u8>, p: int, base: int, acc: TrakBounds) -> Result<
    TrakBounds,
    ErrorView,
>
    decreases c.len() - p,
{
    if p >= c.len() {
        Ok(acc)
    } else {
        match child_at(c, p) {
            Err(e) => Err(e),
            Ok(h) => {
                let size = h.spec_size();
                let cp = p + size.spec_head_len();
                let next = p + size.len;
                if h.fourcc == Ident(TRACK_HEADER) {
                    match Tkhd::parsed(c, cp, size) {
                        Err(e) => Err(e),
                        Ok(b) => trak_found(
                            c,
                            next,
                            base,
                            TrakBounds { tkhd: Some(b), ..acc },
                        ),
                    }
                } else if h.fourcc == Ident(TRACK_REFERENCE) {
                    match found_at(c, cp, base, size, h.fourcc) {
                        Err(e) => Err(e),
                        Ok(b) => trak_found(
                            c,
                            next,
                            base,
                            TrakBounds { tref: Some(TrefBounds { bounds: b }), ..acc },
                        ),
                    }
                } else if h.fourcc == Ident(MEDIA) {
                    match Mdia::found(c, cp, base, size) {
                        Err(e) => Err(e),
                        Ok(b) => trak_found(
                            c,
                            next,
                            base,
                            TrakBounds { mdia: Some(b), ..acc },
                        ),
                    }
                } else {
                    trak_found(c, next, base, acc)
                }
            },
        }
    }
}

impl TrakBounds {
    /// What was found fits together and fits the file `f`: the atoms are
    /// atoms of the file, and those that were found in this one lie inside
    /// its content, apart from one another.
    pub open spec fn nested(self, f: Seq<u8>) -> bool {
        &&& self.bounds.anchored(f)
        &&& self.tref is Some ==> self.tref->0.bounds.anchored(f) && self.bounds.holds(
            self.tref->0.bounds,
        )
        &&& self.mdia is Some ==> self.mdia->0.nested(f) && self.bounds.holds(
            self.mdia->0.bounds,
        )
        &&& self.tref is Some && self.mdia is Some ==> self.tref->0.bounds.apart(
            self.mdia->0.bounds,
        )
    }

    /// What was found ends at or before the position `q` of the file.
    pub open spec fn before(self, q: int) -> bool {
        &&& self.tref is Some ==> self.tref->0.bounds.spec_end() <= q
        &&& self.mdia is Some ==> self.mdia->0.bounds.spec_end() <= q
    }
}

/// What is found in the content of a track atom lies inside it.
pub proof fn lemma_trak_found_nested(f: Seq<u8>, c: Seq<u8>, p: int, base: int, acc: TrakBounds)
    requires
        0 <= p,
        0 <= base,
        base + c.len() <= f.len(),
        f.len() <= u64::MAX,
        c == f.subrange(base, base + c.len()),
        acc.nested(f),
        acc.before(base + p),
        acc.bounds.spec_content_pos() <= base,
        acc.bounds.spec_end() == base + c.len(),
    ensures
        trak_found(c, p, base, acc) is Ok ==> trak_found(c, p, base, acc)->Ok_0.nested(f)
            && trak_found(c, p, base, acc)->Ok_0.bounds == acc.bounds,
    decreases c.len() - p,
{
    reveal(found_at);
    if p < c.len() {
        match child_at(c, p) {
            Err(_) => {},
            Ok(h) => {
                lemma_child_anchored(f, c, base, p);
                let size = h.spec_size();
                let cp = p + size.spec_head_len();
                let next = p + size.len;
                if h.fourcc == Ident(TRACK_HEADER) {
                    match Tkhd::parsed(c, cp, size) {
                        Err(_) => {},
                        Ok(b) => {
                            lemma_trak_found_nested(
                                f,
                                c,
                                next,
                                base,
                                TrakBounds { tkhd: Some(b), ..acc },
                            );
                        },
                    }
                } else if h.fourcc == Ident(TRACK_REFERENCE) {
                    match found_at(c, cp, base, size, h.fourcc) {
                        Err(_) => {},
                        Ok(b) => {
                            lemma_trak_found_nested(
                                f,
                                c,
                                next,
                                base,
                                TrakBounds { tref: Some(TrefBounds { bounds: b }), ..acc },
                            );
                        },
                    }
                } else if h.fourcc == Ident(MEDIA) {
                    lemma_mdia_nested(f, c, cp, base, size);
                    match Mdia::found(c, cp, base, size) {
                        Err(_) => {},
                        Ok(b) => {
                            lemma_trak_found_nested(
                                f,
                                c,
                                next,
                                base,
                                TrakBounds { mdia: Some(b), ..acc },
                            );
                        },
                    }
                } else {
                    lemma_trak_found_nested(f, c, next, base, acc);
                }
            },
        }
    }
}

/// A track atom that is found in the stream `s`, which is the part of
/// the file `f` from position `base` on, has the bounds that its head
/// gives, and what is found in it lies inside it.
pub proof fn lemma_trak_nested(f: Seq<u8>, s: Seq<u8>, p: int, base: int, size: Size)
    requires
        0 <= p,
        0 <= base,
        base + s.len() <= f.len(),
        f.len() <= u64::MAX,
        s == f.subrange(base, base + s.len()),
        bounds_at(base + p, size, Ident(TRACK)).anchored(f),
        base + p >= size.spec_head_len(),
    ensures
        Trak::found(s, p, base, size) is Ok ==> Trak::found(s, p, base, size)->Ok_0.nested(f)
            && Trak::found(s, p, base, size)->Ok_0.bounds == bounds_at(
            base + p,
            size,
            Ident(TRACK),
        ),
{
    reveal(Trak::found);
    match content_of(s, p, size) {
        None => {},
        Some(c) => {
            let init = TrakBounds { bounds: bounds_at(base + p, size, Ident(TRACK)), tkhd: None, tref: None, mdia: None };
            assert(c =~= f.subrange(base + p, base + p + c.len()));
            lemma_trak_found_nested(f, c, 0, base + p, init);
        },
    }
}

impl TrakView {
    /// The track of which nothing is known.
    pub open spec fn none() -> TrakView {
        TrakView { tkhd: None, tref: None, mdia: None }
    }

    /// The content of the atom: the atoms that it holds, in the order of
    /// the fields.
    pub open spec fn content_bytes(self) -> Seq<u8> {
        (match self.tkhd {
            Some(x) => x.bytes(),
            None => Seq::empty(),
        }) + (match self.tref {
            Some(x) => Tref::bytes(x),
            None => Seq::empty(),
        }) + (match self.mdia {
            Some(x) => x.bytes(),
            None => Seq::empty(),
        })
    }

    /// The bytes of the atom.
    #[verifier::opaque]
    pub open spec fn bytes(self) -> Seq<u8> {
        boxed(Ident(TRACK), self.content_bytes())
    }

    /// The atom can be written: the atoms that it holds can, and its length
    /// is a number of 64 bits.
    pub open spec fn writable(self) -> bool {
        &&& fits(self.content_bytes().len() as int)
        &&& self.tref is Some ==> fits(self.tref->0.len() as int)
        &&& self.mdia is Some ==> self.mdia->0.writable()
    }
}

impl Trak {
    /// What the content `c` of a track atom says, which starts at position
    /// `base` of the file.
    pub open spec fn decode(c: Seq<u8>, base: int, cfg: ReadConfig) -> Result<
        TrakView,
        ErrorView,
    > {
        trak_parts(c, 0, base, cfg, TrakView::none())
    }

    /// What reading a track atom gives whose content starts at position `p`
    /// of the stream `s`, which starts at position `base` of the file.
    #[verifier::opaque]
    pub open spec fn parsed(s: Seq<u8>, p: int, base: int, cfg: ReadConfig, size: Size) -> Result<
        TrakView,
        ErrorView,
    > {
        annotate(
            "parsing",
            Ident(TRACK),
            match content_of(s, p, size) {
                None => Err(eof()),
                Some(c) => Trak::decode(c, base + p, cfg),
            },
        )
    }

    /// Where the track atom lies whose content `c` starts at position
    /// `base` of the file, and where the atoms lie that it holds.
    pub open spec fn locate(c: Seq<u8>, base: int, size: Size) -> Result<TrakBounds, ErrorView> {
        trak_found(
            c,
            0,
            base,
            TrakBounds { bounds: bounds_at(base, size, Ident(TRACK)), tkhd: None, tref: None, mdia: None },
        )
    }

    /// What finding a track atom gives whose content starts at position `p`
    /// of the stream `s`, which starts at position `base` of the file.
    #[verifier::opaque]
    pub open spec fn found(s: Seq<u8>, p: int, base: int, size: Size) -> Result<
        TrakBounds,
        ErrorView,
    > {
        annotate(
            "parsing",
            Ident(TRACK),
            match content_of(s, p, size) {
                None => Err(eof()),
                Some(c) => Trak::locate(c, base + p, size),
            },
        )
    }

    /// Reads a track atom: the cursor stands behind its head, which
    /// declared the size `size`.
    pub fn parse(reader: &mut Reader, cfg: &ReadConfig, size: Size) -> (r: Result<Trak, Error>)
        requires
            old(reader).wf(),
            size.wf(),
        ensures
            read(
                Trak::parsed(
                    old(reader).data@,
                    old(reader).pos as int,
                    old(reader).base as int,
                    *cfg,
                    size,
                ),
                view_of(r),
                old(reader),
                final(reader),
                size.spec_content_len(),
            ),
    {
        proof {
            reveal(Trak::parsed);
        }
        let mut content = match reader.take(size.content_len()) {
            Ok(c) => c,
            Err(e) => {
                return Err(e.annotate("parsing", Ident(TRACK)));
            },
        };
        match Trak::parse_atom(&mut content, cfg) {
            Ok(v) => Ok(v),
            Err(e) => Err(e.annotate("parsing", Ident(TRACK))),
        }
    }

    /// Reads the content of a track atom, which the cursor is over.
    pub fn parse_atom(content: &mut Reader, cfg: &ReadConfig) -> (r: Result<Trak, Error>)
        requires
            old(content).wf(),
            old(content).pos == 0,
        ensures
            view_of(r) == Trak::decode(old(content).data@, old(content).base as int, *cfg),
            final(content).same_stream(old(content)),
    {
        let ghost c = content.data@;
        let ghost base = content.base as int;
        let mut trak = Trak { tkhd: None, tref: None, mdia: None };
        while content.remaining() > 0
            invariant
                content.same_stream(old(content)),
                c == content.data@,
                base == content.base,
                trak_parts(c, content.pos as int, base, *cfg, trak@) == Trak::decode(c, base, *cfg),
            decreases content.left(),
        {
            let head = match next_child(content) {
                Ok(h) => h,
                Err(e) => {
                    return Err(e);
                },
            };
            if head.fourcc.0 == TRACK_HEADER && (cfg.read_chapters) {
                match Tkhd::parse(content, cfg, head.size()) {
                    Ok(v) => {
                        trak.tkhd = Some(v);
                    },
                    Err(e) => {
                        return Err(e);
                    },
                }
            } else if head.fourcc.0 == TRACK_REFERENCE && (cfg.read_chapters) {
                match Tref::parse(content, cfg, head.size()) {
                    Ok(v) => {
                        trak.tref = Some(v);
                    },
                    Err(e) => {
                        return Err(e);
                    },
                }
            } else if head.fourcc.0 == MEDIA && (cfg.read_chapters || cfg.read_audio_info) {
                match Mdia::parse(content, cfg, head.size()) {
                    Ok(v) => {
                        trak.mdia = Some(v);
                    },
                    Err(e) => {
                        return Err(e);
                    },
                }
            } else {
                match content.skip(head.content_len()) {
                    Ok(_) => {},
                    Err(e) => {
                        return Err(e);
                    },
                }
            }
        }
        Ok(trak)
    }

    /// Finds where a track atom and the atoms that it holds lie: the
    /// cursor stands behind its head, which declared the size `size`.
    pub fn find(reader: &mut Reader, size: Size) -> (r: Result<TrakBounds, Error>)
        requires
            old(reader).wf(),
            size.wf(),
            old(reader).abs() >= size.spec_head_len(),
        ensures
            read(
                Trak::found(
                    old(reader).data@,
                    old(reader).pos as int,
                    old(reader).base as int,
                    size,
                ),
                plain_of(r),
                old(reader),
                final(reader),
                size.spec_content_len(),
            ),
    {
        proof {
            reveal(Trak::found);
        }
        let mut content = match reader.take(size.content_len()) {
            Ok(c) => c,
            Err(e) => {
                return Err(e.annotate("parsing", Ident(TRACK)));
            },
        };
        match Trak::find_atom(&mut content, size) {
            Ok(v) => Ok(v),
            Err(e) => Err(e.annotate("parsing", Ident(TRACK))),
        }
    }

    /// Finds what the content of a track atom holds, which the cursor is
    /// over.
    pub fn find_atom(content: &mut Reader, size: Size) -> (r: Result<TrakBounds, Error>)
        requires
            old(content).wf(),
            old(content).pos == 0,
            size.wf(),
            old(content).base >= size.spec_head_len(),
            old(content).data@.len() == size.spec_content_len(),
        ensures
            plain_of(r) == Trak::locate(old(content).data@, old(content).base as int, size),
            final(content).same_stream(old(content)),
    {
        let ghost c = content.data@;
        let ghost base = content.base as int;
        let bounds = find_bounds(content, size, Ident(TRACK));
        let mut trak = TrakBounds { bounds, tkhd: None, tref: None, mdia: None };
        while content.remaining() > 0
            invariant
                content.same_stream(old(content)),
                c == content.data@,
                base == content.base,
                trak_found(c, content.pos as int, base, trak) == Trak::locate(c, base, size),
            decreases content.left(),
        {
            let head = match next_child(content) {
                Ok(h) => h,
                Err(e) => {
                    return Err(e);
                },
            };
            if head.fourcc.0 == TRACK_HEADER {
                match Tkhd::parse(content, &ReadConfig::all(), head.size()) {
                    Ok(v) => {
                        trak.tkhd = Some(v);
                    },
                    Err(e) => {
                        return Err(e);
                    },
                }
            } else if head.fourcc.0 == TRACK_REFERENCE {
                match Tref::find(content, head.size()) {
                    Ok(v) => {
                        trak.tref = Some(v);
                    },
                    Err(e) => {
                        return Err(e);
                    },
                }
            } else if head.fourcc.0 == MEDIA {
                match Mdia::find(content, head.size()) {
                    Ok(v) => {
                        trak.mdia = Some(v);
                    },
                    Err(e) => {
                        return Err(e);
                    },
                }
            } else {
                match content.skip(head.content_len()) {
                    Ok(_) => {},
                    Err(e) => {
                        return Err(e);
                    },
                }
            }
        }
        Ok(trak)
    }

    /// The size of the atom.
    pub fn size(&self) -> (r: Size)
        requires
            self@.writable(),
        ensures
            r == Size::of(self@.content_bytes().len() as int),
            r.len == self@.bytes().len(),
    {
        proof {
            reveal(TrakView::bytes);
        }
        let mut n: u64 = 0;
        match &self.tkhd {
            Some(a) => {
                n = n + a.len();
            },
            None => {},
        }
        match &self.tref {
            Some(a) => {
                n = n + a.len();
            },
            None => {},
        }
        match &self.mdia {
            Some(a) => {
                proof {
                    reveal(MdiaView::bytes); lemma_boxed_len(Ident(MEDIA), a@.content_bytes());
                }
                n = n + a.len();
            },
            None => {},
        }
        Size::from(n)
    }

    /// The length of the atom in bytes.
    pub fn len(&self) -> (r: u64)
        requires
            self@.writable(),
        ensures
            r == self@.bytes().len(),
    {
        self.size().len()
    }

    /// Writes the atom.
    pub fn write(&self, out: &mut Vec<u8>)
        requires
            self@.writable(),
        ensures
            final(out)@ == old(out)@ + self@.bytes(),
    {
        proof {
            reveal(TrakView::bytes);
        }
        let mut body: Vec<u8> = Vec::new();
        match &self.tkhd {
            Some(a) => {
                a.write(&mut body);
            },
            None => {},
        }
        match &self.tref {
            Some(a) => {
                a.write(&mut body);
            },
            None => {},
        }
        match &self.mdia {
            Some(a) => {
                proof {
                    reveal(MdiaView::bytes); lemma_boxed_len(Ident(MEDIA), a@.content_bytes());
                }
                a.write(&mut body);
            },
            None => {},
        }
        assert(body@ =~= self@.content_bytes());
        write_boxed(out, Ident(TRACK), &body);
    }
}

impl TrakView {
    /// What is needed of the atoms that it holds for the atom to be read
    /// back from its bytes, where its content starts at position `cp` of the
    /// file.
    pub open spec fn content_readable_at(self, cp: int) -> bool {
        &&& self.mdia is Some
            ==> self.mdia->0.readable_at(cp + self.tkhd_bytes().len() + self.tref_bytes().len())
    }

    /// The atom can be read back from its bytes, where they stand at
    /// position `pos` of the file: it can be written, and the positions
    /// that it names are those at which it is written.
    pub open spec fn readable_at(self, pos: int) -> bool {
        &&& self.writable()
        &&& self.content_readable_at(
            pos + Size::of(self.content_bytes().len() as int).spec_head_len(),
        )
    }

    /// The bytes of the track header, if there is one.
    pub open spec fn tkhd_bytes(self) -> Seq<u8> {
        match self.tkhd {
            Some(x) => x.bytes(),
            None => Seq::empty(),
        }
    }

    /// The bytes of the track reference, if there is one.
    pub open spec fn tref_bytes(self) -> Seq<u8> {
        match self.tref {
            Some(x) => Tref::bytes(x),
            None => Seq::empty(),
        }
    }

    /// The bytes of the media, if there is one.
    pub open spec fn mdia_bytes(self) -> Seq<u8> {
        match self.mdia {
            Some(x) => x.bytes(),
            None => Seq::empty(),
        }
    }
}

/// Reading a track atom back from the content that is written of it gives
/// the atom.
pub proof fn lemma_trak_decode(v: TrakView, base: int)
    requires
        v.writable(),
        v.content_readable_at(base),
    ensures
        Trak::decode(v.content_bytes(), base, ReadConfig::spec_all())
            == Ok::<TrakView, ErrorView>(v),
{
    let c = v.content_bytes();
    let cfg = ReadConfig::spec_all();
    assert(c == v.tkhd_bytes() + v.tref_bytes() + v.mdia_bytes());
    let acc0 = TrakView::none();
    let at0: int = 0;
    let at1: int = at0 + v.tkhd_bytes().len();
    let acc1 = TrakView { tkhd: v.tkhd, ..acc0 };
    if v.tkhd is Some {
        let x = v.tkhd->0;
        assert(c.subrange(at0, at1) =~= v.tkhd_bytes());
        crate::atom::tkhd::lemma_tkhd_round_trip(c, at0, x);
        assert(trak_parts(c, at0, base, cfg, acc0) == trak_parts(c, at1, base, cfg, acc1));
    } else {
        assert(acc1 == acc0);
    }
    let at2: int = at1 + v.tref_bytes().len();
    let acc2 = TrakView { tref: v.tref, ..acc1 };
    if v.tref is Some {
        let x = v.tref->0;
        assert(c.subrange(at1, at2) =~= v.tref_bytes());
        crate::atom::tref::lemma_tref_round_trip(c, at1, x);
        assert(trak_parts(c, at1, base, cfg, acc1) == trak_parts(c, at2, base, cfg, acc2));
    } else {
        assert(acc2 == acc1);
    }
    let at3: int = at2 + v.mdia_bytes().len();
    let acc3 = TrakView { mdia: v.mdia, ..acc2 };
    if v.mdia is Some {
        let x = v.mdia->0;
        assert(c.subrange(at2, at3) =~= v.mdia_bytes());
        crate::atom::mdia::lemma_mdia_round_trip(c, at2, base, x);
        assert(trak_parts(c, at2, base, cfg, acc2) == trak_parts(c, at3, base, cfg, acc3));
    } else {
        assert(acc3 == acc2);
    }
    assert(acc3 == v);
    assert(at3 == c.len());
}

/// Reading a track atom back from where its bytes stand gives the atom.
pub proof fn lemma_trak_round_trip(c: Seq<u8>, p: int, base: int, v: TrakView)
    requires
        0 <= p,
        v.readable_at(base + p),
        p + v.bytes().len() <= c.len(),
        c.subrange(p, p + v.bytes().len()) == v.bytes(),
    ensures
        stands_at(c, p, Ident(TRACK), v.bytes().len() as int),
        Trak::parsed(c, content_at(c, p), base, ReadConfig::spec_all(), size_at(c, p)) == Ok::<
            TrakView,
            ErrorView,
        >(v),
{
    reveal(Trak::parsed);
    reveal(TrakView::bytes);
    lemma_boxed_child(c, p, Ident(TRACK), v.content_bytes());
    lemma_trak_decode(v, base + content_at(c, p));
}

/// Whether the atoms that a track atom holds can be found does not hang on
/// where the atom lies in the file.
pub proof fn lemma_trak_found_anywhere(
    c: Seq<u8>,
    p: int,
    base: int,
    acc: TrakBounds,
    other_base: int,
    other_acc: TrakBounds,
)
    requires
        0 <= p,
        trak_found(c, p, base, acc) is Ok,
    ensures
        trak_found(c, p, other_base, other_acc) is Ok,
    decreases c.len() - p,
{
    reveal(found_at);
    if p < c.len() {
        let h = child_at(c, p)->Ok_0;
        let size = h.spec_size();
        let cp = p + size.spec_head_len();
        let next = p + size.len;
        if h.fourcc == Ident(TRACK_HEADER) {
            let b = Tkhd::parsed(c, cp, size)->Ok_0;
            lemma_trak_found_anywhere(
                c,
                next,
                base,
                TrakBounds { tkhd: Some(b), ..acc },
                other_base,
                TrakBounds { tkhd: Some(b), ..other_acc },
            );
        } else if h.fourcc == Ident(TRACK_REFERENCE) {
            let b = found_at(c, cp, base, size, h.fourcc)->Ok_0;
            let o = found_at(c, cp, other_base, size, h.fourcc)->Ok_0;
            lemma_trak_found_anywhere(
                c,
                next,
                base,
                TrakBounds { tref: Some(TrefBounds { bounds: b }), ..acc },
                other_base,
                TrakBounds { tref: Some(TrefBounds { bounds: o }), ..other_acc },
            );
        } else if h.fourcc == Ident(MEDIA) {
            crate::atom::mdia::lemma_mdia_anywhere(c, cp, base, c, cp, other_base, size);
            let b = Mdia::found(c, cp, base, size)->Ok_0;
            let o = Mdia::found(c, cp, other_base, size)->Ok_0;
            lemma_trak_found_anywhere(
                c,
                next,
                base,
                TrakBounds { mdia: Some(b), ..acc },
                other_base,
                TrakBounds { mdia: Some(o), ..other_acc },
            );
        } else {
            lemma_trak_found_anywhere(c, next, base, acc, other_base, other_acc);
        }
    }
}

/// Whether a track atom and what it holds can be found hangs on its
/// content alone.
pub proof fn lemma_trak_anywhere(
    s: Seq<u8>,
    p: int,
    base: int,
    other: Seq<u8>,
    other_p: int,
    other_base: int,
    size: Size,
)
    requires
        content_of(s, p, size) == content_of(other, other_p, size),
        Trak::found(s, p, base, size) is Ok,
    ensures
        Trak::found(other, other_p, other_base, size) is Ok,
{
    reveal(Trak::found);
    let c = content_of(s, p, size)->0;
    lemma_trak_found_anywhere(
        c,
        0,
        base + p,
        TrakBounds { bounds: bounds_at(base + p, size, Ident(TRACK)), tkhd: None, tref: None, mdia: None },
        other_base + other_p,
        TrakBounds { bounds: bounds_at(other_base + other_p, size, Ident(TRACK)), tkhd: None, tref: None, mdia: None },
    );
}

} // verus!
