//! The media atom (`mdia`).

use crate::atom::base::{boxed, child_at, content_of, fits, next_child, plain_of, read};
use crate::atom::base::{lemma_boxed_len, lemma_child_anchored, view_of, write_boxed, ReadConfig};
use crate::atom::base::{content_at, lemma_boxed_child, size_at, stands_at};
use crate::atom::hdlr::Hdlr;
use crate::atom::mdhd::Mdhd;
use crate::atom::minf::{lemma_minf_nested, Minf, MinfBounds, MinfView};
use crate::error::{annotate, eof, Error, ErrorView};
use crate::head::{bounds_at, find_bounds, AtomBounds, Size};
use crate::ident::{Ident, HANDLER_REFERENCE, MEDIA, MEDIA_HEADER, MEDIA_INFORMATION};
use crate::reader::Reader;
use vstd::prelude::*;

verus! {

/// A media atom: the atoms that it holds.
#[derive(Clone, Debug, Default, PartialEq, Eq)]
pub struct Mdia {
    /// The media header.
    pub mdhd: Option<Mdhd>,
    /// The handler reference.
    pub hdlr: Option<Hdlr>,
    /// The media information.
    pub minf: Option<Minf>,
}

/// The mathematical value of a [`Mdia`].
pub struct MdiaView {
    pub mdhd: Option<Mdhd>,
    pub hdlr: Option<Seq<u8>>,
    pub minf: Option<MinfView>,
}

impl View for Mdia {
    type V = MdiaView;

    open spec fn view(&self) -> MdiaView {
        MdiaView {
            mdhd: self.mdhd,
            hdlr: match self.hdlr {
                Some(x) => Some(x@),
                None => None,
            },
            minf: match self.minf {
                Some(x) => Some(x@),
                None => None,
            },
        }
    }
}

/// Where a media atom and the atoms that it holds lie in the file.
#[derive(Clone, Copy, Debug, PartialEq, Eq, Structural)]
pub struct MdiaBounds {
    /// The bounds of the atom.
    pub bounds: AtomBounds,
    /// Where the media information lies.
    pub minf: Option<MinfBounds>,
}

/// What reading the children of a media atom from position `p` of its
/// content `c`, which starts at position `base` of the file, adds to what
/// was read before. Of several children of one kind the last counts; what
/// the configuration does not ask for is passed over.
pub open spec fn mdia_parts(
    c: Seq<u8>,
    p: int,
    base: int,
    cfg: ReadConfig,
    acc: MdiaView,
) -> Result<MdiaView, ErrorView>
    decreases c.len() - p,
{
    if p >= c.len() {
        Ok(acc)
    } else {
        match child_at(c, p) {
            Err(e) => Err(e),
            Ok(h) => {
                let size = h.spec_size();
                let cp = p + size.spec_head_len();
                let next = p + size.len;
                if h.fourcc == Ident(MEDIA_HEADER) && (cfg.read_chapters) {
                    match Mdhd::parsed(c, cp, size) {
                        Err(e) => Err(e),
                        Ok(v) => mdia_parts(c, next, base, cfg, MdiaView { mdhd: Some(v), ..acc }),
                    }
                } else if h.fourcc == Ident(HANDLER_REFERENCE) && (cfg.read_chapters) {
                    match Hdlr::parsed(c, cp, size) {
                        Err(e) => Err(e),
                        Ok(v) => mdia_parts(c, next, base, cfg, MdiaView { hdlr: Some(v), ..acc }),
                    }
                } else if h.fourcc == Ident(MEDIA_INFORMATION) && (cfg.read_chapters
                    || cfg.read_audio_info) {
                    match Minf::parsed(c, cp, base, cfg, size) {
                        Err(e) => Err(e),
                        Ok(v) => mdia_parts(c, next, base, cfg, MdiaView { minf: Some(v), ..acc }),
                    }
                } else {
                    mdia_parts(c, next, base, cfg, acc)
                }
            },
        }
    }
}

/// What finding the children of a media atom from position `p` of its
/// content `c`, which starts at position `base` of the file, adds to what
/// was found before.
pub open spec fn mdia_found(c: Seq<u8>, p: int, base: int, acc: MdiaBounds) -> Result<
    MdiaBounds,
    ErrorView,
>
    decreases c.len() - p,
{
    if p >= c.len() {
        Ok(acc)
    } else {
        match child_at(c, p) {
            Err(e) => Err(e),
            Ok(h) => {
                let size = h.spec_size();
                let cp = p + size.spec_head_len();
                let next = p + size.len;
                if h.fourcc == Ident(MEDIA_INFORMATION) {
                    match Minf::found(c, cp, base, size) {
                        Err(e) => Err(e),
                        Ok(b) => mdia_found(
                            c,
                            next,
                            base,
                            MdiaBounds { minf: Some(b), ..acc },
                        ),
                    }
                } else {
                    mdia_found(c, next, base, acc)
                }
            },
        }
    }
}

impl MdiaBounds {
    /// What was found fits together and fits the file `f`: the atoms are
    /// atoms of the file, and those that were found in this one lie inside
    /// its content, apart from one another.
    pub open spec fn nested(self, f: Seq<u8>) -> bool {
        &&& self.bounds.anchored(f)
        &&& self.minf is Some ==> self.minf->0.nested(f) && self.bounds.holds(
            self.minf->0.bounds,
        )
    }

    /// What was found ends at or before the position `q` of the file.
    pub open spec fn before(self, q: int) -> bool {
        &&& self.minf is Some ==> self.minf->0.bounds.spec_end() <= q
    }
}

/// What is found in the content of a media atom lies inside it.
pub proof fn lemma_mdia_found_nested(f: Seq<u8>, c: Seq<u8>, p: int, base: int, acc: MdiaBounds)
    requires
        0 <= p,
        0 <= base,
        base + c.len() <= f.len(),
        f.len() <= u64::MAX,
        c == f.subrange(base, base + c.len()),
        acc.nested(f),
        acc.before(base + p),
        acc.bounds.spec_content_pos() <= base,
        acc.bounds.spec_end() == base + c.len(),
    ensures
        mdia_found(c, p, base, acc) is Ok ==> mdia_found(c, p, base, acc)->Ok_0.nested(f)
            && mdia_found(c, p, base, acc)->Ok_0.bounds == acc.bounds,
    decreases c.len() - p,
{
    if p < c.len() {
        match child_at(c, p) {
            Err(_) => {},
            Ok(h) => {
                lemma_child_anchored(f, c, base, p);
                let size = h.spec_size();
                let cp = p + size.spec_head_len();
                let next = p + size.len;
                if h.fourcc == Ident(MEDIA_INFORMATION) {
                    lemma_minf_nested(f, c, cp, base, size);
                    match Minf::found(c, cp, base, size) {
                        Err(_) => {},
                        Ok(b) => {
                            lemma_mdia_found_nested(
                                f,
                                c,
                                next,
                                base,
                                MdiaBounds { minf: Some(b), ..acc },
                            );
                        },
                    }
                } else {
                    lemma_mdia_found_nested(f, c, next, base, acc);
                }
            },
        }
    }
}

/// A media atom that is found in the stream `s`, which is the part of
/// the file `f` from position `base` on, has the bounds that its head
/// gives, and what is found in it lies inside it.
pub proof fn lemma_mdia_nested(f: Seq<u8>, s: Seq<u8>, p: int, base: int, size: Size)
    requires
        0 <= p,
        0 <= base,
        base + s.len() <= f.len(),
        f.len() <= u64::MAX,
        s == f.subrange(base, base + s.len()),
        bounds_at(base + p, size, Ident(MEDIA)).anchored(f),
        base + p >= size.spec_head_len(),
    ensures
        Mdia::found(s, p, base, size) is Ok ==> Mdia::found(s, p, base, size)->Ok_0.nested(f)
            && Mdia::found(s, p, base, size)->Ok_0.bounds == bounds_at(
            base + p,
            size,
            Ident(MEDIA),
        ),
{
    reveal(Mdia::found);
    match content_of(s, p, size) {
        None => {},
        Some(c) => {
            let init = MdiaBounds { bounds: bounds_at(base + p, size, Ident(MEDIA)), minf: None };
            assert(c =~= f.subrange(base + p, base + p + c.len()));
            lemma_mdia_found_nested(f, c, 0, base + p, init);
        },
    }
}

impl MdiaView {
    /// The media of which nothing is known.
    pub open spec fn none() -> MdiaView {
        MdiaView { mdhd: None, hdlr: None, minf: None }
    }

    /// The content of the atom: the atoms that it holds, in the order of
    /// the fields.
    pub open spec fn content_bytes(self) -> Seq<u8> {
        (match self.mdhd {
            Some(x) => x.bytes(),
            None => Seq::empty(),
        }) + (match self.hdlr {
            Some(x) => Hdlr::bytes(x),
            None => Seq::empty(),
        }) + (match self.minf {
            Some(x) => x.bytes(),
            None => Seq::empty(),
        })
    }

    /// The bytes of the atom.
    #[verifier::opaque]
    pub open spec fn bytes(self) -> Seq<u8> {
        boxed(Ident(MEDIA), self.content_bytes())
    }

    /// The atom can be written: the atoms that it holds can, and its length
    /// is a number of 64 bits.
    pub open spec fn writable(self) -> bool {
        &&& fits(self.content_bytes().len() as int)
        &&& self.hdlr is Some ==> fits(self.hdlr->0.len() as int)
        &&& self.minf is Some ==> self.minf->0.writable()
    }
}

impl Mdia {
    /// What the content `c` of a media atom says, which starts at position
    /// `base` of the file.
    pub open spec fn decode(c: Seq<u8>, base: int, cfg: ReadConfig) -> Result<
        MdiaView,
        ErrorView,
    > {
        mdia_parts(c, 0, base, cfg, MdiaView::none())
    }

    /// What reading a media atom gives whose content starts at position `p`
    /// of the stream `s`, which starts at position `base` of the file.
    #[verifier::opaque]
    pub open spec fn parsed(s: Seq<u8>, p: int, base: int, cfg: ReadConfig, size: Size) -> Result<
        MdiaView,
        ErrorView,
    > {
        annotate(
            "parsing",
            Ident(MEDIA),
            match content_of(s, p, size) {
                None => Err(eof()),
                Some(c) => Mdia::decode(c, base + p, cfg),
            },
        )
    }

    /// Where the media atom lies whose content `c` starts at position
    /// `base` of the file, and where the atoms lie that it holds.
    pub open spec fn locate(c: Seq<u8>, base: int, size: Size) -> Result<MdiaBounds, ErrorView> {
        mdia_found(
            c,
            0,
            base,
            MdiaBounds { bounds: bounds_at(base, size, Ident(MEDIA)), minf: None },
        )
    }

    /// What finding a media atom gives whose content starts at position `p`
    /// of the stream `s`, which starts at position `base` of the file.
    #[verifier::opaque]
    pub open spec fn found(s: Seq<u8>, p: int, base: int, size: Size) -> Result<
        MdiaBounds,
        ErrorView,
    > {
        annotate(
            "parsing",
            Ident(MEDIA),
            match content_of(s, p, size) {
                None => Err(eof()),
                Some(c) => Mdia::locate(c, base + p, size),
            },
        )
    }

    /// Reads a media atom: the cursor stands behind its head, which
    /// declared the size `size`.
    pub fn parse(reader: &mut Reader, cfg: &ReadConfig, size: Size) -> (r: Result<Mdia, Error>)
        requires
            old(reader).wf(),
            size.wf(),
        ensures
            read(
                Mdia::parsed(
                    old(reader).data@,
                    old(reader).pos as int,
                    old(reader).base as int,
                    *cfg,
                    size,
                ),
                view_of(r),
                old(reader),
                final(reader),
                size.spec_content_len(),
            ),
    {
        proof {
            reveal(Mdia::parsed);
        }
        let mut content = match reader.take(size.content_len()) {
            Ok(c) => c,
            Err(e) => {
                return Err(e.annotate("parsing", Ident(MEDIA)));
            },
        };
        match Mdia::parse_atom(&mut content, cfg) {
            Ok(v) => Ok(v),
            Err(e) => Err(e.annotate("parsing", Ident(MEDIA))),
        }
    }

    /// Reads the content of a media atom, which the cursor is over.
    pub fn parse_atom(content: &mut Reader, cfg: &ReadConfig) -> (r: Result<Mdia, Error>)
        requires
            old(content).wf(),
            old(content).pos == 0,
        ensures
            view_of(r) == Mdia::decode(old(content).data@, old(content).base as int, *cfg),
            final(content).same_stream(old(content)),
    {
        let ghost c = content.data@;
        let ghost base = content.base as int;
        let mut mdia = Mdia { mdhd: None, hdlr: None, minf: None };
        while content.remaining() > 0
            invariant
                content.same_stream(old(content)),
                c == content.data@,
                base == content.base,
                mdia_parts(c, content.pos as int, base, *cfg, mdia@) == Mdia::decode(c, base, *cfg),
            decreases content.left(),
        {
            let head = match next_child(content) {
                Ok(h) => h,
                Err(e) => {
                    return Err(e);
                },
            };
            if head.fourcc.0 == MEDIA_HEADER && (cfg.read_chapters) {
                match Mdhd::parse(content, cfg, head.size()) {
                    Ok(v) => {
                        mdia.mdhd = Some(v);
                    },
                    Err(e) => {
                        return Err(e);
                    },
                }
            } else if head.fourcc.0 == HANDLER_REFERENCE && (cfg.read_chapters) {
                match Hdlr::parse(content, cfg, head.size()) {
                    Ok(v) => {
                        mdia.hdlr = Some(v);
                    },
                    Err(e) => {
                        return Err(e);
                    },
                }
            } else if head.fourcc.0 == MEDIA_INFORMATION && (cfg.read_chapters
                || cfg.read_audio_info) {
                match Minf::parse(content, cfg, head.size()) {
                    Ok(v) => {
                        mdia.minf = Some(v);
                    },
                    Err(e) => {
                        return Err(e);
                    },
                }
            } else {
                match content.skip(head.content_len()) {
                    Ok(_) => {},
                    Err(e) => {
                        return Err(e);
                    },
                }
            }
        }
        Ok(mdia)
    }

    /// Finds where a media atom and the atoms that it holds lie: the
    /// cursor stands behind its head, which declared the size `size`.
    pub fn find(reader: &mut Reader, size: Size) -> (r: Result<MdiaBounds, Error>)
        requires
            old(reader).wf(),
            size.wf(),
            old(reader).abs() >= size.spec_head_len(),
        ensures
            read(
                Mdia::found(
                    old(reader).data@,
                    old(reader).pos as int,
                    old(reader).base as int,
                    size,
                ),
                plain_of(r),
                old(reader),
                final(reader),
                size.spec_content_len(),
            ),
    {
        proof {
            reveal(Mdia::found);
        }
        let mut content = match reader.take(size.content_len()) {
            Ok(c) => c,
            Err(e) => {
                return Err(e.annotate("parsing", Ident(MEDIA)));
            },
        };
        match Mdia::find_atom(&mut content, size) {
            Ok(v) => Ok(v),
            Err(e) => Err(e.annotate("parsing", Ident(MEDIA))),
        }
    }

    /// Finds what the content of a media atom holds, which the cursor is
    /// over.
    pub fn find_atom(content: &mut Reader, size: Size) -> (r: Result<MdiaBounds, Error>)
        requires
            old(content).wf(),
            old(content).pos == 0,
            size.wf(),
            old(content).base >= size.spec_head_len(),
            old(content).data@.len() == size.spec_content_len(),
        ensures
            plain_of(r) == Mdia::locate(old(content).data@, old(content).base as int, size),
            final(content).same_stream(old(content)),
    {
        let ghost c = content.data@;
        let ghost base = content.base as int;
        let bounds = find_bounds(content, size, Ident(MEDIA));
        let mut mdia = MdiaBounds { bounds, minf: None };
        while content.remaining() > 0
            invariant
                content.same_stream(old(content)),
                c == content.data@,
                base == content.base,
                mdia_found(c, content.pos as int, base, mdia) == Mdia::locate(c, base, size),
            decreases content.left(),
        {
            let head = match next_child(content) {
                Ok(h) => h,
                Err(e) => {
                    return Err(e);
                },
            };
            if head.fourcc.0 == MEDIA_INFORMATION {
                match Minf::find(content, head.size()) {
                    Ok(v) => {
                        mdia.minf = Some(v);
                    },
                    Err(e) => {
                        return Err(e);
                    },
                }
            } else {
                match content.skip(head.content_len()) {
                    Ok(_) => {},
                    Err(e) => {
                        return Err(e);
                    },
                }
            }
        }
        Ok(mdia)
    }

    /// The size of the atom.
    pub fn size(&self) -> (r: Size)
        requires
            self@.writable(),
        ensures
            r == Size::of(self@.content_bytes().len() as int),
            r.len == self@.bytes().len(),
    {
        proof {
            reveal(MdiaView::bytes);
        }
        let mut n: u64 = 0;
        match &self.mdhd {
            Some(a) => {
                n = n + a.len();
            },
            None => {},
        }
        match &self.hdlr {
            Some(a) => {
                n = n + a.len();
            },
            None => {},
        }
        match &self.minf {
            Some(a) => {
                proof {
                    reveal(MinfView::bytes); lemma_boxed_len(Ident(MEDIA_INFORMATION), a@.content_bytes());
                }
                n = n + a.len();
            },
            None => {},
        }
        Size::from(n)
    }

    /// The length of the atom in bytes.
    pub fn len(&self) -> (r: u64)
        requires
            self@.writable(),
        ensures
            r == self@.bytes().len(),
    {
        self.size().len()
    }

    /// Writes the atom.
    pub fn write(&self, out: &mut Vec<u8>)
        requires
            self@.writable(),
        ensures
            final(out)@ == old(out)@ + self@.bytes(),
    {
        proof {
            reveal(MdiaView::bytes);
        }
        let mut body: Vec<u8> = Vec::new();
        match &self.mdhd {
            Some(a) => {
                a.write(&mut body);
            },
            None => {},
        }
        match &self.hdlr {
            Some(a) => {
                a.write(&mut body);
            },
            None => {},
        }
        match &self.minf {
            Some(a) => {
                proof {
                    reveal(MinfView::bytes); lemma_boxed_len(Ident(MEDIA_INFORMATION), a@.content_bytes());
                }
                a.write(&mut body);
            },
            None => {},
        }
        assert(body@ =~= self@.content_bytes());
        write_boxed(out, Ident(MEDIA), &body);
    }
}

impl MdiaView {
    /// What is needed of the atoms that it holds for the atom to be read
    /// back from its bytes, where its content starts at position `cp` of the
    /// file.
    pub open spec fn content_readable_at(self, cp: int) -> bool {
        &&& self.minf is Some
            ==> self.minf->0.readable_at(cp + self.mdhd_bytes().len() + self.hdlr_bytes().len())
    }

    /// The atom can be read back from its bytes, where they stand at
    /// position `pos` of the file: it can be written, and the positions
    /// that it names are those at which it is written.
    pub open spec fn readable_at(self, pos: int) -> bool {
        &&& self.writable()
        &&& self.content_readable_at(
            pos + Size::of(self.content_bytes().len() as int).spec_head_len(),
        )
    }

    /// The bytes of the media header, if there is one.
    pub open spec fn mdhd_bytes(self) -> Seq<u8> {
        match self.mdhd {
            Some(x) => x.bytes(),
            None => Seq::empty(),
        }
    }

    /// The bytes of the handler reference, if there is one.
    pub open spec fn hdlr_bytes(self) -> Seq<u8> {
        match self.hdlr {
            Some(x) => Hdlr::bytes(x),
            None => Seq::empty(),
        }
    }

    /// The bytes of the media information, if there is one.
    pub open spec fn minf_bytes(self) -> Seq<u8> {
        match self.minf {
            Some(x) => x.bytes(),
            None => Seq::empty(),
        }
    }
}

/// Reading a media atom back from the content that is written of it gives
/// the atom.
pub proof fn lemma_mdia_decode(v: MdiaView, base: int)
    requires
        v.writable(),
        v.content_readable_at(base),
    ensures
        Mdia::decode(v.content_bytes(), base, ReadConfig::spec_all())
            == Ok::<MdiaView, ErrorView>(v),
{
    let c = v.content_bytes();
    let cfg = ReadConfig::spec_all();
    assert(c == v.mdhd_bytes() + v.hdlr_bytes() + v.minf_bytes());
    let acc0 = MdiaView::none();
    let at0: int = 0;
    let at1: int = at0 + v.mdhd_bytes().len();
    let acc1 = MdiaView { mdhd: v.mdhd, ..acc0 };
    if v.mdhd is Some {
        let x = v.mdhd->0;
        assert(c.subrange(at0, at1) =~= v.mdhd_bytes());
        crate::atom::mdhd::lemma_mdhd_round_trip(c, at0, x);
        assert(mdia_parts(c, at0, base, cfg, acc0) == mdia_parts(c, at1, base, cfg, acc1));
    } else {
        assert(acc1 == acc0);
    }
    let at2: int = at1 + v.hdlr_bytes().len();
    let acc2 = MdiaView { hdlr: v.hdlr, ..acc1 };
    if v.hdlr is Some {
        let x = v.hdlr->0;
        assert(c.subrange(at1, at2) =~= v.hdlr_bytes());
        Hdlr::lemma_atom_round_trip(c, at1, x);
        assert(mdia_parts(c, at1, base, cfg, acc1) == mdia_parts(c, at2, base, cfg, acc2));
    } else {
        assert(acc2 == acc1);
    }
    let at3: int = at2 + v.minf_bytes().len();
    let acc3 = MdiaView { minf: v.minf, ..acc2 };
    if v.minf is Some {
        let x = v.minf->0;
        assert(c.subrange(at2, at3) =~= v.minf_bytes());
        crate::atom::minf::lemma_minf_round_trip(c, at2, base, x);
        assert(mdia_parts(c, at2, base, cfg, acc2) == mdia_parts(c, at3, base, cfg, acc3));
    } else {
        assert(acc3 == acc2);
    }
    assert(acc3 == v);
    assert(at3 == c.len());
}

/// Reading a media atom back from where its bytes stand gives the atom.
pub proof fn lemma_mdia_round_trip(c: Seq<u8>, p: int, base: int, v: MdiaView)
    requires
        0 <= p,
        v.readable_at(base + p),
        p + v.bytes().len() <= c.len(),
        c.subrange(p, p + v.bytes().len()) == v.bytes(),
    ensures
        stands_at(c, p, Ident(MEDIA), v.bytes().len() as int),
        Mdia::parsed(c, content_at(c, p), base, ReadConfig::spec_all(), size_at(c, p)) == Ok::<
            MdiaView,
            ErrorView,
        >(v),
{
    reveal(Mdia::parsed);
    reveal(MdiaView::bytes);
    lemma_boxed_child(c, p, Ident(MEDIA), v.content_bytes());
    lemma_mdia_decode(v, base + content_at(c, p));
}

/// Whether the atoms that a media atom holds can be found does not hang on
/// where the atom lies in the file.
pub proof fn lemma_mdia_found_anywhere(
    c: Seq<u8>,
    p: int,
    base: int,
    acc: MdiaBounds,
    other_base: int,
    other_acc: MdiaBounds,
)
    requires
        0 <= p,
        mdia_found(c, p, base, acc) is Ok,
    ensures
        mdia_found(c, p, other_base, other_acc) is Ok,
    decreases c.len() - p,
{
    if p < c.len() {
        let h = child_at(c, p)->Ok_0;
        let size = h.spec_size();
        let cp = p + size.spec_head_len();
        let next = p + size.len;
        if h.fourcc == Ident(MEDIA_INFORMATION) {
            crate::atom::minf::lemma_minf_anywhere(c, cp, base, c, cp, other_base, size);
            let b = Minf::found(c, cp, base, size)->Ok_0;
            let o = Minf::found(c, cp, other_base, size)->Ok_0;
            lemma_mdia_found_anywhere(
                c,
                next,
                base,
                MdiaBounds { minf: Some(b), ..acc },
                other_base,
                MdiaBounds { minf: Some(o), ..other_acc },
            );
        } else {
            lemma_mdia_found_anywhere(c, next, base, acc, other_base, other_acc);
        }
    }
}

/// Whether a media atom and what it holds can be found hangs on its
/// content alone.
pub proof fn lemma_mdia_anywhere(
    s: Seq<u8>,
    p: int,
    base: int,
    other: Seq<u8>,
    other_p: int,
    other_base: int,
    size: Size,
)
    requires
        content_of(s, p, size) == content_of(other, other_p, size),
        Mdia::found(s, p, base, size) is Ok,
    ensures
        Mdia::found(other, other_p, other_base, size) is Ok,
{
    reveal(Mdia::found);
    let c = content_of(s, p, size)->0;
    lemma_mdia_found_anywhere(
        c,
        0,
        base + p,
        MdiaBounds { bounds: bounds_at(base + p, size, Ident(MEDIA)), minf: None },
        other_base + other_p,
        MdiaBounds { bounds: bounds_at(other_base + other_p, size, Ident(MEDIA)), minf: None },
    );
}

} // verus!
