//! The sample table atom (`stbl`).

use crate::atom::base::{boxed, child_at, content_of, fits, found_at, next_child, plain_of, read};
use crate::atom::base::{lemma_child_anchored, view_of, write_boxed, ReadConfig};
use crate::atom::base::{content_at, lemma_boxed_child, size_at, stands_at};
use crate::atom::co64::{Co64, Co64Bounds, Co64View};
use crate::atom::stco::{Stco, StcoBounds, StcoView};
use crate::atom::stsd::Stsd;
use crate::error::{annotate, eof, Error, ErrorView};
use crate::head::{bounds_at, find_bounds, AtomBounds, Size};
use crate::ident::{Ident, SAMPLE_TABLE, SAMPLE_TABLE_CHUNK_OFFSET, SAMPLE_TABLE_CHUNK_OFFSET_64, SAMPLE_TABLE_SAMPLE_DESCRIPTION};
use crate::reader::Reader;
use vstd::prelude::*;

verus! {

/// A sample table atom: the atoms that it holds.
#[derive(Clone, Debug, Default, PartialEq, Eq)]
pub struct Stbl {
    /// The sample description.
    pub stsd: Option<Stsd>,
    /// The chunk offsets of 32 bits.
    pub stco: Option<Stco>,
    /// The chunk offsets of 64 bits.
    pub co64: Option<Co64>,
}

/// The mathematical value of a [`Stbl`].
pub struct StblView {
    pub stsd: Option<Stsd>,
    pub stco: Option<StcoView>,
    pub co64: Option<Co64View>,
}

impl View for Stbl {
    type V = StblView;

    open spec fn view(&self) -> StblView {
        StblView {
            stsd: self.stsd,
            stco: match self.stco {
                Some(x) => Some(x@),
                None => None,
            },
            co64: match self.co64 {
                Some(x) => Some(x@),
                None => None,
            },
        }
    }
}

/// Where a sample table atom and the atoms that it holds lie in the file.
#[derive(Clone, Copy, Debug, PartialEq, Eq, Structural)]
pub struct StblBounds {
    /// The bounds of the atom.
    pub bounds: AtomBounds,
    /// Where the chunk offsets of 32 bits lies.
    pub stco: Option<StcoBounds>,
    /// Where the chunk offsets of 64 bits lies.
    pub co64: Option<Co64Bounds>,
}

/// What reading the children of a sample table atom from position `p` of its
/// content `c`, which starts at position `base` of the file, adds to what
/// was read before. Of several children of one kind the last counts; what
/// the configuration does not ask for is passed over.
pub open spec fn stbl_parts(
    c: Seq<u8>,
    p: int,
    base: int,
    cfg: ReadConfig,
    acc: StblView,
) -> Result<StblView, ErrorView>
    decreases c.len() - p,
{
    if p >= c.len() {
        Ok(acc)
    } else {
        match child_at(c, p) {
            Err(e) => Err(e),
            Ok(h) => {
                let size = h.spec_size();
                let cp = p + size.spec_head_len();
                let next = p + size.len;
                if h.fourcc == Ident(SAMPLE_TABLE_SAMPLE_DESCRIPTION) && (cfg.read_audio_info) {
                    match Stsd::parsed(c, cp, size) {
                        Err(e) => Err(e),
                        Ok(v) => stbl_parts(c, next, base, cfg, StblView { stsd: Some(v), ..acc }),
                    }
                } else if h.fourcc == Ident(SAMPLE_TABLE_CHUNK_OFFSET) && (cfg.read_chapters) {
                    match Stco::parsed(c, cp, base, size) {
                        Err(e) => Err(e),
                        Ok(v) => stbl_parts(c, next, base, cfg, StblView { stco: Some(v), ..acc }),
                    }
                } else if h.fourcc == Ident(SAMPLE_TABLE_CHUNK_OFFSET_64) && (cfg.read_chapters) {
                    match Co64::parsed(c, cp, base, size) {
                        Err(e) => Err(e),
                        Ok(v) => stbl_parts(c, next, base, cfg, StblView { co64: Some(v), ..acc }),
                    }
                } else {
                    stbl_parts(c, next, base, cfg, acc)
                }
            },
        }
    }
}

/// What finding the children of a sample table atom from position `p` of its
/// content `c`, which starts at position `base` of the file, adds to what
/// was found before.
pub open spec fn stbl_found(c: Seq<u8>, p: int, base: int, acc: StblBounds) -> Result<
    StblBounds,
    ErrorView,
>
    decreases c.len() - p,
{
    if p >= c.len() {
        Ok(acc)
    } else {
        match child_at(c, p) {
            Err(e) => Err(e),
            Ok(h) => {
                let size = h.spec_size();
                let cp = p + size.spec_head_len();
                let next = p + size.len;
                if h.fourcc == Ident(SAMPLE_TABLE_CHUNK_OFFSET) {
                    match found_at(c, cp, base, size, h.fourcc) {
                        Err(e) => Err(e),
                        Ok(b) => stbl_found(
                            c,
                            next,
                            base,
                            StblBounds { stco: Some(StcoBounds { bounds: b }), ..acc },
                        ),
                    }
                } else if h.fourcc == Ident(SAMPLE_TABLE_CHUNK_OFFSET_64) {
                    match found_at(c, cp, base, size, h.fourcc) {
                        Err(e) => Err(e),
                        Ok(b) => stbl_found(
                            c,
                            next,
                            base,
                            StblBounds { co64: Some(Co64Bounds { bounds: b }), ..acc },
                        ),
                    }
                } else {
                    stbl_found(c, next, base, acc)
                }
            },
        }
    }
}

impl StblBounds {
    /// What was found fits together and fits the file `f`: the atoms are
    /// atoms of the file, and those that were found in this one lie inside
    /// its content, apart from one another.
    pub open spec fn nested(self, f: Seq<u8>) -> bool {
        &&& self.bounds.anchored(f)
        &&& self.stco is Some ==> self.stco->0.bounds.anchored(f) && self.bounds.holds(
            self.stco->0.bounds,
        )
        &&& self.co64 is Some ==> self.co64->0.bounds.anchored(f) && self.bounds.holds(
            self.co64->0.bounds,
        )
        &&& self.stco is Some && self.co64 is Some ==> self.stco->0.bounds.apart(
            self.co64->0.bounds,
        )
    }

    /// What was found ends at or before the position `q` of the file.
    pub open spec fn before(self, q: int) -> bool {
        &&& self.stco is Some ==> self.stco->0.bounds.spec_end() <= q
        &&& self.co64 is Some ==> self.co64->0.bounds.spec_end() <= q
    }
}

/// What is found in the content of a sample table atom lies inside it.
pub proof fn lemma_stbl_found_nested(f: Seq<u8>, c: Seq<u8>, p: int, base: int, acc: StblBounds)
    requires
        0 <= p,
        0 <= base,
        base + c.len() <= f.len(),
        f.len() <= u64::MAX,
        c == f.subrange(base, base + c.len()),
        acc.nested(f),
        acc.before(base + p),
        acc.bounds.spec_content_pos() <= base,
        acc.bounds.spec_end() == base + c.len(),
    ensures
        stbl_found(c, p, base, acc) is Ok ==> stbl_found(c, p, base, acc)->Ok_0.nested(f)
            && stbl_found(c, p, base, acc)->Ok_0.bounds == acc.bounds,
    decreases c.len() - p,
{
    reveal(found_at);
    if p < c.len() {
        match child_at(c, p) {
            Err(_) => {},
            Ok(h) => {
                lemma_child_anchored(f, c, base, p);
                let size = h.spec_size();
                let cp = p + size.spec_head_len();
                let next = p + size.len;
                if h.fourcc == Ident(SAMPLE_TABLE_CHUNK_OFFSET) {
                    match found_at(c, cp, base, size, h.fourcc) {
                        Err(_) => {},
                        Ok(b) => {
                            lemma_stbl_found_nested(
                                f,
                                c,
                                next,
                                base,
                                StblBounds { stco: Some(StcoBounds { bounds: b }), ..acc },
                            );
                        },
                    }
                } else if h.fourcc == Ident(SAMPLE_TABLE_CHUNK_OFFSET_64) {
                    match found_at(c, cp, base, size, h.fourcc) {
                        Err(_) => {},
                        Ok(b) => {
                            lemma_stbl_found_nested(
                                f,
                                c,
                                next,
                                base,
                                StblBounds { co64: Some(Co64Bounds { bounds: b }), ..acc },
                            );
                        },
                    }
                } else {
                    lemma_stbl_found_nested(f, c, next, base, acc);
                }
            },
        }
    }
}

/// A sample table atom that is found in the stream `s`, which is the part of
/// the file `f` from position `base` on, has the bounds that its head
/// gives, and what is found in it lies inside it.
pub proof fn lemma_stbl_nested(f: Seq<u8>, s: Seq<u8>, p: int, base: int, size: Size)
    requires
        0 <= p,
        0 <= base,
        base + s.len() <= f.len(),
        f.len() <= u64::MAX,
        s == f.subrange(base, base + s.len()),
        bounds_at(base + p, size, Ident(SAMPLE_TABLE)).anchored(f),
        base + p >= size.spec_head_len(),
    ensures
        Stbl::found(s, p, base, size) is Ok ==> Stbl::found(s, p, base, size)->Ok_0.nested(f)
            && Stbl::found(s, p, base, size)->Ok_0.bounds == bounds_at(
            base + p,
            size,
            Ident(SAMPLE_TABLE),
        ),
{
    reveal(Stbl::found);
    match content_of(s, p, size) {
        None => {},
        Some(c) => {
            let init = StblBounds { bounds: bounds_at(base + p, size, Ident(SAMPLE_TABLE)), stco: None, co64: None };
            assert(c =~= f.subrange(base + p, base + p + c.len()));
            lemma_stbl_found_nested(f, c, 0, base + p, init);
        },
    }
}

impl StblView {
    /// The sample table of which nothing is known.
    pub open spec fn none() -> StblView {
        StblView { stsd: None, stco: None, co64: None }
    }

    /// The content of the atom: the atoms that it holds, in the order of
    /// the fields.
    pub open spec fn content_bytes(self) -> Seq<u8> {
        (match self.stsd {
            Some(x) => x.bytes(),
            None => Seq::empty(),
        }) + (match self.stco {
            Some(x) => Stco::bytes(x.offsets),
            None => Seq::empty(),
        }) + (match self.co64 {
            Some(x) => Co64::bytes(x.offsets),
            None => Seq::empty(),
        })
    }

    /// The bytes of the atom.
    #[verifier::opaque]
    pub open spec fn bytes(self) -> Seq<u8> {
        boxed(Ident(SAMPLE_TABLE), self.content_bytes())
    }

    /// The atom can be written: the atoms that it holds can, and its length
    /// is a number of 64 bits.
    pub open spec fn writable(self) -> bool {
        &&& fits(self.content_bytes().len() as int)
        &&& self.stsd is Some ==> self.stsd->0.wf()
        &&& self.stco is Some ==> Stco::wf(self.stco->0.offsets)
        &&& self.co64 is Some ==> Co64::wf(self.co64->0.offsets)
    }
}

impl Stbl {
    /// What the content `c` of a sample table atom says, which starts at position
    /// `base` of the file.
    pub open spec fn decode(c: Seq<u8>, base: int, cfg: ReadConfig) -> Result<
        StblView,
        ErrorView,
    > {
        stbl_parts(c, 0, base, cfg, StblView::none())
    }

    /// What reading a sample table atom gives whose content starts at position `p`
    /// of the stream `s`, which starts at position `base` of the file.
    #[verifier::opaque]
    pub open spec fn parsed(s: Seq<u8>, p: int, base: int, cfg: ReadConfig, size: Size) -> Result<
        StblView,
        ErrorView,
    > {
        annotate(
            "parsing",
            Ident(SAMPLE_TABLE),
            match content_of(s, p, size) {
                None => Err(eof()),
                Some(c) => Stbl::decode(c, base + p, cfg),
            },
        )
    }

    /// Where the sample table atom lies whose content `c` starts at position
    /// `base` of the file, and where the atoms lie that it holds.
    pub open spec fn locate(c: Seq<u8>, base: int, size: Size) -> Result<StblBounds, ErrorView> {
        stbl_found(
            c,
            0,
            base,
            StblBounds { bounds: bounds_at(base, size, Ident(SAMPLE_TABLE)), stco: None, co64: None },
        )
    }

    /// What finding a sample table atom gives whose content starts at position `p`
    /// of the stream `s`, which starts at position `base` of the file.
    #[verifier::opaque]
    pub open spec fn found(s: Seq<u8>, p: int, base: int, size: Size) -> Result<
        StblBounds,
        ErrorView,
    > {
        annotate(
            "parsing",
            Ident(SAMPLE_TABLE),
            match content_of(s, p, size) {
                None => Err(eof()),
                Some(c) => Stbl::locate(c, base + p, size),
            },
        )
    }

    /// Reads a sample table atom: the cursor stands behind its head, which
    /// declared the size `size`.
    pub fn parse(reader: &mut Reader, cfg: &ReadConfig, size: Size) -> (r: Result<Stbl, Error>)
        requires
            old(reader).wf(),
            size.wf(),
        ensures
            read(
                Stbl::parsed(
                    old(reader).data@,
                    old(reader).pos as int,
                    old(reader).base as int,
                    *cfg,
                    size,
                ),
                view_of(r),
                old(reader),
                final(reader),
                size.spec_content_len(),
            ),
    {
        proof {
            reveal(Stbl::parsed);
        }
        let mut content = match reader.take(size.content_len()) {
            Ok(c) => c,
            Err(e) => {
                return Err(e.annotate("parsing", Ident(SAMPLE_TABLE)));
            },
        };
        match Stbl::parse_atom(&mut content, cfg) {
            Ok(v) => Ok(v),
            Err(e) => Err(e.annotate("parsing", Ident(SAMPLE_TABLE))),
        }
    }

    /// Reads the content of a sample table atom, which the cursor is over.
    pub fn parse_atom(content: &mut Reader, cfg: &ReadConfig) -> (r: Result<Stbl, Error>)
        requires
            old(content).wf(),
            old(content).pos == 0,
        ensures
            view_of(r) == Stbl::decode(old(content).data@, old(content).base as int, *cfg),
            final(content).same_stream(old(content)),
    {
        let ghost c = content.data@;
        let ghost base = content.base as int;
        let mut stbl = Stbl { stsd: None, stco: None, co64: None };
        while content.remaining() > 0
            invariant
                content.same_stream(old(content)),
                c == content.data@,
                base == content.base,
                stbl_parts(c, content.pos as int, base, *cfg, stbl@) == Stbl::decode(c, base, *cfg),
            decreases content.left(),
        {
            let head = match next_child(content) {
                Ok(h) => h,
                Err(e) => {
                    return Err(e);
                },
            };
            if head.fourcc.0 == SAMPLE_TABLE_SAMPLE_DESCRIPTION && (cfg.read_audio_info) {
                match Stsd::parse(content, cfg, head.size()) {
                    Ok(v) => {
                        stbl.stsd = Some(v);
                    },
                    Err(e) => {
                        return Err(e);
                    },
                }
            } else if head.fourcc.0 == SAMPLE_TABLE_CHUNK_OFFSET && (cfg.read_chapters) {
                match Stco::parse(content, cfg, head.size()) {
                    Ok(v) => {
                        stbl.stco = Some(v);
                    },
                    Err(e) => {
                        return Err(e);
                    },
                }
            } else if head.fourcc.0 == SAMPLE_TABLE_CHUNK_OFFSET_64 && (cfg.read_chapters) {
                match Co64::parse(content, cfg, head.size()) {
                    Ok(v) => {
                        stbl.co64 = Some(v);
                    },
                    Err(e) => {
                        return Err(e);
                    },
                }
            } else {
                match content.skip(head.content_len()) {
                    Ok(_) => {},
                    Err(e) => {
                        return Err(e);
                    },
                }
            }
        }
        Ok(stbl)
    }

    /// Finds where a sample table atom and the atoms that it holds lie: the
    /// cursor stands behind its head, which declared the size `size`.
    pub fn find(reader: &mut Reader, size: Size) -> (r: Result<StblBounds, Error>)
        requires
            old(reader).wf(),
            size.wf(),
            old(reader).abs() >= size.spec_head_len(),
        ensures
            read(
                Stbl::found(
                    old(reader).data@,
                    old(reader).pos as int,
                    old(reader).base as int,
                    size,
                ),
                plain_of(r),
                old(reader),
                final(reader),
                size.spec_content_len(),
            ),
    {
        proof {
            reveal(Stbl::found);
        }
        let mut content = match reader.take(size.content_len()) {
            Ok(c) => c,
            Err(e) => {
                return Err(e.annotate("parsing", Ident(SAMPLE_TABLE)));
            },
        };
        match Stbl::find_atom(&mut content, size) {
            Ok(v) => Ok(v),
            Err(e) => Err(e.annotate("parsing", Ident(SAMPLE_TABLE))),
        }
    }

    /// Finds what the content of a sample table atom holds, which the cursor is
    /// over.
    pub fn find_atom(content: &mut Reader, size: Size) -> (r: Result<StblBounds, Error>)
        requires
            old(content).wf(),
            old(content).pos == 0,
            size.wf(),
            old(content).base >= size.spec_head_len(),
            old(content).data@.len() == size.spec_content_len(),
        ensures
            plain_of(r) == Stbl::locate(old(content).data@, old(content).base as int, size),
            final(content).same_stream(old(content)),
    {
        let ghost c = content.data@;
        let ghost base = content.base as int;
        let bounds = find_bounds(content, size, Ident(SAMPLE_TABLE));
        let mut stbl = StblBounds { bounds, stco: None, co64: None };
        while content.remaining() > 0
            invariant
                content.same_stream(old(content)),
                c == content.data@,
                base == content.base,
                stbl_found(c, content.pos as int, base, stbl) == Stbl::locate(c, base, size),
            decreases content.left(),
        {
            let head = match next_child(content) {
                Ok(h) => h,
                Err(e) => {
                    return Err(e);
                },
            };
            if head.fourcc.0 == SAMPLE_TABLE_CHUNK_OFFSET {
                match Stco::find(content, head.size()) {
                    Ok(v) => {
                        stbl.stco = Some(v);
                    },
                    Err(e) => {
                        return Err(e);
                    },
                }
            } else if head.fourcc.0 == SAMPLE_TABLE_CHUNK_OFFSET_64 {
                match Co64::find(content, head.size()) {
                    Ok(v) => {
                        stbl.co64 = Some(v);
                    },
                    Err(e) => {
                        return Err(e);
                    },
                }
            } else {
                match content.skip(head.content_len()) {
                    Ok(_) => {},
                    Err(e) => {
                        return Err(e);
                    },
                }
            }
        }
        Ok(stbl)
    }

    /// The size of the atom.
    pub fn size(&self) -> (r: Size)
        requires
            self@.writable(),
        ensures
            r == Size::of(self@.content_bytes().len() as int),
            r.len == self@.bytes().len(),
    {
        proof {
            reveal(StblView::bytes);
        }
        let mut n: u64 = 0;
        match &self.stsd {
            Some(a) => {
                n = n + a.len();
            },
            None => {},
        }
        match &self.stco {
            Some(a) => {
                n = n + a.len();
            },
            None => {},
        }
        match &self.co64 {
            Some(a) => {
                n = n + a.len();
            },
            None => {},
        }
        Size::from(n)
    }

    /// The length of the atom in bytes.
    pub fn len(&self) -> (r: u64)
        requires
            self@.writable(),
        ensures
            r == self@.bytes().len(),
    {
        self.size().len()
    }

    /// Writes the atom.
    pub fn write(&self, out: &mut Vec<u8>)
        requires
            self@.writable(),
        ensures
            final(out)@ == old(out)@ + self@.bytes(),
    {
        proof {
            reveal(StblView::bytes);
        }
        let mut body: Vec<u8> = Vec::new();
        match &self.stsd {
            Some(a) => {
                a.write(&mut body);
            },
            None => {},
        }
        match &self.stco {
            Some(a) => {
                a.write(&mut body);
            },
            None => {},
        }
        match &self.co64 {
            Some(a) => {
                a.write(&mut body);
            },
            None => {},
        }
        assert(body@ =~= self@.content_bytes());
        write_boxed(out, Ident(SAMPLE_TABLE), &body);
    }
}

impl StblView {
    /// What is needed of the atoms that it holds for the atom to be read
    /// back from its bytes, where its content starts at position `cp` of the
    /// file.
    pub open spec fn content_readable_at(self, cp: int) -> bool {
        &&& self.stco is Some
            ==> self.stco->0.table_pos
                == cp + self.stsd_bytes().len()
                    + Size::of(Stco::content_bytes(self.stco->0.offsets).len() as int).spec_head_len()
                        + 8
        &&& self.co64 is Some
            ==> self.co64->0.table_pos
                == cp + self.stsd_bytes().len() + self.stco_bytes().len()
                    + Size::of(Co64::content_bytes(self.co64->0.offsets).len() as int).spec_head_len()
                        + 8
    }

    /// The atom can be read back from its bytes, where they stand at
    /// position `pos` of the file: it can be written, and the positions
    /// that it names are those at which it is written.
    pub open spec fn readable_at(self, pos: int) -> bool {
        &&& self.writable()
        &&& self.content_readable_at(
            pos + Size::of(self.content_bytes().len() as int).spec_head_len(),
        )
    }

    /// The bytes of the sample description, if there is one.
    pub open spec fn stsd_bytes(self) -> Seq<u8> {
        match self.stsd {
            Some(x) => x.bytes(),
            None => Seq::empty(),
        }
    }

    /// The bytes of the chunk offsets of 32 bits, if there is one.
    pub open spec fn stco_bytes(self) -> Seq<u8> {
        match self.stco {
            Some(x) => Stco::bytes(x.offsets),
            None => Seq::empty(),
        }
    }

    /// The bytes of the chunk offsets of 64 bits, if there is one.
    pub open spec fn co64_bytes(self) -> Seq<u8> {
        match self.co64 {
            Some(x) => Co64::bytes(x.offsets),
            None => Seq::empty(),
        }
    }
}

/// Reading a sample table atom back from the content that is written of it gives
/// the atom.
pub proof fn lemma_stbl_decode(v: StblView, base: int)
    requires
        v.writable(),
        v.content_readable_at(base),
    ensures
        Stbl::decode(v.content_bytes(), base, ReadConfig::spec_all())
            == Ok::<StblView, ErrorView>(v),
{
    let c = v.content_bytes();
    let cfg = ReadConfig::spec_all();
    assert(c == v.stsd_bytes() + v.stco_bytes() + v.co64_bytes());
    let acc0 = StblView::none();
    let at0: int = 0;
    let at1: int = at0 + v.stsd_bytes().len();
    let acc1 = StblView { stsd: v.stsd, ..acc0 };
    if v.stsd is Some {
        let x = v.stsd->0;
        assert(c.subrange(at0, at1) =~= v.stsd_bytes());
        crate::atom::stsd::lemma_stsd_round_trip(c, at0, x);
        assert(stbl_parts(c, at0, base, cfg, acc0) == stbl_parts(c, at1, base, cfg, acc1));
    } else {
        assert(acc1 == acc0);
    }
    let at2: int = at1 + v.stco_bytes().len();
    let acc2 = StblView { stco: v.stco, ..acc1 };
    if v.stco is Some {
        let x = v.stco->0;
        assert(c.subrange(at1, at2) =~= v.stco_bytes());
        crate::atom::stco::lemma_stco_round_trip(c, at1, base, x);
        assert(stbl_parts(c, at1, base, cfg, acc1) == stbl_parts(c, at2, base, cfg, acc2));
    } else {
        assert(acc2 == acc1);
    }
    let at3: int = at2 + v.co64_bytes().len();
    let acc3 = StblView { co64: v.co64, ..acc2 };
    if v.co64 is Some {
        let x = v.co64->0;
        assert(c.subrange(at2, at3) =~= v.co64_bytes());
        crate::atom::co64::lemma_co64_round_trip(c, at2, base, x);
        assert(stbl_parts(c, at2, base, cfg, acc2) == stbl_parts(c, at3, base, cfg, acc3));
    } else {
        assert(acc3 == acc2);
    }
    assert(acc3 == v);
    assert(at3 == c.len());
}

/// Reading a sample table atom back from where its bytes stand gives the atom.
pub proof fn lemma_stbl_round_trip(c: Seq<u8>, p: int, base: int, v: StblView)
    requires
        0 <= p,
        v.readable_at(base + p),
        p + v.bytes().len() <= c.len(),
        c.subrange(p, p + v.bytes().len()) == v.bytes(),
    ensures
        stands_at(c, p, Ident(SAMPLE_TABLE), v.bytes().len() as int),
        Stbl::parsed(c, content_at(c, p), base, ReadConfig::spec_all(), size_at(c, p)) == Ok::<
            StblView,
            ErrorView,
        >(v),
{
    reveal(Stbl::parsed);
    reveal(StblView::bytes);
    lemma_boxed_child(c, p, Ident(SAMPLE_TABLE), v.content_bytes());
    lemma_stbl_decode(v, base + content_at(c, p));
}

/// Whether the atoms that a sample table atom holds can be found does not hang on
/// where the atom lies in the file.
pub proof fn lemma_stbl_found_anywhere(
    c: Seq<u8>,
    p: int,
    base: int,
    acc: StblBounds,
    other_base: int,
    other_acc: StblBounds,
)
    requires
        0 <= p,
        stbl_found(c, p, base, acc) is Ok,
    ensures
        stbl_found(c, p, other_base, other_acc) is Ok,
    decreases c.len() - p,
{
    reveal(found_at);
    if p < c.len() {
        let h = child_at(c, p)->Ok_0;
        let size = h.spec_size();
        let cp = p + size.spec_head_len();
        let next = p + size.len;
        if h.fourcc == Ident(SAMPLE_TABLE_CHUNK_OFFSET) {
            let b = found_at(c, cp, base, size, h.fourcc)->Ok_0;
            let o = found_at(c, cp, other_base, size, h.fourcc)->Ok_0;
            lemma_stbl_found_anywhere(
                c,
                next,
                base,
                StblBounds { stco: Some(StcoBounds { bounds: b }), ..acc },
                other_base,
                StblBounds { stco: Some(StcoBounds { bounds: o }), ..other_acc },
            );
        } else if h.fourcc == Ident(SAMPLE_TABLE_CHUNK_OFFSET_64) {
            let b = found_at(c, cp, base, size, h.fourcc)->Ok_0;
            let o = found_at(c, cp, other_base, size, h.fourcc)->Ok_0;
            lemma_stbl_found_anywhere(
                c,
                next,
                base,
                StblBounds { co64: Some(Co64Bounds { bounds: b }), ..acc },
                other_base,
                StblBounds { co64: Some(Co64Bounds { bounds: o }), ..other_acc },
            );
        } else {
            lemma_stbl_found_anywhere(c, next, base, acc, other_base, other_acc);
        }
    }
}

/// Whether a sample table atom and what it holds can be found hangs on its
/// content alone.
pub proof fn lemma_stbl_anywhere(
    s: Seq<u8>,
    p: int,
    base: int,
    other: Seq<u8>,
    other_p: int,
    other_base: int,
    size: Size,
)
    requires
        content_of(s, p, size) == content_of(other, other_p, size),
        Stbl::found(s, p, base, size) is Ok,
    ensures
        Stbl::found(other, other_p, other_base, size) is Ok,
{
    reveal(Stbl::found);
    let c = content_of(s, p, size)->0;
    lemma_stbl_found_anywhere(
        c,
        0,
        base + p,
        StblBounds { bounds: bounds_at(base + p, size, Ident(SAMPLE_TABLE)), stco: None, co64: None },
        other_base + other_p,
        StblBounds { bounds: bounds_at(other_base + other_p, size, Ident(SAMPLE_TABLE)), stco: None, co64: None },
    );
}

} // verus!
