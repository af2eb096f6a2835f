//! The media information atom (`minf`).

use crate::atom::base::{boxed, child_at, content_of, fits, next_child, plain_of, read};
use crate::atom::base::{lemma_boxed_len, lemma_child_anchored, view_of, write_boxed, ReadConfig};
use crate::atom::base::{content_at, lemma_boxed_child, size_at, stands_at};
use crate::atom::stbl::{lemma_stbl_nested, Stbl, StblBounds, StblView};
use crate::error::{annotate, eof, Error, ErrorView};
use crate::head::{bounds_at, find_bounds, AtomBounds, Size};
use crate::ident::{Ident, MEDIA_INFORMATION, SAMPLE_TABLE};
use crate::reader::Reader;
use vstd::prelude::*;

verus! {

/// A media information atom: the atoms that it holds.
#[derive(Clone, Debug, Default, PartialEq, Eq)]
pub struct Minf {
    /// The sample table.
    pub stbl: Option<Stbl>,
}

/// The mathematical value of a [`Minf`].
pub struct MinfView {
    pub stbl: Option<StblView>,
}

impl View for Minf {
    type V = MinfView;

    open spec fn view(&self) -> MinfView {
        MinfView {
            stbl: match self.stbl {
                Some(x) => Some(x@),
                None => None,
            },
        }
    }
}

/// Where a media information atom and the atoms that it holds lie in the file.
#[derive(Clone, Copy, Debug, PartialEq, Eq, Structural)]
pub struct MinfBounds {
    /// The bounds of the atom.
    pub bounds: AtomBounds,
    /// Where the sample table lies.
    pub stbl: Option<StblBounds>,
}

/// What reading the children of a media information atom from position `p` of its
/// content `c`, which starts at position `base` of the file, adds to what
/// was read before. Of several children of one kind the last counts; what
/// the configuration does not ask for is passed over.
pub open spec fn minf_parts(
    c: Seq<u8>,
    p: int,
    base: int,
    cfg: ReadConfig,
    acc: MinfView,
) -> Result<MinfView, ErrorView>
    decreases c.len() - p,
{
    if p >= c.len() {
        Ok(acc)
    } else {
        match child_at(c, p) {
            Err(e) => Err(e),
            Ok(h) => {
                let size = h.spec_size();
                let cp = p + size.spec_head_len();
                let next = p + size.len;
                if h.fourcc == Ident(SAMPLE_TABLE) && (cfg.read_chapters || cfg.read_audio_info) {
                    match Stbl::parsed(c, cp, base, cfg, size) {
                        Err(e) => Err(e),
                        Ok(v) => minf_parts(c, next, base, cfg, MinfView { stbl: Some(v), ..acc }),
                    }
                } else {
                    minf_parts(c, next, base, cfg, acc)
                }
            },
        }
    }
}

/// What finding the children of a media information atom from position `p` of its
/// content `c`, which starts at position `base` of the file, adds to what
/// was found before.
pub open spec fn minf_found(c: Seq<u8>, p: int, base: int, acc: MinfBounds) -> Result<
    MinfBounds,
    ErrorView,
>
    decreases c.len() - p,
{
    if p >= c.len() {
        Ok(acc)
    } else {
        match child_at(c, p) {
            Err(e) => Err(e),
            Ok(h) => {
                let size = h.spec_size();
                let cp = p + size.spec_head_len();
                let next = p + size.len;
                if h.fourcc == Ident(SAMPLE_TABLE) {
                    match Stbl::found(c, cp, base, size) {
                        Err(e) => Err(e),
                        Ok(b) => minf_found(
                            c,
                            next,
                            base,
                            MinfBounds { stbl: Some(b), ..acc },
                        ),
                    }
                } else {
                    minf_found(c, next, base, acc)
                }
            },
        }
    }
}

impl MinfBounds {
    /// What was found fits together and fits the file `f`: the atoms are
    /// atoms of the file, and those that were found in this one lie inside
    /// its content, apart from one another.
    pub open spec fn nested(self, f: Seq<u8>) -> bool {
        &&& self.bounds.anchored(f)
        &&& self.stbl is Some ==> self.stbl->0.nested(f) && self.bounds.holds(
            self.stbl->0.bounds,
        )
    }

    /// What was found ends at or before the position `q` of the file.
    pub open spec fn before(self, q: int) -> bool {
        &&& self.stbl is Some ==> self.stbl->0.bounds.spec_end() <= q
    }
}

/// What is found in the content of a media information atom lies inside it.
pub proof fn lemma_minf_found_nested(f: Seq<u8>, c: Seq<u8>, p: int, base: int, acc: MinfBounds)
    requires
        0 <= p,
        0 <= base,
        base + c.len() <= f.len(),
        f.len() <= u64::MAX,
        c == f.subrange(base, base + c.len()),
        acc.nested(f),
        acc.before(base + p),
        acc.bounds.spec_content_pos() <= base,
        acc.bounds.spec_end() == base + c.len(),
    ensures
        minf_found(c, p, base, acc) is Ok ==> minf_found(c, p, base, acc)->Ok_0.nested(f)
            && minf_found(c, p, base, acc)->Ok_0.bounds == acc.bounds,
    decreases c.len() - p,
{
    if p < c.len() {
        match child_at(c, p) {
            Err(_) => {},
            Ok(h) => {
                lemma_child_anchored(f, c, base, p);
                let size = h.spec_size();
                let cp = p + size.spec_head_len();
                let next = p + size.len;
                if h.fourcc == Ident(SAMPLE_TABLE) {
                    lemma_stbl_nested(f, c, cp, base, size);
                    match Stbl::found(c, cp, base, size) {
                        Err(_) => {},
                        Ok(b) => {
                            lemma_minf_found_nested(
                                f,
                                c,
                                next,
                                base,
                                MinfBounds { stbl: Some(b), ..acc },
                            );
                        },
                    }
                } else {
                    lemma_minf_found_nested(f, c, next, base, acc);
                }
            },
        }
    }
}

/// A media information atom that is found in the stream `s`, which is the part of
/// the file `f` from position `base` on, has the bounds that its head
/// gives, and what is found in it lies inside it.
pub proof fn lemma_minf_nested(f: Seq<u8>, s: Seq<u8>, p: int, base: int, size: Size)
    requires
        0 <= p,
        0 <= base,
        base + s.len() <= f.len(),
        f.len() <= u64::MAX,
        s == f.subrange(base, base + s.len()),
        bounds_at(base + p, size, Ident(MEDIA_INFORMATION)).anchored(f),
        base + p >= size.spec_head_len(),
    ensures
        Minf::found(s, p, base, size) is Ok ==> Minf::found(s, p, base, size)->Ok_0.nested(f)
            && Minf::found(s, p, base, size)->Ok_0.bounds == bounds_at(
            base + p,
            size,
            Ident(MEDIA_INFORMATION),
        ),
{
    reveal(Minf::found);
    match content_of(s, p, size) {
        None => {},
        Some(c) => {
            let init = MinfBounds { bounds: bounds_at(base + p, size, Ident(MEDIA_INFORMATION)), stbl: None };
            assert(c =~= f.subrange(base + p, base + p + c.len()));
            lemma_minf_found_nested(f, c, 0, base + p, init);
        },
    }
}

impl MinfView {
    /// The media information of which nothing is known.
    pub open spec fn none() -> MinfView {
        MinfView { stbl: None }
    }

    /// The content of the atom: the atoms that it holds, in the order of
    /// the fields.
    pub open spec fn content_bytes(self) -> Seq<u8> {
        (match self.stbl {
            Some(x) => x.bytes(),
            None => Seq::empty(),
        })
    }

    /// The bytes of the atom.
    #[verifier::opaque]
    pub open spec fn bytes(self) -> Seq<u8> {
        boxed(Ident(MEDIA_INFORMATION), self.content_bytes())
    }

    /// The atom can be written: the atoms that it holds can, and its length
    /// is a number of 64 bits.
    pub open spec fn writable(self) -> bool {
        &&& fits(self.content_bytes().len() as int)
        &&& self.stbl is Some ==> self.stbl->0.writable()
    }
}

impl Minf {
    /// What the content `c` of a media information atom says, which starts at position
    /// `base` of the file.
    pub open spec fn decode(c: Seq<u8>, base: int, cfg: ReadConfig) -> Result<
        MinfView,
        ErrorView,
    > {
        minf_parts(c, 0, base, cfg, MinfView::none())
    }

    /// What reading a media information atom gives whose content starts at position `p`
    /// of the stream `s`, which starts at position `base` of the file.
    #[verifier::opaque]
    pub open spec fn parsed(s: Seq<u8>, p: int, base: int, cfg: ReadConfig, size: Size) -> Result<
        MinfView,
        ErrorView,
    > {
        annotate(
            "parsing",
            Ident(MEDIA_INFORMATION),
            match content_of(s, p, size) {
                None => Err(eof()),
                Some(c) => Minf::decode(c, base + p, cfg),
            },
        )
    }

    /// Where the media information atom lies whose content `c` starts at position
    /// `base` of the file, and where the atoms lie that it holds.
    pub open spec fn locate(c: Seq<u8>, base: int, size: Size) -> Result<MinfBounds, ErrorView> {
        minf_found(
            c,
            0,
            base,
            MinfBounds { bounds: bounds_at(base, size, Ident(MEDIA_INFORMATION)), stbl: None },
        )
    }

    /// What finding a media information atom gives whose content starts at position `p`
    /// of the stream `s`, which starts at position `base` of the file.
    #[verifier::opaque]
    pub open spec fn found(s: Seq<u8>, p: int, base: int, size: Size) -> Result<
        MinfBounds,
        ErrorView,
    > {
        annotate(
            "parsing",
            Ident(MEDIA_INFORMATION),
            match content_of(s, p, size) {
                None => Err(eof()),
                Some(c) => Minf::locate(c, base + p, size),
            },
        )
    }

    /// Reads a media information atom: the cursor stands behind its head, which
    /// declared the size `size`.
    pub fn parse(reader: &mut Reader, cfg: &ReadConfig, size: Size) -> (r: Result<Minf, Error>)
        requires
            old(reader).wf(),
            size.wf(),
        ensures
            read(
                Minf::parsed(
                    old(reader).data@,
                    old(reader).pos as int,
                    old(reader).base as int,
                    *cfg,
                    size,
                ),
                view_of(r),
                old(reader),
                final(reader),
                size.spec_content_len(),
            ),
    {
        proof {
            reveal(Minf::parsed);
        }
        let mut content = match reader.take(size.content_len()) {
            Ok(c) => c,
            Err(e) => {
                return Err(e.annotate("parsing", Ident(MEDIA_INFORMATION)));
            },
        };
        match Minf::parse_atom(&mut content, cfg) {
            Ok(v) => Ok(v),
            Err(e) => Err(e.annotate("parsing", Ident(MEDIA_INFORMATION))),
        }
    }

    /// Reads the content of a media information atom, which the cursor is over.
    pub fn parse_atom(content: &mut Reader, cfg: &ReadConfig) -> (r: Result<Minf, Error>)
        requires
            old(content).wf(),
            old(content).pos == 0,
        ensures
            view_of(r) == Minf::decode(old(content).data@, old(content).base as int, *cfg),
            final(content).same_stream(old(content)),
    {
        let ghost c = content.data@;
        let ghost base = content.base as int;
        let mut minf = Minf { stbl: None };
        while content.remaining() > 0
            invariant
                content.same_stream(old(content)),
                c == content.data@,
                base == content.base,
                minf_parts(c, content.pos as int, base, *cfg, minf@) == Minf::decode(c, base, *cfg),
            decreases content.left(),
        {
            let head = match next_child(content) {
                Ok(h) => h,
                Err(e) => {
                    return Err(e);
                },
            };
            if head.fourcc.0 == SAMPLE_TABLE && (cfg.read_chapters || cfg.read_audio_info) {
                match Stbl::parse(content, cfg, head.size()) {
                    Ok(v) => {
                        minf.stbl = Some(v);
                    },
                    Err(e) => {
                        return Err(e);
                    },
                }
            } else {
                match content.skip(head.content_len()) {
                    Ok(_) => {},
                    Err(e) => {
                        return Err(e);
                    },
                }
            }
        }
        Ok(minf)
    }

    /// Finds where a media information atom and the atoms that it holds lie: the
    /// cursor stands behind its head, which declared the size `size`.
    pub fn find(reader: &mut Reader, size: Size) -> (r: Result<MinfBounds, Error>)
        requires
            old(reader).wf(),
            size.wf(),
            old(reader).abs() >= size.spec_head_len(),
        ensures
            read(
                Minf::found(
                    old(reader).data@,
                    old(reader).pos as int,
                    old(reader).base as int,
                    size,
                ),
                plain_of(r),
                old(reader),
                final(reader),
                size.spec_content_len(),
            ),
    {
        proof {
            reveal(Minf::found);
        }
        let mut content = match reader.take(size.content_len()) {
            Ok(c) => c,
            Err(e) => {
                return Err(e.annotate("parsing", Ident(MEDIA_INFORMATION)));
            },
        };
        match Minf::find_atom(&mut content, size) {
            Ok(v) => Ok(v),
            Err(e) => Err(e.annotate("parsing", Ident(MEDIA_INFORMATION))),
        }
    }

    /// Finds what the content of a media information atom holds, which the cursor is
    /// over.
    pub fn find_atom(content: &mut Reader, size: Size) -> (r: Result<MinfBounds, Error>)
        requires
            old(content).wf(),
            old(content).pos == 0,
            size.wf(),
            old(content).base >= size.spec_head_len(),
            old(content).data@.len() == size.spec_content_len(),
        ensures
            plain_of(r) == Minf::locate(old(content).data@, old(content).base as int, size),
            final(content).same_stream(old(content)),
    {
        let ghost c = content.data@;
        let ghost base = content.base as int;
        let bounds = find_bounds(content, size, Ident(MEDIA_INFORMATION));
        let mut minf = MinfBounds { bounds, stbl: None };
        while content.remaining() > 0
            invariant
                content.same_stream(old(content)),
                c == content.data@,
                base == content.base,
                minf_found(c, content.pos as int, base, minf) == Minf::locate(c, base, size),
            decreases content.left(),
        {
            let head = match next_child(content) {
                Ok(h) => h,
                Err(e) => {
                    return Err(e);
                },
            };
            if head.fourcc.0 == SAMPLE_TABLE {
                match Stbl::find(content, head.size()) {
                    Ok(v) => {
                        minf.stbl = Some(v);
                    },
                    Err(e) => {
                        return Err(e);
                    },
                }
            } else {
                match content.skip(head.content_len()) {
                    Ok(_) => {},
                    Err(e) => {
                        return Err(e);
                    },
                }
            }
        }
        Ok(minf)
    }

    /// The size of the atom.
    pub fn size(&self) -> (r: Size)
        requires
            self@.writable(),
        ensures
            r == Size::of(self@.content_bytes().len() as int),
            r.len == self@.bytes().len(),
    {
        proof {
            reveal(MinfView::bytes);
        }
        let mut n: u64 = 0;
        match &self.stbl {
            Some(a) => {
                proof {
                    reveal(StblView::bytes); lemma_boxed_len(Ident(SAMPLE_TABLE), a@.content_bytes());
                }
                n = n + a.len();
            },
            None => {},
        }
        Size::from(n)
    }

    /// The length of the atom in bytes.
    pub fn len(&self) -> (r: u64)
        requires
            self@.writable(),
        ensures
            r == self@.bytes().len(),
    {
        self.size().len()
    }

    /// Writes the atom.
    pub fn write(&self, out: &mut Vec<u8>)
        requires
            self@.writable(),
        ensures
            final(out)@ == old(out)@ + self@.bytes(),
    {
        proof {
            reveal(MinfView::bytes);
        }
        let mut body: Vec<u8> = Vec::new();
        match &self.stbl {
            Some(a) => {
                proof {
                    reveal(StblView::bytes); lemma_boxed_len(Ident(SAMPLE_TABLE), a@.content_bytes());
                }
                a.write(&mut body);
            },
            None => {},
        }
        assert(body@ =~= self@.content_bytes());
        write_boxed(out, Ident(MEDIA_INFORMATION), &body);
    }
}

impl MinfView {
    /// What is needed of the atoms that it holds for the atom to be read
    /// back from its bytes, where its content starts at position `cp` of the
    /// file.
    pub open spec fn content_readable_at(self, cp: int) -> bool {
        &&& self.stbl is Some ==> self.stbl->0.readable_at(cp)
    }

    /// The atom can be read back from its bytes, where they stand at
    /// position `pos` of the file: it can be written, and the positions
    /// that it names are those at which it is written.
    pub open spec fn readable_at(self, pos: int) -> bool {
        &&& self.writable()
        &&& self.content_readable_at(
            pos + Size::of(self.content_bytes().len() as int).spec_head_len(),
        )
    }

    /// The bytes of the sample table, if there is one.
    pub open spec fn stbl_bytes(self) -> Seq<u8> {
        match self.stbl {
            Some(x) => x.bytes(),
            None => Seq::empty(),
        }
    }
}

/// Reading a media information atom back from the content that is written of it gives
/// the atom.
pub proof fn lemma_minf_decode(v: MinfView, base: int)
    requires
        v.writable(),
        v.content_readable_at(base),
    ensures
        Minf::decode(v.content_bytes(), base, ReadConfig::spec_all())
            == Ok::<MinfView, ErrorView>(v),
{
    let c = v.content_bytes();
    let cfg = ReadConfig::spec_all();
    assert(c == v.stbl_bytes());
    let acc0 = MinfView::none();
    let at0: int = 0;
    let at1: int = at0 + v.stbl_bytes().len();
    let acc1 = MinfView { stbl: v.stbl, ..acc0 };
    if v.stbl is Some {
        let x = v.stbl->0;
        assert(c.subrange(at0, at1) =~= v.stbl_bytes());
        crate::atom::stbl::lemma_stbl_round_trip(c, at0, base, x);
        assert(minf_parts(c, at0, base, cfg, acc0) == minf_parts(c, at1, base, cfg, acc1));
    } else {
        assert(acc1 == acc0);
    }
    assert(acc1 == v);
    assert(at1 == c.len());
}

/// Reading a media information atom back from where its bytes stand gives the atom.
pub proof fn lemma_minf_round_trip(c: Seq<u8>, p: int, base: int, v: MinfView)
    requires
        0 <= p,
        v.readable_at(base + p),
        p + v.bytes().len() <= c.len(),
        c.subrange(p, p + v.bytes().len()) == v.bytes(),
    ensures
        stands_at(c, p, Ident(MEDIA_INFORMATION), v.bytes().len() as int),
        Minf::parsed(c, content_at(c, p), base, ReadConfig::spec_all(), size_at(c, p)) == Ok::<
            MinfView,
            ErrorView,
        >(v),
{
    reveal(Minf::parsed);
    reveal(MinfView::bytes);
    lemma_boxed_child(c, p, Ident(MEDIA_INFORMATION), v.content_bytes());
    lemma_minf_decode(v, base + content_at(c, p));
}

/// Whether the atoms that a media information atom holds can be found does not hang on
/// where the atom lies in the file.
pub proof fn lemma_minf_found_anywhere(
    c: Seq<u8>,
    p: int,
    base: int,
    acc: MinfBounds,
    other_base: int,
    other_acc: MinfBounds,
)
    requires
        0 <= p,
        minf_found(c, p, base, acc) is Ok,
    ensures
        minf_found(c, p, other_base, other_acc) is Ok,
    decreases c.len() - p,
{
    if p < c.len() {
        let h = child_at(c, p)->Ok_0;
        let size = h.spec_size();
        let cp = p + size.spec_head_len();
        let next = p + size.len;
        if h.fourcc == Ident(SAMPLE_TABLE) {
            crate::atom::stbl::lemma_stbl_anywhere(c, cp, base, c, cp, other_base, size);
            let b = Stbl::found(c, cp, base, size)->Ok_0;
            let o = Stbl::found(c, cp, other_base, size)->Ok_0;
            lemma_minf_found_anywhere(
                c,
                next,
                base,
                MinfBounds { stbl: Some(b), ..acc },
                other_base,
                MinfBounds { stbl: Some(o), ..other_acc },
            );
        } else {
            lemma_minf_found_anywhere(c, next, base, acc, other_base, other_acc);
        }
    }
}

/// Whether a media information atom and what it holds can be found hangs on its
/// content alone.
pub proof fn lemma_minf_anywhere(
    s: Seq<u8>,
    p: int,
    base: int,
    other: Seq<u8>,
    other_p: int,
    other_base: int,
    size: Size,
)
    requires
        content_of(s, p, size) == content_of(other, other_p, size),
        Minf::found(s, p, base, size) is Ok,
    ensures
        Minf::found(other, other_p, other_base, size) is Ok,
{
    reveal(Minf::found);
    let c = content_of(s, p, size)->0;
    lemma_minf_found_anywhere(
        c,
        0,
        base + p,
        MinfBounds { bounds: bounds_at(base + p, size, Ident(MEDIA_INFORMATION)), stbl: None },
        other_base + other_p,
        MinfBounds { bounds: bounds_at(other_base + other_p, size, Ident(MEDIA_INFORMATION)), stbl: None },
    );
}

} // verus!
