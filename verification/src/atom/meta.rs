//! The metadata atom (`meta`).

use crate::atom::base::{boxed, child_at, content_of, fits, found_at, next_child, plain_of, read};
use crate::atom::base::{lemma_boxed_len, lemma_child_anchored, view_of, write_boxed, ReadConfig};
use crate::atom::hdlr::{Hdlr, HdlrBounds};
use crate::atom::ilst::{items_bytes, items_readable, lemma_ilst_round_trip, Ilst, IlstBounds};
use crate::atom::base::{lemma_boxed_bounds, lemma_boxed_child};
use crate::atom::metaitem::MetaItemView;
use crate::atom::zeros;
use crate::error::{annotate, eof, error, Error, ErrorKind, ErrorKindView, ErrorView};
use crate::head::{bounds_at, find_bounds, AtomBounds, Size};
use crate::ident::{Ident, HANDLER_REFERENCE, ITEM_LIST, METADATA};
use crate::reader::{at32, Reader};
use vstd::prelude::*;

verus! {

/// A metadata atom: the handler reference and the item list that it holds.
#[derive(Clone, Debug, PartialEq, Eq)]
pub struct Meta<'a> {
    /// The handler reference.
    pub hdlr: Option<Hdlr>,
    /// The item list.
    pub ilst: Option<Ilst<'a>>,
}

/// The mathematical value of a [`Meta`].
pub struct MetaView {
    pub hdlr: Option<Seq<u8>>,
    pub ilst: Option<Seq<MetaItemView>>,
}

impl<'a> View for Meta<'a> {
    type V = MetaView;

    open spec fn view(&self) -> MetaView {
        MetaView {
            hdlr: match self.hdlr {
                Some(h) => Some(h@),
                None => None,
            },
            ilst: match self.ilst {
                Some(i) => Some(i@),
                None => None,
            },
        }
    }
}

/// Where a metadata atom and the atoms that it holds lie in the file.
#[derive(Clone, Copy, Debug, PartialEq, Eq, Structural)]
pub struct MetaBounds {
    /// The bounds of the atom.
    pub bounds: AtomBounds,
    /// Where the handler reference lies.
    pub hdlr: Option<HdlrBounds>,
    /// Where the item list lies.
    pub ilst: Option<IlstBounds>,
}

/// The content of the handler reference that is written where a file has
/// none: the handler type `mdir` of the manufacturer `appl`.
pub open spec fn canonical_hdlr() -> Seq<u8> {
    seq![
        0u8, 0u8, 0u8, 0u8, 0u8, 0u8, 0u8, 0u8, 0x6du8, 0x64u8, 0x69u8, 0x72u8, 0x61u8, 0x70u8,
        0x70u8, 0x6cu8, 0u8, 0u8, 0u8, 0u8, 0u8, 0u8, 0u8, 0u8, 0u8,
    ]
}

/// Where the children start in the content `c` of a metadata atom. The
/// content opens with four bytes of version and flags, which some writers
/// leave out: where the identifier of a child atom that is known, `hdlr` or
/// `ilst`, stands where that of the first child would stand without them,
/// the children start at once; else they start behind the four bytes, of
/// which the version must be 0.
pub open spec fn children_start(c: Seq<u8>) -> Result<int, ErrorView> {
    if c.len() >= 8 && (at32(c, 4) == HANDLER_REFERENCE || at32(c, 4) == ITEM_LIST) {
        Ok(0)
    } else if c.len() < 4 {
        Err(eof())
    } else if c[0] != 0 {
        Err(error(ErrorKindView::UnknownVersion(c[0]), "Unknown metadata (meta) version"))
    } else {
        Ok(4)
    }
}

/// What reading the children of a metadata atom from position `p` of its
/// content `c` adds to what was read before. Of several children of one kind
/// the last counts. The item list is read where the tag is to be read.
pub open spec fn meta_parts(c: Seq<u8>, p: int, cfg: ReadConfig, acc: MetaView) -> Result<
    MetaView,
    ErrorView,
>
    decreases c.len() - p,
{
    if p >= c.len() {
        Ok(acc)
    } else {
        match child_at(c, p) {
            Err(e) => Err(e),
            Ok(h) => {
                let size = h.spec_size();
                let cp = p + size.spec_head_len();
                let next = p + size.len;
                if h.fourcc == Ident(HANDLER_REFERENCE) {
                    match Hdlr::parsed(c, cp, size) {
                        Err(e) => Err(e),
                        Ok(v) => meta_parts(c, next, cfg, MetaView { hdlr: Some(v), ..acc }),
                    }
                } else if h.fourcc == Ident(ITEM_LIST) && cfg.read_tag {
                    match Ilst::parsed(c, cp, size) {
                        Err(e) => Err(e),
                        Ok(v) => meta_parts(c, next, cfg, MetaView { ilst: Some(v), ..acc }),
                    }
                } else {
                    meta_parts(c, next, cfg, acc)
                }
            },
        }
    }
}

/// What finding the children of a metadata atom from position `p` of its
/// content `c`, which starts at position `base` of the file, adds to what
/// was found before.
pub open spec fn meta_found(c: Seq<u8>, p: int, base: int, acc: MetaBounds) -> Result<
    MetaBounds,
    ErrorView,
>
    decreases c.len() - p,
{
    if p >= c.len() {
        Ok(acc)
    } else {
        match child_at(c, p) {
            Err(e) => Err(e),
            Ok(h) => {
                let size = h.spec_size();
                let cp = p + size.spec_head_len();
                let next = p + size.len;
                if h.fourcc == Ident(HANDLER_REFERENCE) {
                    match found_at(c, cp, base, size, h.fourcc) {
                        Err(e) => Err(e),
                        Ok(b) => meta_found(
                            c,
                            next,
                            base,
                            MetaBounds { hdlr: Some(HdlrBounds { bounds: b }), ..acc },
                        ),
                    }
                } else if h.fourcc == Ident(ITEM_LIST) {
                    match found_at(c, cp, base, size, h.fourcc) {
                        Err(e) => Err(e),
                        Ok(b) => meta_found(
                            c,
                            next,
                            base,
                            MetaBounds { ilst: Some(IlstBounds { bounds: b }), ..acc },
                        ),
                    }
                } else {
                    meta_found(c, next, base, acc)
                }
            },
        }
    }
}

impl MetaView {
    /// The content of the atom: version and flags of zero, the handler
    /// reference and the item list.
    pub open spec fn content_bytes(self) -> Seq<u8> {
        zeros(4) + (match self.hdlr {
            Some(h) => Hdlr::bytes(h),
            None => Seq::empty(),
        }) + (match self.ilst {
            Some(i) => Ilst::bytes(i),
            None => Seq::empty(),
        })
    }

    /// The bytes of the atom.
    #[verifier::opaque]
    pub open spec fn bytes(self) -> Seq<u8> {
        boxed(Ident(METADATA), self.content_bytes())
    }

    /// The atom can be written: its length is a number of 64 bits.
    pub open spec fn writable(self) -> bool {
        fits(self.content_bytes().len() as int)
    }
}

impl MetaBounds {
    /// What was found fits together and fits the file `f`: the atoms are
    /// atoms of the file, and those that the metadata atom holds lie inside
    /// its content, apart from one another.
    pub open spec fn nested(self, f: Seq<u8>) -> bool {
        &&& self.bounds.anchored(f)
        &&& self.hdlr is Some ==> self.hdlr->0.bounds.anchored(f) && self.bounds.holds(
            self.hdlr->0.bounds,
        )
        &&& self.ilst is Some ==> self.ilst->0.bounds.anchored(f) && self.bounds.holds(
            self.ilst->0.bounds,
        )
        &&& self.hdlr is Some && self.ilst is Some ==> self.hdlr->0.bounds.apart(
            self.ilst->0.bounds,
        )
    }

    /// What was found ends at or before the position `q` of the file.
    pub open spec fn before(self, q: int) -> bool {
        &&& self.hdlr is Some ==> self.hdlr->0.bounds.spec_end() <= q
        &&& self.ilst is Some ==> self.ilst->0.bounds.spec_end() <= q
    }
}

/// What is found in the content of a metadata atom lies inside it.
pub proof fn lemma_meta_found_nested(f: Seq<u8>, c: Seq<u8>, p: int, base: int, acc: MetaBounds)
    requires
        0 <= p,
        0 <= base,
        base + c.len() <= f.len(),
        f.len() <= u64::MAX,
        c == f.subrange(base, base + c.len()),
        acc.nested(f),
        acc.before(base + p),
        acc.bounds.spec_content_pos() <= base,
        acc.bounds.spec_end() == base + c.len(),
    ensures
        meta_found(c, p, base, acc) is Ok ==> meta_found(c, p, base, acc)->Ok_0.nested(f)
            && meta_found(c, p, base, acc)->Ok_0.bounds == acc.bounds,
    decreases c.len() - p,
{
    reveal(found_at);
    if p < c.len() {
        match child_at(c, p) {
            Err(_) => {},
            Ok(h) => {
                lemma_child_anchored(f, c, base, p);
                let size = h.spec_size();
                let cp = p + size.spec_head_len();
                let next = p + size.len;
                if h.fourcc == Ident(HANDLER_REFERENCE) {
                    match found_at(c, cp, base, size, h.fourcc) {
                        Err(_) => {},
                        Ok(b) => {
                            lemma_meta_found_nested(
                                f,
                                c,
                                next,
                                base,
                                MetaBounds { hdlr: Some(HdlrBounds { bounds: b }), ..acc },
                            );
                        },
                    }
                } else if h.fourcc == Ident(ITEM_LIST) {
                    match found_at(c, cp, base, size, h.fourcc) {
                        Err(_) => {},
                        Ok(b) => {
                            lemma_meta_found_nested(
                                f,
                                c,
                                next,
                                base,
                                MetaBounds { ilst: Some(IlstBounds { bounds: b }), ..acc },
                            );
                        },
                    }
                } else {
                    lemma_meta_found_nested(f, c, next, base, acc);
                }
            },
        }
    }
}

/// A metadata atom that is found in the stream `s`, which is the part of
/// the file `f` from position `base` on, has the bounds that its head gives,
/// and what is found in it lies inside it.
pub proof fn lemma_meta_nested(f: Seq<u8>, s: Seq<u8>, p: int, base: int, size: Size)
    requires
        0 <= p,
        0 <= base,
        base + s.len() <= f.len(),
        f.len() <= u64::MAX,
        s == f.subrange(base, base + s.len()),
        bounds_at(base + p, size, Ident(METADATA)).anchored(f),
        base + p >= size.spec_head_len(),
    ensures
        Meta::found(s, p, base, size) is Ok ==> Meta::found(s, p, base, size)->Ok_0.nested(f)
            && Meta::found(s, p, base, size)->Ok_0.bounds == bounds_at(
            base + p,
            size,
            Ident(METADATA),
        ),
{
    reveal(Meta::found);
    match content_of(s, p, size) {
        None => {},
        Some(c) => {
            let init = MetaBounds {
                bounds: bounds_at(base + p, size, Ident(METADATA)),
                hdlr: None,
                ilst: None,
            };
            assert(c =~= f.subrange(base + p, base + p + c.len()));
            match children_start(c) {
                Err(_) => {},
                Ok(start) => {
                    lemma_meta_found_nested(f, c, start, base + p, init);
                },
            }
        },
    }
}

/// Moves the cursor, which is at the start of the content of a metadata
/// atom, to where the children start.
pub fn skip_to_children(content: &mut Reader) -> (r: Result<(), Error>)
    requires
        old(content).wf(),
        old(content).pos == 0,
    ensures
        match r {
            Ok(_) => children_start(old(content).data@) is Ok && final(content).moved(
                old(content),
                children_start(old(content).data@)->Ok_0,
            ),
            Err(e) => children_start(old(content).data@) == Err::<int, ErrorView>(e@)
                && final(content).same_stream(old(content)),
        },
{
    if content.remaining() >= 8 {
        match content.skip(4) {
            Ok(_) => {},
            Err(e) => {
                return Err(e);
            },
        }
        let fourcc = content.peek_be_u32();
        content.pos = 0;
        match fourcc {
            Some(f) => {
                if f == HANDLER_REFERENCE || f == ITEM_LIST {
                    return Ok(());
                }
            },
            None => {},
        }
    }
    let (version, _) = crate::head::parse_full_head(content)?;
    if version != 0 {
        return Err(
            Error::new(ErrorKind::UnknownVersion(version), "Unknown metadata (meta) version"),
        );
    }
    Ok(())
}

impl<'a> Meta<'a> {
    /// The handler reference that is written where a file has none.
    pub fn hdlr() -> (r: Hdlr)
        ensures
            r@ == canonical_hdlr(),
    {
        let mut v: Vec<u8> = Vec::new();
        crate::atom::put_zeros(&mut v, 8);
        crate::codec::put_be_u32(&mut v, 0x6d64_6972);
        crate::codec::put_be_u32(&mut v, 0x6170_706c);
        crate::atom::put_zeros(&mut v, 9);
        assert(v@ =~= canonical_hdlr());
        Hdlr(v)
    }

    /// What the content `c` of a metadata atom says.
    pub open spec fn decode(c: Seq<u8>, cfg: ReadConfig) -> Result<MetaView, ErrorView> {
        match children_start(c) {
            Err(e) => Err(e),
            Ok(start) => meta_parts(c, start, cfg, MetaView { hdlr: None, ilst: None }),
        }
    }

    /// What reading a metadata atom gives whose content starts at position
    /// `p` of the stream `s`.
    #[verifier::opaque]
    pub open spec fn parsed(s: Seq<u8>, p: int, cfg: ReadConfig, size: Size) -> Result<
        MetaView,
        ErrorView,
    > {
        annotate(
            "parsing",
            Ident(METADATA),
            match content_of(s, p, size) {
                None => Err(eof()),
                Some(c) => Meta::decode(c, cfg),
            },
        )
    }

    /// Where the metadata atom lies whose content `c` starts at position
    /// `base` of the file, and where the atoms lie that it holds.
    pub open spec fn locate(c: Seq<u8>, base: int, size: Size) -> Result<MetaBounds, ErrorView> {
        match children_start(c) {
            Err(e) => Err(e),
            Ok(start) => meta_found(
                c,
                start,
                base,
                MetaBounds { bounds: bounds_at(base, size, Ident(METADATA)), hdlr: None, ilst: None },
            ),
        }
    }

    /// What finding a metadata atom gives whose content starts at position
    /// `p` of the stream `s`, which starts at position `base` of the file.
    #[verifier::opaque]
    pub open spec fn found(s: Seq<u8>, p: int, base: int, size: Size) -> Result<
        MetaBounds,
        ErrorView,
    > {
        annotate(
            "parsing",
            Ident(METADATA),
            match content_of(s, p, size) {
                None => Err(eof()),
                Some(c) => Meta::locate(c, base + p, size),
            },
        )
    }

    /// Reads a metadata atom: the cursor stands behind its head, which
    /// declared the size `size`.
    pub fn parse(reader: &mut Reader, cfg: &ReadConfig, size: Size) -> (r: Result<
        Meta<'static>,
        Error,
    >)
        requires
            old(reader).wf(),
            size.wf(),
        ensures
            read(
                Meta::parsed(old(reader).data@, old(reader).pos as int, *cfg, size),
                view_of(r),
                old(reader),
                final(reader),
                size.spec_content_len(),
            ),
    {
        proof {
            reveal(Meta::parsed);
        }
        let mut content = match reader.take(size.content_len()) {
            Ok(c) => c,
            Err(e) => {
                return Err(e.annotate("parsing", Ident(METADATA)));
            },
        };
        match Meta::parse_atom(&mut content, cfg) {
            Ok(v) => Ok(v),
            Err(e) => Err(e.annotate("parsing", Ident(METADATA))),
        }
    }

    /// Reads the content of a metadata atom, which the cursor is over.
    pub fn parse_atom(content: &mut Reader, cfg: &ReadConfig) -> (r: Result<Meta<'static>, Error>)
        requires
            old(content).wf(),
            old(content).pos == 0,
        ensures
            view_of(r) == Meta::decode(old(content).data@, *cfg),
            final(content).same_stream(old(content)),
    {
        let ghost c = content.data@;
        match skip_to_children(content) {
            Ok(_) => {},
            Err(e) => {
                return Err(e);
            },
        }
        let mut meta: Meta<'static> = Meta { hdlr: None, ilst: None };
        while content.remaining() > 0
            invariant
                content.same_stream(old(content)),
                c == content.data@,
                meta_parts(c, content.pos as int, *cfg, meta@) == Meta::decode(c, *cfg),
            decreases content.left(),
        {
            let head = match next_child(content) {
                Ok(h) => h,
                Err(e) => {
                    return Err(e);
                },
            };
            if head.fourcc.0 == HANDLER_REFERENCE {
                match Hdlr::parse(content, cfg, head.size()) {
                    Ok(v) => {
                        meta.hdlr = Some(v);
                    },
                    Err(e) => {
                        return Err(e);
                    },
                }
            } else if head.fourcc.0 == ITEM_LIST && cfg.read_tag {
                match Ilst::parse(content, cfg, head.size()) {
                    Ok(v) => {
                        meta.ilst = Some(v);
                    },
                    Err(e) => {
                        return Err(e);
                    },
                }
            } else {
                match content.skip(head.content_len()) {
                    Ok(_) => {},
                    Err(e) => {
                        return Err(e);
                    },
                }
            }
        }
        Ok(meta)
    }

    /// Finds where a metadata atom and the atoms that it holds lie: the
    /// cursor stands behind its head, which declared the size `size`.
    pub fn find(reader: &mut Reader, size: Size) -> (r: Result<MetaBounds, Error>)
        requires
            old(reader).wf(),
            size.wf(),
            old(reader).abs() >= size.spec_head_len(),
        ensures
            read(
                Meta::found(
                    old(reader).data@,
                    old(reader).pos as int,
                    old(reader).base as int,
                    size,
                ),
                plain_of(r),
                old(reader),
                final(reader),
                size.spec_content_len(),
            ),
    {
        proof {
            reveal(Meta::found);
        }
        let mut content = match reader.take(size.content_len()) {
            Ok(c) => c,
            Err(e) => {
                return Err(e.annotate("parsing", Ident(METADATA)));
            },
        };
        match Meta::find_atom(&mut content, size) {
            Ok(v) => Ok(v),
            Err(e) => Err(e.annotate("parsing", Ident(METADATA))),
        }
    }

    /// Finds what the content of a metadata atom holds, which the cursor is
    /// over.
    pub fn find_atom(content: &mut Reader, size: Size) -> (r: Result<MetaBounds, Error>)
        requires
            old(content).wf(),
            old(content).pos == 0,
            size.wf(),
            old(content).base >= size.spec_head_len(),
            old(content).data@.len() == size.spec_content_len(),
        ensures
            plain_of(r) == Meta::locate(old(content).data@, old(content).base as int, size),
            final(content).same_stream(old(content)),
    {
        let ghost c = content.data@;
        let ghost base = content.base as int;
        let bounds = find_bounds(content, size, Ident(METADATA));
        match skip_to_children(content) {
            Ok(_) => {},
            Err(e) => {
                return Err(e);
            },
        }
        let mut meta = MetaBounds { bounds, hdlr: None, ilst: None };
        while content.remaining() > 0
            invariant
                content.same_stream(old(content)),
                c == content.data@,
                base == content.base,
                meta_found(c, content.pos as int, base, meta) == Meta::locate(c, base, size),
            decreases content.left(),
        {
            let head = match next_child(content) {
                Ok(h) => h,
                Err(e) => {
                    return Err(e);
                },
            };
            if head.fourcc.0 == HANDLER_REFERENCE {
                match Hdlr::find(content, head.size()) {
                    Ok(v) => {
                        meta.hdlr = Some(v);
                    },
                    Err(e) => {
                        return Err(e);
                    },
                }
            } else if head.fourcc.0 == ITEM_LIST {
                match Ilst::find(content, head.size()) {
                    Ok(v) => {
                        meta.ilst = Some(v);
                    },
                    Err(e) => {
                        return Err(e);
                    },
                }
            } else {
                match content.skip(head.content_len()) {
                    Ok(_) => {},
                    Err(e) => {
                        return Err(e);
                    },
                }
            }
        }
        Ok(meta)
    }

    /// The size of the atom.
    pub fn size(&self) -> (r: Size)
        requires
            self@.writable(),
        ensures
            r == Size::of(self@.content_bytes().len() as int),
            r.len == self@.bytes().len(),
    {
        proof {
            reveal(MetaView::bytes);
        }
        let mut n: u64 = 4;
        match &self.hdlr {
            Some(h) => {
                proof {
                    reveal(Hdlr::bytes);
                    lemma_boxed_len(Ident(HANDLER_REFERENCE), h@);
                }
                n = n + h.len();
            },
            None => {},
        }
        match &self.ilst {
            Some(i) => {
                proof {
                    reveal(Ilst::bytes);
                    lemma_boxed_len(Ident(ITEM_LIST), items_bytes(i@));
                }
                n = n + i.len();
            },
            None => {},
        }
        Size::from(n)
    }

    /// The length of the atom in bytes.
    pub fn len(&self) -> (r: u64)
        requires
            self@.writable(),
        ensures
            r == self@.bytes().len(),
    {
        self.size().len()
    }

    /// Writes the atom, always with the four bytes of version and flags in
    /// front of its children.
    pub fn write(&self, out: &mut Vec<u8>)
        requires
            self@.writable(),
        ensures
            final(out)@ == old(out)@ + self@.bytes(),
    {
        proof {
            reveal(MetaView::bytes);
        }
        let mut body: Vec<u8> = Vec::new();
        crate::atom::put_zeros(&mut body, 4);
        match &self.hdlr {
            Some(h) => {
                proof {
                    reveal(Hdlr::bytes);
                    lemma_boxed_len(Ident(HANDLER_REFERENCE), h@);
                }
                h.write(&mut body);
            },
            None => {},
        }
        match &self.ilst {
            Some(i) => {
                proof {
                    reveal(Ilst::bytes);
                    lemma_boxed_len(Ident(ITEM_LIST), items_bytes(i@));
                }
                i.write(&mut body);
            },
            None => {},
        }
        assert(body@ =~= self@.content_bytes());
        write_boxed(out, Ident(METADATA), &body);
    }
}

impl MetaView {
    /// The length of the first atom that the metadata atom holds, as far as
    /// its head says it in 32 bits; 0 where it holds none.
    pub open spec fn first_len(self) -> int {
        match self.hdlr {
            Some(h) => Hdlr::bytes(h).len() as int,
            None => match self.ilst {
                Some(i) => Ilst::bytes(i).len() as int,
                None => 0,
            },
        }
    }

    /// The atom can be read back from its bytes: it can be written, its
    /// items can be read back, and the length of the first atom that it
    /// holds is not a number that, where an identifier is looked for, reads
    /// as `hdlr` or `ilst`.
    pub open spec fn readable(self) -> bool {
        &&& self.writable()
        &&& self.ilst is Some ==> items_readable(self.ilst->0)
        &&& self.first_len() != HANDLER_REFERENCE
        &&& self.first_len() != ITEM_LIST
    }
}

/// In the content that is written of a metadata atom the children start
/// behind the four bytes of version and flags.
pub proof fn lemma_meta_start(v: MetaView)
    requires
        v.readable(),
    ensures
        children_start(v.content_bytes()) == Ok::<int, ErrorView>(4),
{
    reveal(Hdlr::bytes);
    reveal(Ilst::bytes);
    let c = v.content_bytes();
    if c.len() >= 8 {
        let n = v.first_len();
        match v.hdlr {
            Some(h) => {
                lemma_boxed_bounds(Ident(HANDLER_REFERENCE), h);
                assert(c.subrange(4, 4 + Hdlr::bytes(h).len() as int) =~= Hdlr::bytes(h));
                lemma_boxed_child(c, 4, Ident(HANDLER_REFERENCE), h);
            },
            None => match v.ilst {
                Some(i) => {
                    lemma_boxed_bounds(Ident(ITEM_LIST), items_bytes(i));
                    assert(c.subrange(4, 4 + Ilst::bytes(i).len() as int) =~= Ilst::bytes(i));
                    lemma_boxed_child(c, 4, Ident(ITEM_LIST), items_bytes(i));
                },
                None => {},
            },
        }
        let h = crate::atom::base::child_at(c, 4)->Ok_0;
        assert(at32(c, 4) == h.size);
        assert(h.size == 1 || h.size == n);
    }
}

/// Reading a metadata atom back from the content that is written of it
/// gives the atom.
pub proof fn lemma_meta_decode(v: MetaView)
    requires
        v.readable(),
    ensures
        Meta::decode(v.content_bytes(), ReadConfig::spec_all()) == Ok::<MetaView, ErrorView>(v),
{
    lemma_meta_start(v);
    let c = v.content_bytes();
    let cfg = ReadConfig::spec_all();
    let none = MetaView { hdlr: None, ilst: None };
    let hb = match v.hdlr {
        Some(h) => Hdlr::bytes(h),
        None => Seq::empty(),
    };
    let ib = match v.ilst {
        Some(i) => Ilst::bytes(i),
        None => Seq::empty(),
    };
    assert(c == zeros(4) + hb + ib);
    let at1 = 4 + hb.len() as int;
    let after_hdlr = MetaView { hdlr: v.hdlr, ilst: None };
    if v.hdlr is Some {
        let h = v.hdlr->0;
        reveal(Hdlr::bytes);
        lemma_boxed_bounds(Ident(HANDLER_REFERENCE), h);
        assert(c.subrange(4, 4 + hb.len() as int) =~= hb);
        Hdlr::lemma_atom_round_trip(c, 4, h);
        assert(meta_parts(c, 4, cfg, none) == meta_parts(c, at1, cfg, after_hdlr));
    }
    assert(meta_parts(c, 4, cfg, none) == meta_parts(c, at1, cfg, after_hdlr));
    if v.ilst is Some {
        let i = v.ilst->0;
        assert(c.subrange(at1, at1 + ib.len() as int) =~= ib);
        lemma_ilst_round_trip(c, at1, i);
        assert(meta_parts(c, at1, cfg, after_hdlr) == meta_parts(c, c.len() as int, cfg, v));
    } else {
        assert(v == after_hdlr);
    }
}

impl MetaView {
    /// The content of the atom as some writers leave it: without the four
    /// bytes of version and flags.
    pub open spec fn bare_content(self) -> Seq<u8> {
        (match self.hdlr {
            Some(h) => Hdlr::bytes(h),
            None => Seq::empty(),
        }) + (match self.ilst {
            Some(i) => Ilst::bytes(i),
            None => Seq::empty(),
        })
    }
}

/// In the content of a metadata atom without version and flags the children
/// start at once, where it holds a child.
pub proof fn lemma_meta_bare_start(v: MetaView)
    requires
        v.writable(),
        v.hdlr is Some || v.ilst is Some,
    ensures
        children_start(v.bare_content()) == Ok::<int, ErrorView>(0),
{
    let c = v.bare_content();
    if v.hdlr is Some {
        let h = v.hdlr->0;
        reveal(Hdlr::bytes);
        lemma_boxed_bounds(Ident(HANDLER_REFERENCE), h);
        assert(c.subrange(0, Hdlr::bytes(h).len() as int) =~= Hdlr::bytes(h));
        lemma_boxed_child(c, 0, Ident(HANDLER_REFERENCE), h);
    } else {
        let i = v.ilst->0;
        reveal(Ilst::bytes);
        lemma_boxed_bounds(Ident(ITEM_LIST), items_bytes(i));
        assert(c.subrange(0, Ilst::bytes(i).len() as int) =~= Ilst::bytes(i));
        lemma_boxed_child(c, 0, Ident(ITEM_LIST), items_bytes(i));
    }
}

/// The children of a metadata atom are read from its content without
/// version and flags as they were written.
pub proof fn lemma_meta_bare_parts(v: MetaView)
    requires
        v.readable(),
    ensures
        meta_parts(
            v.bare_content(),
            0,
            ReadConfig::spec_all(),
            MetaView { hdlr: None, ilst: None },
        ) == Ok::<MetaView, ErrorView>(v),
{
    let cfg = ReadConfig::spec_all();
    let none = MetaView { hdlr: None, ilst: None };
    let hb = match v.hdlr {
        Some(h) => Hdlr::bytes(h),
        None => Seq::empty(),
    };
    let ib = match v.ilst {
        Some(i) => Ilst::bytes(i),
        None => Seq::empty(),
    };
    let c = v.bare_content();
    let at1 = hb.len() as int;
    let after_hdlr = MetaView { hdlr: v.hdlr, ilst: None };
    if v.hdlr is Some {
        let h = v.hdlr->0;
        reveal(Hdlr::bytes);
        lemma_boxed_bounds(Ident(HANDLER_REFERENCE), h);
        assert(c.subrange(0, hb.len() as int) =~= hb);
        Hdlr::lemma_atom_round_trip(c, 0, h);
        assert(meta_parts(c, 0, cfg, none) == meta_parts(c, at1, cfg, after_hdlr));
    }
    if v.ilst is Some {
        let i = v.ilst->0;
        assert(c.subrange(at1, at1 + ib.len() as int) =~= ib);
        lemma_ilst_round_trip(c, at1, i);
        assert(meta_parts(c, at1, cfg, after_hdlr) == meta_parts(c, c.len() as int, cfg, v));
    } else {
        assert(v == after_hdlr);
    }
}

/// A metadata atom is read alike with and without the version and flags:
/// the content that is written of a metadata atom opens with four bytes of
/// zero, and reading the content without them, as some writers leave it,
/// gives the atom too.
pub proof fn lemma_meta_bare(v: MetaView)
    requires
        v.readable(),
        v.hdlr is Some || v.ilst is Some,
    ensures
        v.content_bytes() == zeros(4) + v.bare_content(),
        Meta::decode(v.bare_content(), ReadConfig::spec_all()) == Ok::<MetaView, ErrorView>(v),
{
    assert(v.content_bytes() =~= zeros(4) + v.bare_content());
    lemma_meta_bare_start(v);
    lemma_meta_bare_parts(v);
}

/// Reading a metadata atom back from where its bytes stand gives the atom.
pub proof fn lemma_meta_round_trip(c: Seq<u8>, p: int, v: MetaView)
    requires
        0 <= p,
        v.readable(),
        p + v.bytes().len() <= c.len(),
        c.subrange(p, p + v.bytes().len()) == v.bytes(),
    ensures
        crate::atom::base::child_at(c, p) is Ok,
        crate::atom::base::child_at(c, p)->Ok_0.fourcc == Ident(METADATA),
        crate::atom::base::child_at(c, p)->Ok_0.spec_size().len == v.bytes().len(),
        Meta::parsed(
            c,
            p + crate::atom::base::child_at(c, p)->Ok_0.spec_size().spec_head_len(),
            ReadConfig::spec_all(),
            crate::atom::base::child_at(c, p)->Ok_0.spec_size(),
        ) == Ok::<MetaView, ErrorView>(v),
{
    reveal(Meta::parsed);
    reveal(MetaView::bytes);
    lemma_boxed_child(c, p, Ident(METADATA), v.content_bytes());
    lemma_meta_decode(v);
}

} // verus!
