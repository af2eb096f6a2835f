//! The user data atom (`udta`).

use crate::atom::base::{boxed, child_at, content_of, fits, next_child, plain_of, read};
use crate::atom::base::{lemma_boxed_len, lemma_child_anchored, view_of, write_boxed, ReadConfig};
use crate::atom::meta::{lemma_meta_nested, lemma_meta_round_trip, Meta, MetaBounds, MetaView};
use crate::atom::base::lemma_boxed_child;
use crate::error::{annotate, eof, Error, ErrorView};
use crate::head::{bounds_at, find_bounds, AtomBounds, Size};
use crate::ident::{Ident, METADATA, USER_DATA};
use crate::reader::Reader;
use vstd::prelude::*;

verus! {

/// A user data atom: the metadata atom that it holds.
#[derive(Clone, Debug, PartialEq, Eq)]
pub struct Udta<'a> {
    /// The metadata atom.
    pub meta: Option<Meta<'a>>,
}

/// The mathematical value of a [`Udta`].
pub struct UdtaView {
    pub meta: Option<MetaView>,
}

impl<'a> View for Udta<'a> {
    type V = UdtaView;

    open spec fn view(&self) -> UdtaView {
        UdtaView {
            meta: match self.meta {
                Some(m) => Some(m@),
                None => None,
            },
        }
    }
}

/// Where a user data atom and the atoms that it holds lie in the file.
#[derive(Clone, Copy, Debug, PartialEq, Eq, Structural)]
pub struct UdtaBounds {
    /// The bounds of the atom.
    pub bounds: AtomBounds,
    /// Where the metadata atom lies.
    pub meta: Option<MetaBounds>,
}

/// What reading the children of a user data atom from position `p` of its
/// content `c` adds to what was read before. The metadata atom is read where
/// the tag is to be read; of several the last counts.
pub open spec fn udta_parts(c: Seq<u8>, p: int, cfg: ReadConfig, acc: UdtaView) -> Result<
    UdtaView,
    ErrorView,
>
    decreases c.len() - p,
{
    if p >= c.len() {
        Ok(acc)
    } else {
        match child_at(c, p) {
            Err(e) => Err(e),
            Ok(h) => {
                let size = h.spec_size();
                let cp = p + size.spec_head_len();
                let next = p + size.len;
                if h.fourcc == Ident(METADATA) && cfg.read_tag {
                    match Meta::parsed(c, cp, cfg, size) {
                        Err(e) => Err(e),
                        Ok(v) => udta_parts(c, next, cfg, UdtaView { meta: Some(v) }),
                    }
                } else {
                    udta_parts(c, next, cfg, acc)
                }
            },
        }
    }
}

/// What finding the children of a user data atom from position `p` of its
/// content `c`, which starts at position `base` of the file, adds to what
/// was found before.
pub open spec fn udta_found(c: Seq<u8>, p: int, base: int, acc: UdtaBounds) -> Result<
    UdtaBounds,
    ErrorView,
>
    decreases c.len() - p,
{
    if p >= c.len() {
        Ok(acc)
    } else {
        match child_at(c, p) {
            Err(e) => Err(e),
            Ok(h) => {
                let size = h.spec_size();
                let cp = p + size.spec_head_len();
                let next = p + size.len;
                if h.fourcc == Ident(METADATA) {
                    match Meta::found(c, cp, base, size) {
                        Err(e) => Err(e),
                        Ok(b) => udta_found(c, next, base, UdtaBounds { meta: Some(b), ..acc }),
                    }
                } else {
                    udta_found(c, next, base, acc)
                }
            },
        }
    }
}

impl UdtaBounds {
    /// What was found fits together and fits the file `f`: the atoms are
    /// atoms of the file, and the metadata atom and what it holds lie inside
    /// the content of the user data atom.
    pub open spec fn nested(self, f: Seq<u8>) -> bool {
        &&& self.bounds.anchored(f)
        &&& self.meta is Some ==> self.meta->0.nested(f) && self.bounds.holds(
            self.meta->0.bounds,
        )
    }
}

/// What is found in the content of a user data atom lies inside it.
pub proof fn lemma_udta_found_nested(f: Seq<u8>, c: Seq<u8>, p: int, base: int, acc: UdtaBounds)
    requires
        0 <= p,
        0 <= base,
        base + c.len() <= f.len(),
        f.len() <= u64::MAX,
        c == f.subrange(base, base + c.len()),
        acc.nested(f),
        acc.bounds.spec_content_pos() <= base,
        acc.bounds.spec_end() == base + c.len(),
    ensures
        udta_found(c, p, base, acc) is Ok ==> udta_found(c, p, base, acc)->Ok_0.nested(f)
            && udta_found(c, p, base, acc)->Ok_0.bounds == acc.bounds,
    decreases c.len() - p,
{
    if p < c.len() {
        match child_at(c, p) {
            Err(_) => {},
            Ok(h) => {
                lemma_child_anchored(f, c, base, p);
                let size = h.spec_size();
                let cp = p + size.spec_head_len();
                let next = p + size.len;
                if h.fourcc == Ident(METADATA) {
                    lemma_meta_nested(f, c, cp, base, size);
                    match Meta::found(c, cp, base, size) {
                        Err(_) => {},
                        Ok(b) => {
                            lemma_udta_found_nested(
                                f,
                                c,
                                next,
                                base,
                                UdtaBounds { meta: Some(b), ..acc },
                            );
                        },
                    }
                } else {
                    lemma_udta_found_nested(f, c, next, base, acc);
                }
            },
        }
    }
}

/// A user data atom that is found in the stream `s`, which is the part of
/// the file `f` from position `base` on, has the bounds that its head gives,
/// and what is found in it lies inside it.
pub proof fn lemma_udta_nested(f: Seq<u8>, s: Seq<u8>, p: int, base: int, size: Size)
    requires
        0 <= p,
        0 <= base,
        base + s.len() <= f.len(),
        f.len() <= u64::MAX,
        s == f.subrange(base, base + s.len()),
        bounds_at(base + p, size, Ident(USER_DATA)).anchored(f),
        base + p >= size.spec_head_len(),
    ensures
        Udta::found(s, p, base, size) is Ok ==> Udta::found(s, p, base, size)->Ok_0.nested(f)
            && Udta::found(s, p, base, size)->Ok_0.bounds == bounds_at(
            base + p,
            size,
            Ident(USER_DATA),
        ),
{
    reveal(Udta::found);
    match content_of(s, p, size) {
        None => {},
        Some(c) => {
            let init = UdtaBounds { bounds: bounds_at(base + p, size, Ident(USER_DATA)), meta: None };
            assert(c =~= f.subrange(base + p, base + p + c.len()));
            lemma_udta_found_nested(f, c, 0, base + p, init);
        },
    }
}

impl UdtaView {
    /// The content of the atom: the metadata atom.
    pub open spec fn content_bytes(self) -> Seq<u8> {
        match self.meta {
            Some(m) => m.bytes(),
            None => Seq::empty(),
        }
    }

    /// The bytes of the atom.
    #[verifier::opaque]
    pub open spec fn bytes(self) -> Seq<u8> {
        boxed(Ident(USER_DATA), self.content_bytes())
    }

    /// The atom can be written: its length is a number of 64 bits.
    pub open spec fn writable(self) -> bool {
        fits(self.content_bytes().len() as int)
    }
}

impl<'a> Udta<'a> {
    /// What the content `c` of a user data atom says.
    pub open spec fn decode(c: Seq<u8>, cfg: ReadConfig) -> Result<UdtaView, ErrorView> {
        udta_parts(c, 0, cfg, UdtaView { meta: None })
    }

    /// What reading a user data atom gives whose content starts at position
    /// `p` of the stream `s`.
    #[verifier::opaque]
    pub open spec fn parsed(s: Seq<u8>, p: int, cfg: ReadConfig, size: Size) -> Result<
        UdtaView,
        ErrorView,
    > {
        annotate(
            "parsing",
            Ident(USER_DATA),
            match content_of(s, p, size) {
                None => Err(eof()),
                Some(c) => Udta::decode(c, cfg),
            },
        )
    }

    /// Where the user data atom lies whose content `c` starts at position
    /// `base` of the file, and where the atoms lie that it holds.
    pub open spec fn locate(c: Seq<u8>, base: int, size: Size) -> Result<UdtaBounds, ErrorView> {
        udta_found(
            c,
            0,
            base,
            UdtaBounds { bounds: bounds_at(base, size, Ident(USER_DATA)), meta: None },
        )
    }

    /// What finding a user data atom gives whose content starts at position
    /// `p` of the stream `s`, which starts at position `base` of the file.
    #[verifier::opaque]
    pub open spec fn found(s: Seq<u8>, p: int, base: int, size: Size) -> Result<
        UdtaBounds,
        ErrorView,
    > {
        annotate(
            "parsing",
            Ident(USER_DATA),
            match content_of(s, p, size) {
                None => Err(eof()),
                Some(c) => Udta::locate(c, base + p, size),
            },
        )
    }

    /// Reads a user data atom: the cursor stands behind its head, which
    /// declared the size `size`.
    pub fn parse(reader: &mut Reader, cfg: &ReadConfig, size: Size) -> (r: Result<
        Udta<'static>,
        Error,
    >)
        requires
            old(reader).wf(),
            size.wf(),
        ensures
            read(
                Udta::parsed(old(reader).data@, old(reader).pos as int, *cfg, size),
                view_of(r),
                old(reader),
                final(reader),
                size.spec_content_len(),
            ),
    {
        proof {
            reveal(Udta::parsed);
        }
        let mut content = match reader.take(size.content_len()) {
            Ok(c) => c,
            Err(e) => {
                return Err(e.annotate("parsing", Ident(USER_DATA)));
            },
        };
        match Udta::parse_atom(&mut content, cfg) {
            Ok(v) => Ok(v),
            Err(e) => Err(e.annotate("parsing", Ident(USER_DATA))),
        }
    }

    /// Reads the content of a user data atom, which the cursor is over.
    pub fn parse_atom(content: &mut Reader, cfg: &ReadConfig) -> (r: Result<Udta<'static>, Error>)
        requires
            old(content).wf(),
            old(content).pos == 0,
        ensures
            view_of(r) == Udta::decode(old(content).data@, *cfg),
            final(content).same_stream(old(content)),
    {
        let ghost c = content.data@;
        let mut udta: Udta<'static> = Udta { meta: None };
        while content.remaining() > 0
            invariant
                content.same_stream(old(content)),
                c == content.data@,
                udta_parts(c, content.pos as int, *cfg, udta@) == Udta::decode(c, *cfg),
            decreases content.left(),
        {
            let head = match next_child(content) {
                Ok(h) => h,
                Err(e) => {
                    return Err(e);
                },
            };
            if head.fourcc.0 == METADATA && cfg.read_tag {
                match Meta::parse(content, cfg, head.size()) {
                    Ok(v) => {
                        udta.meta = Some(v);
                    },
                    Err(e) => {
                        return Err(e);
                    },
                }
            } else {
                match content.skip(head.content_len()) {
                    Ok(_) => {},
                    Err(e) => {
                        return Err(e);
                    },
                }
            }
        }
        Ok(udta)
    }

    /// Finds where a user data atom and the atoms that it holds lie: the
    /// cursor stands behind its head, which declared the size `size`.
    pub fn find(reader: &mut Reader, size: Size) -> (r: Result<UdtaBounds, Error>)
        requires
            old(reader).wf(),
            size.wf(),
            old(reader).abs() >= size.spec_head_len(),
        ensures
            read(
                Udta::found(
                    old(reader).data@,
                    old(reader).pos as int,
                    old(reader).base as int,
                    size,
                ),
                plain_of(r),
                old(reader),
                final(reader),
                size.spec_content_len(),
            ),
    {
        proof {
            reveal(Udta::found);
        }
        let mut content = match reader.take(size.content_len()) {
            Ok(c) => c,
            Err(e) => {
                return Err(e.annotate("parsing", Ident(USER_DATA)));
            },
        };
        match Udta::find_atom(&mut content, size) {
            Ok(v) => Ok(v),
            Err(e) => Err(e.annotate("parsing", Ident(USER_DATA))),
        }
    }

    /// Finds what the content of a user data atom holds, which the cursor is
    /// over.
    pub fn find_atom(content: &mut Reader, size: Size) -> (r: Result<UdtaBounds, Error>)
        requires
            old(content).wf(),
            old(content).pos == 0,
            size.wf(),
            old(content).base >= size.spec_head_len(),
            old(content).data@.len() == size.spec_content_len(),
        ensures
            plain_of(r) == Udta::locate(old(content).data@, old(content).base as int, size),
            final(content).same_stream(old(content)),
    {
        let ghost c = content.data@;
        let ghost base = content.base as int;
        let bounds = find_bounds(content, size, Ident(USER_DATA));
        let mut udta = UdtaBounds { bounds, meta: None };
        while content.remaining() > 0
            invariant
                content.same_stream(old(content)),
                c == content.data@,
                base == content.base,
                udta_found(c, content.pos as int, base, udta) == Udta::locate(c, base, size),
            decreases content.left(),
        {
            let head = match next_child(content) {
                Ok(h) => h,
                Err(e) => {
                    return Err(e);
                },
            };
            if head.fourcc.0 == METADATA {
                match Meta::find(content, head.size()) {
                    Ok(v) => {
                        udta.meta = Some(v);
                    },
                    Err(e) => {
                        return Err(e);
                    },
                }
            } else {
                match content.skip(head.content_len()) {
                    Ok(_) => {},
                    Err(e) => {
                        return Err(e);
                    },
                }
            }
        }
        Ok(udta)
    }

    /// The size of the atom.
    pub fn size(&self) -> (r: Size)
        requires
            self@.writable(),
        ensures
            r == Size::of(self@.content_bytes().len() as int),
            r.len == self@.bytes().len(),
    {
        proof {
            reveal(UdtaView::bytes);
        }
        match &self.meta {
            Some(m) => {
                proof {
                    reveal(MetaView::bytes);
                    lemma_boxed_len(Ident(METADATA), m@.content_bytes());
                }
                Size::from(m.len())
            },
            None => Size::from(0),
        }
    }

    /// The length of the atom in bytes.
    pub fn len(&self) -> (r: u64)
        requires
            self@.writable(),
        ensures
            r == self@.bytes().len(),
    {
        self.size().len()
    }

    /// Writes the atom.
    pub fn write(&self, out: &mut Vec<u8>)
        requires
            self@.writable(),
        ensures
            final(out)@ == old(out)@ + self@.bytes(),
    {
        proof {
            reveal(UdtaView::bytes);
        }
        let mut body: Vec<u8> = Vec::new();
        match &self.meta {
            Some(m) => {
                proof {
                    reveal(MetaView::bytes);
                    lemma_boxed_len(Ident(METADATA), m@.content_bytes());
                }
                m.write(&mut body);
            },
            None => {},
        }
        assert(body@ =~= self@.content_bytes());
        write_boxed(out, Ident(USER_DATA), &body);
    }
}

impl UdtaView {
    /// The atom can be read back from its bytes: it can be written, and its
    /// metadata atom can be read back.
    pub open spec fn readable(self) -> bool {
        &&& self.writable()
        &&& self.meta is Some ==> self.meta->0.readable()
    }
}

/// Reading a user data atom back from the content that is written of it
/// gives the atom.
pub proof fn lemma_udta_decode(v: UdtaView)
    requires
        v.readable(),
    ensures
        Udta::decode(v.content_bytes(), ReadConfig::spec_all()) == Ok::<UdtaView, ErrorView>(v),
{
    let c = v.content_bytes();
    if v.meta is Some {
        let m = v.meta->0;
        assert(c.subrange(0, c.len() as int) =~= c);
        lemma_meta_round_trip(c, 0, m);
        assert(udta_parts(c, 0, ReadConfig::spec_all(), UdtaView { meta: None }) == udta_parts(
            c,
            c.len() as int,
            ReadConfig::spec_all(),
            v,
        ));
    }
}

/// Reading a user data atom back from where its bytes stand gives the atom.
pub proof fn lemma_udta_round_trip(c: Seq<u8>, p: int, v: UdtaView)
    requires
        0 <= p,
        v.readable(),
        p + v.bytes().len() <= c.len(),
        c.subrange(p, p + v.bytes().len()) == v.bytes(),
    ensures
        child_at(c, p) is Ok,
        child_at(c, p)->Ok_0.fourcc == Ident(USER_DATA),
        child_at(c, p)->Ok_0.spec_size().len == v.bytes().len(),
        Udta::parsed(
            c,
            p + child_at(c, p)->Ok_0.spec_size().spec_head_len(),
            ReadConfig::spec_all(),
            child_at(c, p)->Ok_0.spec_size(),
        ) == Ok::<UdtaView, ErrorView>(v),
{
    reveal(Udta::parsed);
    reveal(UdtaView::bytes);
    lemma_boxed_child(c, p, Ident(USER_DATA), v.content_bytes());
    lemma_udta_decode(v);
}

} // verus!
