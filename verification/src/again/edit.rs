//! What the walks find in a rewritten file: the atoms around the metadata
//! with their new lengths, and the item list where it was written.

use crate::again::meta::{lemma_meta_at_target, lemma_meta_pos, lemma_meta_reach, lemma_meta_suffix};
use crate::again::lemma_subrange_twice;
use crate::codec::lemma_be_u32_of_bytes;
use crate::head::Head;
use crate::again::meta::{lemma_meta_through, lemma_meta_to_end, lemma_meta_transfer, meta_upto};
use crate::atom::base::{child_at, content_of, fits, found_at, lemma_boxed_bounds};
use crate::atom::base::lemma_boxed_child;
use crate::atom::hdlr::{Hdlr, HdlrBounds};
use crate::atom::ilst::{items_bytes, Ilst, IlstBounds};
use crate::atom::meta::{canonical_hdlr, children_start, meta_found, Meta, MetaBounds};
use crate::again::moov::{lemma_moov_through, lemma_moov_to_end, lemma_moov_transfer, moov_upto};
use crate::again::udta::{lemma_udta_through, lemma_udta_to_end, lemma_udta_transfer, udta_upto};
use crate::atom::base::{size_at, stands_at};
use crate::atom::metaitem::MetaItemView;
use crate::atom::moov::{moov_found, Moov, MoovBoundsView};
use crate::atom::udta::{udta_found, Udta, UdtaBounds, UdtaView};
use crate::ident::{MOVIE, USER_DATA};
use crate::rewrite::fresh_meta;
use crate::error::ErrorView;
use crate::head::{bounds_at, Size};
use crate::ident::{Ident, HANDLER_REFERENCE, ITEM_LIST, METADATA};
use crate::reader::at32;
use vstd::prelude::*;

verus! {

/// Where the item list lies that holds the items, where its head stands at
/// position `pos` of the file.
pub open spec fn new_ilst(pos: int, items: Seq<MetaItemView>) -> IlstBounds {
    IlstBounds {
        bounds: bounds_at(
            pos + Size::of(items_bytes(items).len() as int).spec_head_len(),
            Size::of(items_bytes(items).len() as int),
            Ident(ITEM_LIST),
        ),
    }
}

/// The atoms that are written into a metadata atom for the items: the item
/// list, with a handler reference before it where the metadata atom had
/// none.
pub open spec fn new_inner(hdlr_missing: bool, items: Seq<MetaItemView>) -> Seq<u8> {
    (if hdlr_missing {
        Hdlr::bytes(canonical_hdlr())
    } else {
        Seq::empty()
    }) + Ilst::bytes(items)
}

/// The position in the content of a metadata atom at which the new atoms
/// are written: that of the item list, or the end of the content.
pub open spec fn edit_pos(c: Seq<u8>, base: int, r: MetaBounds) -> int {
    if r.ilst is Some {
        r.ilst->0.bounds.pos - base
    } else {
        c.len() as int
    }
}

/// The length of what the new atoms take the place of: that of the item
/// list, or nothing.
pub open spec fn edit_len(r: MetaBounds) -> int {
    if r.ilst is Some {
        r.ilst->0.bounds.size.len as int
    } else {
        0
    }
}

/// The walk passes over a handler reference where its bytes stand, and
/// finds it.
pub proof fn lemma_meta_hdlr_step(c: Seq<u8>, p: int, base: int, acc: MetaBounds, v: Seq<u8>)
    requires
        0 <= p,
        0 <= base,
        base + c.len() <= u64::MAX,
        fits(v.len() as int),
        p + Hdlr::bytes(v).len() <= c.len(),
        c.subrange(p, p + Hdlr::bytes(v).len()) == Hdlr::bytes(v),
    ensures
        meta_found(c, p, base, acc) == meta_found(
            c,
            p + Hdlr::bytes(v).len(),
            base,
            MetaBounds {
                hdlr: Some(
                    HdlrBounds {
                        bounds: bounds_at(
                            base + p + Size::of(v.len() as int).spec_head_len(),
                            Size::of(v.len() as int),
                            Ident(HANDLER_REFERENCE),
                        ),
                    },
                ),
                ..acc
            },
        ),
{
    reveal(found_at);
    reveal(Hdlr::bytes);
    lemma_boxed_child(c, p, Ident(HANDLER_REFERENCE), v);
}

/// The walk passes over an item list where its bytes stand, and finds it.
pub proof fn lemma_meta_ilst_step(
    c: Seq<u8>,
    p: int,
    base: int,
    acc: MetaBounds,
    items: Seq<MetaItemView>,
)
    requires
        0 <= p,
        0 <= base,
        base + c.len() <= u64::MAX,
        Ilst::writable(items),
        p + Ilst::bytes(items).len() <= c.len(),
        c.subrange(p, p + Ilst::bytes(items).len()) == Ilst::bytes(items),
    ensures
        meta_found(c, p, base, acc) == meta_found(
            c,
            p + Ilst::bytes(items).len(),
            base,
            MetaBounds { ilst: Some(new_ilst(base + p, items)), ..acc },
        ),
        new_ilst(base + p, items).bounds.pos == base + p,
        new_ilst(base + p, items).bounds.spec_end() == base + p + Ilst::bytes(items).len(),
{
    reveal(found_at);
    reveal(Ilst::bytes);
    lemma_boxed_bounds(Ident(ITEM_LIST), items_bytes(items));
    lemma_boxed_child(c, p, Ident(ITEM_LIST), items_bytes(items));
}

/// The handler reference that is written where a metadata atom has none has
/// 33 bytes.
pub proof fn lemma_canonical_len()
    ensures
        Hdlr::bytes(canonical_hdlr()).len() == 33,
        Size::of(25) == (Size { ext: false, len: 33 }),
        canonical_hdlr().len() == 25,
{
    reveal(Hdlr::bytes);
    lemma_boxed_bounds(Ident(HANDLER_REFERENCE), canonical_hdlr());
    crate::atom::base::lemma_boxed_len(Ident(HANDLER_REFERENCE), canonical_hdlr());
}

/// The walk over the new atoms: the handler reference, where one was
/// written, and the item list are found where they stand.
pub proof fn lemma_meta_new_atoms(
    c: Seq<u8>,
    p: int,
    base: int,
    acc: MetaBounds,
    hdlr_missing: bool,
    items: Seq<MetaItemView>,
)
    requires
        0 <= p,
        0 <= base,
        base + c.len() <= u64::MAX,
        Ilst::writable(items),
        p + new_inner(hdlr_missing, items).len() <= c.len(),
        c.subrange(p, p + new_inner(hdlr_missing, items).len()) == new_inner(hdlr_missing, items),
        !hdlr_missing ==> acc.hdlr is Some,
    ensures
        ({
            let ipos = p + new_inner(hdlr_missing, items).len() - Ilst::bytes(items).len();
            let after = meta_found(
                c,
                p + new_inner(hdlr_missing, items).len(),
                base,
                MetaBounds {
                    hdlr: if hdlr_missing {
                        Some(
                            HdlrBounds {
                                bounds: bounds_at(
                                    base + p + 8,
                                    Size::of(25),
                                    Ident(HANDLER_REFERENCE),
                                ),
                            },
                        )
                    } else {
                        acc.hdlr
                    },
                    ilst: Some(new_ilst(base + ipos, items)),
                    ..acc
                },
            );
            &&& meta_found(c, p, base, acc) == after
            &&& new_ilst(base + ipos, items).bounds.pos == base + ipos
            &&& new_ilst(base + ipos, items).bounds.spec_end() == base + p + new_inner(
                hdlr_missing,
                items,
            ).len()
            &&& c.subrange(ipos, p + new_inner(hdlr_missing, items).len()) == Ilst::bytes(items)
        }),
{
    let new = new_inner(hdlr_missing, items);
    let ib = Ilst::bytes(items);
    if hdlr_missing {
        let hb = Hdlr::bytes(canonical_hdlr());
        lemma_canonical_len();
        assert(new == hb + ib);
        lemma_subrange_twice(c, p, p + new.len(), 0, 33);
        lemma_subrange_twice(c, p, p + new.len(), 33, new.len() as int);
        assert(new.subrange(0, 33) =~= hb);
        assert(new.subrange(33, new.len() as int) =~= ib);
        lemma_meta_hdlr_step(c, p, base, acc, canonical_hdlr());
        let acc1 = MetaBounds {
            hdlr: Some(
                HdlrBounds { bounds: bounds_at(base + p + 8, Size::of(25), Ident(HANDLER_REFERENCE)) },
            ),
            ..acc
        };
        lemma_meta_ilst_step(c, p + 33, base, acc1, items);
    } else {
        assert(new =~= ib);
        lemma_meta_ilst_step(c, p, base, acc, items);
    }
}

/// The walk over the content of a metadata atom into which the new atoms
/// were written finds a handler reference, and it finds the item list where
/// it was written.
pub proof fn lemma_meta_walk_again(
    c: Seq<u8>,
    other: Seq<u8>,
    st: int,
    base: int,
    init: MetaBounds,
    other_init: MetaBounds,
    items: Seq<MetaItemView>,
)
    requires
        0 <= st <= c.len(),
        0 <= base,
        base + c.len() <= u64::MAX,
        base + other.len() <= u64::MAX,
        meta_found(c, st, base, init) is Ok,
        init.hdlr is None,
        init.ilst is None,
        other_init.hdlr is None,
        other_init.ilst is None,
        Ilst::writable(items),
        ({
            let r = meta_found(c, st, base, init)->Ok_0;
            let q = edit_pos(c, base, r);
            let gone = edit_len(r);
            let new = new_inner(r.hdlr is None, items);
            &&& st <= q
            &&& other.len() == c.len() - gone + new.len()
            &&& other.subrange(0, q) == c.subrange(0, q)
            &&& other.subrange(q, q + new.len()) == new
            &&& other.subrange(q + new.len(), other.len() as int) == c.subrange(
                q + gone,
                c.len() as int,
            )
        }),
    ensures
        ({
            let r = meta_found(c, st, base, init)->Ok_0;
            let q = edit_pos(c, base, r);
            let new = new_inner(r.hdlr is None, items);
            let ipos = q + new.len() - Ilst::bytes(items).len();
            let again = meta_found(other, st, base, other_init);
            &&& again is Ok
            &&& again->Ok_0.hdlr is Some
            &&& again->Ok_0.ilst == Some(new_ilst(base + ipos, items))
            &&& again->Ok_0.bounds == other_init.bounds
            &&& new_ilst(base + ipos, items).bounds.pos == base + ipos
            &&& new_ilst(base + ipos, items).bounds.spec_end() == base + q + new.len()
            &&& other.subrange(ipos, q + new.len()) == Ilst::bytes(items)
        }),
{
    let r = meta_found(c, st, base, init)->Ok_0;
    let q = edit_pos(c, base, r);
    let gone = edit_len(r);
    let missing = r.hdlr is None;
    let new = new_inner(missing, items);
    if r.ilst is Some {
        lemma_meta_reach(c, st, q, base, init);
        lemma_meta_through(c, st, q, base, init);
        let mid = meta_upto(c, st, q, base, init)->0;
        lemma_meta_at_target(c, q, base, mid);
        reveal(found_at);
        let size = child_at(c, q)->Ok_0.spec_size();
        assert(size == r.ilst->0.bounds.size);
        let after = MetaBounds { ilst: r.ilst, ..mid };
        assert(meta_found(c, q + gone, base, after) == Ok::<MetaBounds, ErrorView>(r));
        lemma_meta_transfer(c, other, st, q, base, init, other_init);
        lemma_meta_through(other, st, q, base, other_init);
        let mid2 = meta_upto(other, st, q, base, other_init)->0;
        assert(!missing ==> mid2.hdlr is Some || mid.hdlr is None);
        if !missing && mid.hdlr is None {
            // the handler reference lies behind the item list
            let acc2 = MetaBounds {
                ilst: Some(new_ilst(base + q, items)),
                ..mid2
            };
            lemma_meta_new_atoms_behind(other, q, base, mid2, items);
            lemma_meta_suffix(c, q + gone, base, after, other, q + new.len(), base, acc2);
        } else {
            lemma_meta_new_atoms(other, q, base, mid2, missing, items);
            let ipos = q + new.len() - Ilst::bytes(items).len();
            let acc2 = MetaBounds {
                hdlr: if missing {
                    Some(
                        HdlrBounds {
                            bounds: bounds_at(base + q + 8, Size::of(25), Ident(HANDLER_REFERENCE)),
                        },
                    )
                } else {
                    mid2.hdlr
                },
                ilst: Some(new_ilst(base + ipos, items)),
                ..mid2
            };
            lemma_meta_suffix(c, q + gone, base, after, other, q + new.len(), base, acc2);
        }
        crate::again::lemma_meta_found_bounds(other, st, base, other_init);
    } else {
        lemma_meta_to_end(c, st, base, init);
        lemma_meta_transfer(c, other, st, q, base, init, other_init);
        lemma_meta_through(other, st, q, base, other_init);
        let mid2 = meta_upto(other, st, q, base, other_init)->0;
        lemma_meta_new_atoms(other, q, base, mid2, missing, items);
        crate::again::lemma_meta_found_bounds(other, st, base, other_init);
    }
}

/// The walk over a new item list alone, where a handler reference is not
/// yet found but the metadata atom has one behind the item list.
pub proof fn lemma_meta_new_atoms_behind(
    c: Seq<u8>,
    p: int,
    base: int,
    acc: MetaBounds,
    items: Seq<MetaItemView>,
)
    requires
        0 <= p,
        0 <= base,
        base + c.len() <= u64::MAX,
        Ilst::writable(items),
        p + Ilst::bytes(items).len() <= c.len(),
        c.subrange(p, p + new_inner(false, items).len()) == new_inner(false, items),
    ensures
        meta_found(c, p, base, acc) == meta_found(
            c,
            p + Ilst::bytes(items).len(),
            base,
            MetaBounds { ilst: Some(new_ilst(base + p, items)), ..acc },
        ),
        new_ilst(base + p, items).bounds.pos == base + p,
        new_ilst(base + p, items).bounds.spec_end() == base + p + Ilst::bytes(items).len(),
        c.subrange(p, p + Ilst::bytes(items).len()) == Ilst::bytes(items),
{
    reveal(found_at);
    reveal(Ilst::bytes);
    let ib = Ilst::bytes(items);
    assert(new_inner(false, items) =~= ib);
    lemma_boxed_bounds(Ident(ITEM_LIST), items_bytes(items));
    lemma_boxed_child(c, p, Ident(ITEM_LIST), items_bytes(items));
}

/// The first eight bytes of an atom hold its length, or 1 where the head is
/// extended, and its identifier.
pub proof fn lemma_boxed_head(fourcc: Ident, content: Seq<u8>)
    requires
        fits(content.len() as int),
    ensures
        boxed_len(fourcc, content) >= 8,
        at32(crate::atom::base::boxed(fourcc, content), 4) == fourcc.0,
        at32(crate::atom::base::boxed(fourcc, content), 0) == (if Size::of(
            content.len() as int,
        ).ext {
            1
        } else {
            Size::of(content.len() as int).len as int
        }),
{
    let size = Size::of(content.len() as int);
    let h = Head::of(size, fourcc);
    let b = crate::atom::base::boxed(fourcc, content);
    assert(b.subrange(0, 4) =~= h.bytes().subrange(0, 4));
    assert(b.subrange(4, 8) =~= h.bytes().subrange(4, 8));
    assert(h.bytes().subrange(4, 8) =~= fourcc.bytes());
    lemma_be_u32_of_bytes(fourcc.0);
    lemma_be_u32_of_bytes(h.size);
    assert(h.bytes().subrange(0, 4) =~= crate::codec::u32_be(h.size));
}

/// The length of an atom with the given identifier and content.
pub open spec fn boxed_len(fourcc: Ident, content: Seq<u8>) -> int {
    crate::atom::base::boxed(fourcc, content).len() as int
}

/// The length of the item list atom is no number that reads as the
/// identifier `hdlr` or `ilst`.
pub open spec fn plain_len(items: Seq<MetaItemView>) -> bool {
    Ilst::bytes(items).len() != HANDLER_REFERENCE && Ilst::bytes(items).len() != ITEM_LIST
}

/// The first eight bytes of the atoms that are written into a metadata
/// atom: the identifier is `hdlr` or `ilst`, and the length is no number
/// that reads as one of the two.
pub proof fn lemma_new_inner_head(hdlr_missing: bool, items: Seq<MetaItemView>)
    requires
        Ilst::writable(items),
        plain_len(items),
    ensures
        new_inner(hdlr_missing, items).len() >= 8,
        at32(new_inner(hdlr_missing, items), 4) == HANDLER_REFERENCE || at32(
            new_inner(hdlr_missing, items),
            4,
        ) == ITEM_LIST,
        at32(new_inner(hdlr_missing, items), 0) != HANDLER_REFERENCE,
        at32(new_inner(hdlr_missing, items), 0) != ITEM_LIST,
{
    reveal(Hdlr::bytes);
    reveal(Ilst::bytes);
    let new = new_inner(hdlr_missing, items);
    lemma_boxed_bounds(Ident(ITEM_LIST), items_bytes(items));
    lemma_boxed_head(Ident(ITEM_LIST), items_bytes(items));
    lemma_boxed_head(Ident(HANDLER_REFERENCE), canonical_hdlr());
    if hdlr_missing {
        let hb = Hdlr::bytes(canonical_hdlr());
        assert(new.subrange(0, 4) =~= hb.subrange(0, 4));
        assert(new.subrange(4, 8) =~= hb.subrange(4, 8));
    } else {
        assert(new =~= Ilst::bytes(items));
    }
}

/// Where the children start in the content of a metadata atom into which
/// the new atoms were written: where they started before.
pub proof fn lemma_children_start_again(
    c: Seq<u8>,
    other: Seq<u8>,
    q: int,
    hdlr_missing: bool,
    items: Seq<MetaItemView>,
)
    requires
        children_start(c) is Ok,
        children_start(c)->Ok_0 <= q <= c.len(),
        q == children_start(c)->Ok_0 || q >= children_start(c)->Ok_0 + 8,
        Ilst::writable(items),
        plain_len(items),
        q + new_inner(hdlr_missing, items).len() <= other.len(),
        other.subrange(0, q) == c.subrange(0, q),
        other.subrange(q, q + new_inner(hdlr_missing, items).len()) == new_inner(
            hdlr_missing,
            items,
        ),
    ensures
        children_start(other) == children_start(c),
{
    let st = children_start(c)->Ok_0;
    let new = new_inner(hdlr_missing, items);
    lemma_new_inner_head(hdlr_missing, items);
    let a = c.subrange(0, q);
    let b = other.subrange(0, q);
    if q >= st + 8 {
        assert(other.subrange(4, 8) =~= b.subrange(4, 8));
        assert(c.subrange(4, 8) =~= a.subrange(4, 8));
        assert(other[0] == b[0]);
        assert(c[0] == a[0]);
    } else {
        let n = other.subrange(q, q + new.len());
        assert(other.subrange(q, q + 4) =~= n.subrange(0, 4));
        assert(other.subrange(q + 4, q + 8) =~= n.subrange(4, 8));
        if st == 4 {
            assert(other[0] == b[0]);
            assert(c[0] == a[0]);
        }
    }
}

/// Where the new atoms are written into the content of a metadata atom: at
/// the place of an atom that the walk comes to, or at the end.
pub proof fn lemma_meta_edit_pos(c: Seq<u8>, st: int, base: int, init: MetaBounds)
    requires
        0 <= st <= c.len(),
        0 <= base,
        base + c.len() <= u64::MAX,
        meta_found(c, st, base, init) is Ok,
        init.ilst is None,
    ensures
        ({
            let r = meta_found(c, st, base, init)->Ok_0;
            let q = edit_pos(c, base, r);
            &&& st <= q <= c.len()
            &&& q == st || q >= st + 8
            &&& q + edit_len(r) <= c.len()
        }),
{
    let r = meta_found(c, st, base, init)->Ok_0;
    let q = edit_pos(c, base, r);
    lemma_meta_pos(c, st, base, init);
    if r.ilst is Some {
        lemma_meta_reach(c, st, q, base, init);
        lemma_meta_through(c, st, q, base, init);
        lemma_meta_at_target(c, q, base, meta_upto(c, st, q, base, init)->0);
        reveal(found_at);
    } else {
        lemma_meta_to_end(c, st, base, init);
    }
    if q != st {
        crate::again::meta::lemma_meta_step(c, st, q, base, init);
    }
}

/// The content of a metadata atom into which the new atoms were written
/// is found again, with a handler reference and with the item list where it
/// was written.
pub proof fn lemma_meta_locate_again(
    c: Seq<u8>,
    other: Seq<u8>,
    base: int,
    size: Size,
    other_size: Size,
    items: Seq<MetaItemView>,
)
    requires
        0 <= base,
        base + c.len() <= u64::MAX,
        base + other.len() <= u64::MAX,
        Meta::locate(c, base, size) is Ok,
        Ilst::writable(items),
        plain_len(items),
        ({
            let m = Meta::locate(c, base, size)->Ok_0;
            let q = edit_pos(c, base, m);
            let gone = edit_len(m);
            let new = new_inner(m.hdlr is None, items);
            &&& other.len() == c.len() - gone + new.len()
            &&& other.subrange(0, q) == c.subrange(0, q)
            &&& other.subrange(q, q + new.len()) == new
            &&& other.subrange(q + new.len(), other.len() as int) == c.subrange(
                q + gone,
                c.len() as int,
            )
        }),
    ensures
        ({
            let m = Meta::locate(c, base, size)->Ok_0;
            let q = edit_pos(c, base, m);
            let new = new_inner(m.hdlr is None, items);
            let ipos = q + new.len() - Ilst::bytes(items).len();
            let again = Meta::locate(other, base, other_size);
            &&& again is Ok
            &&& again->Ok_0.hdlr is Some
            &&& again->Ok_0.ilst == Some(new_ilst(base + ipos, items))
            &&& again->Ok_0.bounds == bounds_at(base, other_size, Ident(METADATA))
            &&& new_ilst(base + ipos, items).bounds.pos == base + ipos
            &&& new_ilst(base + ipos, items).bounds.spec_end() == base + q + new.len()
            &&& other.subrange(ipos, q + new.len()) == Ilst::bytes(items)
            &&& 0 <= q
            &&& q + edit_len(m) <= c.len()
        }),
{
    let m = Meta::locate(c, base, size)->Ok_0;
    let st = children_start(c)->Ok_0;
    let init = MetaBounds { bounds: bounds_at(base, size, Ident(METADATA)), hdlr: None, ilst: None };
    let init2 = MetaBounds {
        bounds: bounds_at(base, other_size, Ident(METADATA)),
        hdlr: None,
        ilst: None,
    };
    let q = edit_pos(c, base, m);
    lemma_meta_edit_pos(c, st, base, init);
    lemma_children_start_again(c, other, q, m.hdlr is None, items);
    lemma_meta_walk_again(c, other, st, base, init, init2, items);
}

/// A metadata atom into which the new atoms were written is found again,
/// with a handler reference and with the item list where it was written.
/// `e` is the position in the stream at which the new atoms were written.
#[verifier::rlimit(40)]
pub proof fn lemma_meta_again(
    s: Seq<u8>,
    other: Seq<u8>,
    p: int,
    base: int,
    size: Size,
    other_size: Size,
    e: int,
    items: Seq<MetaItemView>,
)
    requires
        0 <= p,
        0 <= base,
        base + s.len() <= u64::MAX,
        base + other.len() <= u64::MAX,
        size.wf(),
        other_size.wf(),
        Meta::found(s, p, base, size) is Ok,
        Ilst::writable(items),
        plain_len(items),
        e == (if Meta::found(s, p, base, size)->Ok_0.ilst is Some {
            Meta::found(s, p, base, size)->Ok_0.ilst->0.bounds.pos - base
        } else {
            p + size.spec_content_len()
        }),
        other_size.spec_content_len() == size.spec_content_len() - edit_len(
            Meta::found(s, p, base, size)->Ok_0,
        ) + new_inner(Meta::found(s, p, base, size)->Ok_0.hdlr is None, items).len(),
        p + other_size.spec_content_len() <= other.len(),
        other.subrange(p, e) == s.subrange(p, e),
        other.subrange(
            e,
            e + new_inner(Meta::found(s, p, base, size)->Ok_0.hdlr is None, items).len(),
        ) == new_inner(Meta::found(s, p, base, size)->Ok_0.hdlr is None, items),
        other.subrange(
            e + new_inner(Meta::found(s, p, base, size)->Ok_0.hdlr is None, items).len(),
            p + other_size.spec_content_len(),
        ) == s.subrange(
            e + edit_len(Meta::found(s, p, base, size)->Ok_0),
            p + size.spec_content_len(),
        ),
    ensures
        Meta::found(other, p, base, other_size) is Ok,
        Meta::found(other, p, base, other_size)->Ok_0.hdlr is Some,
        Meta::found(other, p, base, other_size)->Ok_0.ilst == Some(
            new_ilst(
                base + e + new_inner(
                    Meta::found(s, p, base, size)->Ok_0.hdlr is None,
                    items,
                ).len() - Ilst::bytes(items).len(),
                items,
            ),
        ),
        Meta::found(other, p, base, other_size)->Ok_0.bounds == bounds_at(
            base + p,
            other_size,
            Ident(METADATA),
        ),
        other.subrange(
            e + new_inner(Meta::found(s, p, base, size)->Ok_0.hdlr is None, items).len()
                - Ilst::bytes(items).len(),
            e + new_inner(Meta::found(s, p, base, size)->Ok_0.hdlr is None, items).len(),
        ) == Ilst::bytes(items),
        p <= e,
        e + edit_len(Meta::found(s, p, base, size)->Ok_0) <= p + size.spec_content_len(),
{
    reveal(Meta::found);
    let m = Meta::found(s, p, base, size)->Ok_0;
    let c = s.subrange(p, p + size.spec_content_len());
    let c2 = other.subrange(p, p + other_size.spec_content_len());
    let new = new_inner(m.hdlr is None, items);
    let gone = edit_len(m);
    let q = e - p;
    assert(content_of(s, p, size) == Some(c));
    assert(content_of(other, p, other_size) == Some(c2));
    assert(Meta::locate(c, base + p, size) == Ok::<MetaBounds, ErrorView>(m));
    assert(q == edit_pos(c, base + p, m));
    lemma_meta_edit_pos(
        c,
        children_start(c)->Ok_0,
        base + p,
        MetaBounds { bounds: bounds_at(base + p, size, Ident(METADATA)), hdlr: None, ilst: None },
    );
    let n = size.spec_content_len();
    let n2 = other_size.spec_content_len();
    lemma_subrange_twice(other, p, p + n2, 0, q);
    lemma_subrange_twice(s, p, p + n, 0, q);
    lemma_subrange_twice(other, p, p + n2, q, q + new.len());
    lemma_subrange_twice(other, p, p + n2, q + new.len(), n2);
    lemma_subrange_twice(s, p, p + n, q + gone, n);
    lemma_meta_locate_again(c, c2, base + p, size, other_size, items);
    let ipos = q + new.len() - Ilst::bytes(items).len();
    lemma_subrange_twice(other, p, p + n2, ipos, q + new.len());
}

/// A metadata atom that was written for the items is found, with its
/// handler reference and its item list.
#[verifier::rlimit(40)]
pub proof fn lemma_meta_fresh(s: Seq<u8>, p: int, base: int, items: Seq<MetaItemView>)
    requires
        0 <= p,
        0 <= base,
        base + s.len() <= u64::MAX,
        Ilst::writable(items),
        fits(crate::rewrite::fresh_meta(items).content_bytes().len() as int),
        p + crate::rewrite::fresh_meta(items).bytes().len() <= s.len(),
        s.subrange(p, p + crate::rewrite::fresh_meta(items).bytes().len())
            == crate::rewrite::fresh_meta(items).bytes(),
    ensures
        ({
            let content = crate::rewrite::fresh_meta(items).content_bytes();
            let size = Size::of(content.len() as int);
            let cp = p + size.spec_head_len();
            let ipos = cp + 4 + 33;
            let again = Meta::found(s, cp, base, size);
            &&& crate::atom::base::stands_at(
                s,
                p,
                Ident(METADATA),
                crate::rewrite::fresh_meta(items).bytes().len() as int,
            )
            &&& crate::atom::base::size_at(s, p) == size
            &&& again is Ok
            &&& again->Ok_0.hdlr is Some
            &&& again->Ok_0.ilst == Some(new_ilst(base + ipos, items))
            &&& new_ilst(base + ipos, items).bounds.pos == base + ipos
            &&& new_ilst(base + ipos, items).bounds.spec_end() == base + cp + content.len()
            &&& s.subrange(ipos, cp + content.len()) == Ilst::bytes(items)
        }),
{
    reveal(Meta::found);
    reveal(crate::atom::meta::MetaView::bytes);
    reveal(Hdlr::bytes);
    let v = crate::rewrite::fresh_meta(items);
    let content = v.content_bytes();
    lemma_boxed_child(s, p, Ident(METADATA), content);
    let size = Size::of(content.len() as int);
    let cp = p + size.spec_head_len();
    let new = new_inner(true, items);
    lemma_boxed_bounds(Ident(HANDLER_REFERENCE), canonical_hdlr());
    assert(content =~= crate::atom::zeros(4) + new);
    assert(content.subrange(4, 4 + new.len() as int) =~= new);
    lemma_boxed_head(Ident(HANDLER_REFERENCE), canonical_hdlr());
    assert(content.subrange(4, 8) =~= Hdlr::bytes(canonical_hdlr()).subrange(0, 4));
    assert(children_start(content) == Ok::<int, ErrorView>(4));
    let init = MetaBounds {
        bounds: bounds_at(base + cp, size, Ident(METADATA)),
        hdlr: None,
        ilst: None,
    };
    lemma_meta_new_atoms(content, 4, base + cp, init, true, items);
    lemma_subrange_twice(s, cp, cp + content.len(), 37, content.len() as int);
}

/// The length of an atom covers its head, and it fits the form of the head.
pub open spec fn fits_head(size: Size) -> bool {
    size.wf() && (!size.ext ==> size.len <= u32::MAX)
}

/// What was found of a metadata atom has a handler reference, and it has
/// the item list of the items at position `ipos` of the file.
pub open spec fn carried_meta(m: MetaBounds, ipos: int, items: Seq<MetaItemView>) -> bool {
    m.hdlr is Some && m.ilst == Some(new_ilst(ipos, items))
}

/// What was found of a user data atom has a metadata atom with a handler
/// reference and with the item list of the items at position `ipos` of the
/// file.
pub open spec fn carried_udta(u: UdtaBounds, ipos: int, items: Seq<MetaItemView>) -> bool {
    u.meta is Some && carried_meta(u.meta->0, ipos, items) && fits_head(u.meta->0.bounds.size)
}

/// What was found of a movie atom leads to a handler reference and to the
/// item list of the items at position `ipos` of the file.
pub open spec fn carried_moov(v: MoovBoundsView, ipos: int, items: Seq<MetaItemView>) -> bool {
    v.udta is Some && carried_udta(v.udta->0, ipos, items) && fits_head(v.udta->0.bounds.size)
}

/// The item list of the items stands at position `ipos` of the bytes `g`.
pub open spec fn written_at(g: Seq<u8>, ipos: int, items: Seq<MetaItemView>) -> bool {
    &&& 0 <= ipos
    &&& ipos + Ilst::bytes(items).len() <= g.len()
    &&& g.subrange(ipos, ipos + Ilst::bytes(items).len()) == Ilst::bytes(items)
    &&& new_ilst(ipos, items).bounds.pos == ipos
    &&& new_ilst(ipos, items).bounds.spec_end() == ipos + Ilst::bytes(items).len()
}

/// The user data atom that is written where a movie atom has none.
pub open spec fn fresh_udta(items: Seq<MetaItemView>) -> UdtaView {
    UdtaView { meta: Some(fresh_meta(items)) }
}

/// The position of the item list in a metadata atom that was written for
/// the items, where the head of the metadata atom stands at position `p`.
pub open spec fn fresh_meta_ipos(p: int, items: Seq<MetaItemView>) -> int {
    p + Size::of(fresh_meta(items).content_bytes().len() as int).spec_head_len() + 37
}

/// The position of the item list in a user data atom that was written for
/// the items, where the head of the user data atom stands at position `p`.
pub open spec fn fresh_udta_ipos(p: int, items: Seq<MetaItemView>) -> int {
    fresh_meta_ipos(
        p + Size::of(fresh_udta(items).content_bytes().len() as int).spec_head_len(),
        items,
    )
}

/// A metadata atom that was written for the items is found where it
/// stands in a stream that starts at the start of the file.
#[verifier::rlimit(40)]
pub proof fn lemma_meta_fresh_at(s: Seq<u8>, p: int, items: Seq<MetaItemView>)
    requires
        0 <= p,
        s.len() <= u64::MAX,
        Ilst::writable(items),
        fits(fresh_meta(items).content_bytes().len() as int),
        p + fresh_meta(items).bytes().len() <= s.len(),
        s.subrange(p, p + fresh_meta(items).bytes().len()) == fresh_meta(items).bytes(),
    ensures
        stands_at(s, p, Ident(METADATA), fresh_meta(items).bytes().len() as int),
        Meta::found(s, crate::atom::base::content_at(s, p), 0, size_at(s, p)) is Ok,
        carried_meta(
            Meta::found(s, crate::atom::base::content_at(s, p), 0, size_at(s, p))->Ok_0,
            fresh_meta_ipos(p, items),
            items,
        ),
        written_at(s, fresh_meta_ipos(p, items), items),
        fresh_meta_ipos(p, items) + Ilst::bytes(items).len() == p + fresh_meta(items).bytes().len(),
        size_at(s, p) == Size::of(fresh_meta(items).content_bytes().len() as int),
{
    lemma_meta_fresh(s, p, 0, items);
    reveal(crate::atom::meta::MetaView::bytes);
    reveal(Hdlr::bytes);
    lemma_boxed_bounds(Ident(HANDLER_REFERENCE), canonical_hdlr());
    crate::atom::base::lemma_boxed_len(Ident(METADATA), fresh_meta(items).content_bytes());
}

/// A user data atom that was written for the items is found where it
/// stands.
#[verifier::rlimit(40)]
pub proof fn lemma_udta_fresh_at(s: Seq<u8>, p: int, items: Seq<MetaItemView>)
    requires
        0 <= p,
        s.len() <= u64::MAX,
        Ilst::writable(items),
        fits(fresh_meta(items).content_bytes().len() as int),
        fits(fresh_udta(items).content_bytes().len() as int),
        p + fresh_udta(items).bytes().len() <= s.len(),
        s.subrange(p, p + fresh_udta(items).bytes().len()) == fresh_udta(items).bytes(),
    ensures
        stands_at(s, p, Ident(USER_DATA), fresh_udta(items).bytes().len() as int),
        Udta::found(s, crate::atom::base::content_at(s, p), 0, size_at(s, p)) is Ok,
        carried_udta(
            Udta::found(s, crate::atom::base::content_at(s, p), 0, size_at(s, p))->Ok_0,
            fresh_udta_ipos(p, items),
            items,
        ),
        written_at(s, fresh_udta_ipos(p, items), items),
        size_at(s, p) == Size::of(fresh_udta(items).content_bytes().len() as int),
{
    reveal(Udta::found);
    reveal(UdtaView::bytes);
    let v = fresh_udta(items);
    let content = v.content_bytes();
    lemma_boxed_child(s, p, Ident(USER_DATA), content);
    crate::atom::base::lemma_boxed_len(Ident(USER_DATA), content);
    let size = Size::of(content.len() as int);
    let cp = p + size.spec_head_len();
    assert(content == fresh_meta(items).bytes());
    lemma_subrange_twice(
        s,
        p,
        p + v.bytes().len(),
        size.spec_head_len() as int,
        v.bytes().len() as int,
    );
    assert(s.subrange(cp, cp + content.len()) == content);
    lemma_meta_fresh_at(s, cp, items);
    let msize = size_at(s, cp);
    let mcp = crate::atom::base::content_at(s, cp);
    let m2 = Meta::found(s, mcp, 0, msize)->Ok_0;
    crate::again::lemma_meta_bounds(s, mcp, 0, msize);
    let c = content;
    // the walk over the content of the user data atom
    crate::again::lemma_child_at_prefix_of(s, cp, cp + content.len(), 0);
    lemma_subrange_twice(
        s,
        cp,
        cp + content.len(),
        msize.spec_head_len() as int,
        content.len() as int,
    );
    crate::again::lemma_found_local(s, c, mcp, mcp - cp, 0, msize);
    let init = UdtaBounds { bounds: bounds_at(cp, size, Ident(USER_DATA)), meta: None };
    assert(udta_found(c, 0, cp, init) == udta_found(
        c,
        c.len() as int,
        cp,
        UdtaBounds { meta: Some(m2), ..init },
    ));
}

/// A user data atom that had no metadata atom, and at the end of which one
/// was written for the items, is found again with it.
#[verifier::spinoff_prover]
#[verifier::rlimit(60)]
pub proof fn lemma_udta_append(
    s: Seq<u8>,
    other: Seq<u8>,
    p: int,
    size: Size,
    other_size: Size,
    items: Seq<MetaItemView>,
)
    requires
        0 <= p,
        s.len() <= u64::MAX,
        other.len() <= u64::MAX,
        size.wf(),
        other_size.wf(),
        Udta::found(s, p, 0, size) is Ok,
        Udta::found(s, p, 0, size)->Ok_0.meta is None,
        Ilst::writable(items),
        fits(fresh_meta(items).content_bytes().len() as int),
        other_size.spec_content_len() == size.spec_content_len() + fresh_meta(items).bytes().len(),
        p + other_size.spec_content_len() <= other.len(),
        other.subrange(p, p + size.spec_content_len()) == s.subrange(
            p,
            p + size.spec_content_len(),
        ),
        other.subrange(p + size.spec_content_len(), p + other_size.spec_content_len())
            == fresh_meta(items).bytes(),
    ensures
        Udta::found(other, p, 0, other_size) is Ok,
        carried_udta(
            Udta::found(other, p, 0, other_size)->Ok_0,
            fresh_meta_ipos(p + size.spec_content_len(), items),
            items,
        ),
        written_at(other, fresh_meta_ipos(p + size.spec_content_len(), items), items),
        Udta::found(other, p, 0, other_size)->Ok_0.bounds == bounds_at(
            p,
            other_size,
            Ident(USER_DATA),
        ),
{
    let n = size.spec_content_len();
    let n2 = other_size.spec_content_len();
    let c = s.subrange(p, p + n);
    let c2 = other.subrange(p, p + n2);
    let init = UdtaBounds { bounds: bounds_at(p, size, Ident(USER_DATA)), meta: None };
    let init2 = UdtaBounds { bounds: bounds_at(p, other_size, Ident(USER_DATA)), meta: None };
    crate::again::lemma_found_fits(s, p, 0, size);
    crate::again::lemma_udta_found_walk(s, p, 0, size);
    crate::again::lemma_udta_found_walk(other, p, 0, other_size);
    lemma_udta_to_end(c, 0, p, init);
    lemma_subrange_twice(other, p, p + n2, 0, n);
    assert(c.subrange(0, n) =~= c);
    lemma_udta_transfer(c, c2, 0, n, p, init, init2);
    lemma_udta_through(c2, 0, n, p, init2);
    let mid2 = udta_upto(c2, 0, n, p, init2)->0;
    lemma_meta_fresh_at(other, p + n, items);
    let size_m = size_at(other, p + n);
    let hl = size_m.spec_head_len() as int;
    crate::again::lemma_child_at_prefix_of(other, p, p + n2, n);
    lemma_subrange_twice(other, p, p + n2, n + hl, n2);
    assert(content_of(other, p + n + hl, size_m) == content_of(c2, n + hl, size_m));
    crate::again::lemma_found_local(other, c2, p + n + hl, n + hl, 0, size_m);
    let m2 = Meta::found(other, p + n + hl, 0, size_m)->Ok_0;
    crate::again::lemma_meta_bounds(other, p + n + hl, 0, size_m);
    assert(udta_found(c2, n, p, mid2) == udta_found(
        c2,
        n2,
        p,
        UdtaBounds { meta: Some(m2), ..mid2 },
    ));
    crate::again::lemma_udta_found_bounds(c2, 0, p, init2);
}

/// A movie atom that had no user data atom, and at the end of which one was
/// written for the items, is found again with it.
#[verifier::spinoff_prover]
#[verifier::rlimit(60)]
pub proof fn lemma_moov_append(
    s: Seq<u8>,
    other: Seq<u8>,
    p: int,
    size: Size,
    other_size: Size,
    items: Seq<MetaItemView>,
)
    requires
        0 <= p,
        s.len() <= u64::MAX,
        other.len() <= u64::MAX,
        size.wf(),
        other_size.wf(),
        Moov::found(s, p, 0, size) is Ok,
        Moov::found(s, p, 0, size)->Ok_0.udta is None,
        Ilst::writable(items),
        fits(fresh_meta(items).content_bytes().len() as int),
        fits(fresh_udta(items).content_bytes().len() as int),
        other_size.spec_content_len() == size.spec_content_len() + fresh_udta(items).bytes().len(),
        p + other_size.spec_content_len() <= other.len(),
        other.subrange(p, p + size.spec_content_len()) == s.subrange(
            p,
            p + size.spec_content_len(),
        ),
        other.subrange(p + size.spec_content_len(), p + other_size.spec_content_len())
            == fresh_udta(items).bytes(),
    ensures
        Moov::found(other, p, 0, other_size) is Ok,
        carried_moov(
            Moov::found(other, p, 0, other_size)->Ok_0,
            fresh_udta_ipos(p + size.spec_content_len(), items),
            items,
        ),
        written_at(other, fresh_udta_ipos(p + size.spec_content_len(), items), items),
        Moov::found(other, p, 0, other_size)->Ok_0.bounds == bounds_at(
            p,
            other_size,
            Ident(MOVIE),
        ),
{
    let n = size.spec_content_len();
    let n2 = other_size.spec_content_len();
    let c = s.subrange(p, p + n);
    let c2 = other.subrange(p, p + n2);
    let init = MoovBoundsView {
        bounds: bounds_at(p, size, Ident(MOVIE)),
        trak: Seq::empty(),
        udta: None,
    };
    let init2 = MoovBoundsView {
        bounds: bounds_at(p, other_size, Ident(MOVIE)),
        trak: Seq::empty(),
        udta: None,
    };
    crate::again::lemma_found_fits(s, p, 0, size);
    crate::again::lemma_moov_found_walk(s, p, 0, size);
    crate::again::lemma_moov_found_walk(other, p, 0, other_size);
    lemma_moov_to_end(c, 0, p, init);
    lemma_subrange_twice(other, p, p + n2, 0, n);
    assert(c.subrange(0, n) =~= c);
    lemma_moov_transfer(c, c2, 0, n, p, init, init2);
    lemma_moov_through(c2, 0, n, p, init2);
    let mid2 = moov_upto(c2, 0, n, p, init2)->0;
    lemma_udta_fresh_at(other, p + n, items);
    let size_u = size_at(other, p + n);
    let hl = size_u.spec_head_len() as int;
    crate::again::lemma_child_at_prefix_of(other, p, p + n2, n);
    lemma_subrange_twice(other, p, p + n2, n + hl, n2);
    assert(content_of(other, p + n + hl, size_u) == content_of(c2, n + hl, size_u));
    crate::again::lemma_found_local(other, c2, p + n + hl, n + hl, 0, size_u);
    let u2 = Udta::found(other, p + n + hl, 0, size_u)->Ok_0;
    crate::again::lemma_udta_bounds(other, p + n + hl, 0, size_u);
    assert(moov_found(c2, n, p, mid2) == moov_found(
        c2,
        n2,
        p,
        MoovBoundsView { udta: Some(u2), ..mid2 },
    ));
    crate::again::lemma_moov_found_bounds(c2, 0, p, init2);
}

} // verus!
