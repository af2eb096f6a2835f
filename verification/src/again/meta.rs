//! The walk over the atoms that a metadata atom holds.

use crate::again::{lemma_child_at_prefix, lemma_child_at_shift, lemma_found_local};
use crate::atom::base::{child_at, found_at};
use crate::atom::hdlr::HdlrBounds;
use crate::atom::ilst::IlstBounds;
use crate::atom::meta::{meta_found, MetaBounds};
use crate::error::ErrorView;
use crate::ident::{Ident, HANDLER_REFERENCE, ITEM_LIST};
use vstd::prelude::*;

verus! {

/// The two hold the same of what was found, whatever their own bounds.
pub open spec fn meta_same(a: MetaBounds, b: MetaBounds) -> bool {
    a.hdlr == b.hdlr && a.ilst == b.ilst
}

/// What was found when the walk over the atoms from position `p` on
/// comes to position `q`, where it does: the atoms on the way must be
/// found without an error, and one of them must end at `q`.
pub open spec fn meta_upto(c: Seq<u8>, p: int, q: int, base: int, acc: MetaBounds) -> Option<MetaBounds>
    decreases c.len() - p,
{
    if p == q {
        Some(acc)
    } else if p > q || p >= c.len() {
        None
    } else {
        match child_at(c, p) {
            Err(_) => None,
            Ok(h) => {
                let size = h.spec_size();
                let cp = p + size.spec_head_len();
                let next = p + size.len;
                if h.fourcc == Ident(HANDLER_REFERENCE) {
                    match found_at(c, cp, base, size, Ident(HANDLER_REFERENCE)) {
                        Err(_) => None,
                        Ok(b) => meta_upto(c, next, q, base, MetaBounds { hdlr: Some(HdlrBounds { bounds: b }), ..acc }),
                    }
                } else if h.fourcc == Ident(ITEM_LIST) {
                    match found_at(c, cp, base, size, Ident(ITEM_LIST)) {
                        Err(_) => None,
                        Ok(b) => meta_upto(c, next, q, base, MetaBounds { ilst: Some(IlstBounds { bounds: b }), ..acc }),
                    }
                } else {
                    meta_upto(c, next, q, base, acc)
                }
            },
        }
    }
}

/// A walk that comes to a position behind the one at which it starts
/// passes over an atom first, which has at least eight bytes.
pub proof fn lemma_meta_step(c: Seq<u8>, p: int, q: int, base: int, acc: MetaBounds)
    requires
        meta_upto(c, p, q, base, acc) is Some,
        p != q,
    ensures
        p + 8 <= q,
        p < c.len(),
{
    let h = child_at(c, p)->Ok_0;
    let size = h.spec_size();
    let cp = p + size.spec_head_len();
    let next = p + size.len;
    if h.fourcc == Ident(HANDLER_REFERENCE) {
        let b = found_at(c, cp, base, size, Ident(HANDLER_REFERENCE))->Ok_0;
        assert(meta_upto(c, next, q, base, MetaBounds { hdlr: Some(HdlrBounds { bounds: b }), ..acc }) is Some);
    } else if h.fourcc == Ident(ITEM_LIST) {
        let b = found_at(c, cp, base, size, Ident(ITEM_LIST))->Ok_0;
        assert(meta_upto(c, next, q, base, MetaBounds { ilst: Some(IlstBounds { bounds: b }), ..acc }) is Some);
    } else {
        assert(meta_upto(c, next, q, base, acc) is Some);
    }
}

/// Where the walk comes to position `q`, what it finds in all is what it
/// finds from `q` on, with what was found on the way.
pub proof fn lemma_meta_through(c: Seq<u8>, p: int, q: int, base: int, acc: MetaBounds)
    requires
        meta_upto(c, p, q, base, acc) is Some,
    ensures
        meta_found(c, p, base, acc) == meta_found(c, q, base, meta_upto(c, p, q, base, acc)->0),
    decreases c.len() - p,
{
    if p != q {
        let h = child_at(c, p)->Ok_0;
        let size = h.spec_size();
        let cp = p + size.spec_head_len();
        let next = p + size.len;
        if h.fourcc == Ident(HANDLER_REFERENCE) {
            let b = found_at(c, cp, base, size, Ident(HANDLER_REFERENCE))->Ok_0;
            lemma_meta_through(
                c,
                next,
                q,
                base,
                MetaBounds { hdlr: Some(HdlrBounds { bounds: b }), ..acc },
            );
        } else if h.fourcc == Ident(ITEM_LIST) {
            let b = found_at(c, cp, base, size, Ident(ITEM_LIST))->Ok_0;
            lemma_meta_through(
                c,
                next,
                q,
                base,
                MetaBounds { ilst: Some(IlstBounds { bounds: b }), ..acc },
            );
        } else {
            lemma_meta_through(c, next, q, base, acc);
        }
    }
}

/// What the walk finds of the item list is what was found before, or lies at or
/// behind where the walk starts.
pub proof fn lemma_meta_pos(c: Seq<u8>, p: int, base: int, acc: MetaBounds)
    requires
        0 <= p,
        0 <= base,
        base + c.len() <= u64::MAX,
        meta_found(c, p, base, acc) is Ok,
    ensures
        meta_found(c, p, base, acc)->Ok_0.ilst == acc.ilst
            || (meta_found(c, p, base, acc)->Ok_0.ilst is Some && meta_found(c, p, base, acc)->Ok_0.ilst->0.bounds.pos >= base + p),
    decreases c.len() - p,
{
    reveal(found_at);
    if p < c.len() {
        let h = child_at(c, p)->Ok_0;
        let size = h.spec_size();
        let cp = p + size.spec_head_len();
        let next = p + size.len;
        if h.fourcc == Ident(HANDLER_REFERENCE) {
            let b = found_at(c, cp, base, size, Ident(HANDLER_REFERENCE))->Ok_0;
            lemma_meta_pos(
                c,
                next,
                base,
                MetaBounds { hdlr: Some(HdlrBounds { bounds: b }), ..acc },
            );
        } else if h.fourcc == Ident(ITEM_LIST) {
            let b = found_at(c, cp, base, size, Ident(ITEM_LIST))->Ok_0;
            lemma_meta_pos(
                c,
                next,
                base,
                MetaBounds { ilst: Some(IlstBounds { bounds: b }), ..acc },
            );
        } else {
            lemma_meta_pos(c, next, base, acc);
        }
    }
}

/// The walk comes to where the item list lies that it finds in the end: what
/// it found before lies before.
pub proof fn lemma_meta_reach(c: Seq<u8>, p: int, q: int, base: int, acc: MetaBounds)
    requires
        0 <= p,
        0 <= base,
        base + c.len() <= u64::MAX,
        p <= q,
        meta_found(c, p, base, acc) is Ok,
        meta_found(c, p, base, acc)->Ok_0.ilst is Some,
        meta_found(c, p, base, acc)->Ok_0.ilst->0.bounds.pos == base + q,
        (acc.ilst is None || acc.ilst->0.bounds.pos < base + p),
    ensures
        meta_upto(c, p, q, base, acc) is Some,
        (meta_upto(c, p, q, base, acc)->0.ilst is None || meta_upto(c, p, q, base, acc)->0.ilst->0.bounds.pos < base + q),
    decreases c.len() - p,
{
    reveal(found_at);
    if p != q {
        let h = child_at(c, p)->Ok_0;
        let size = h.spec_size();
        let cp = p + size.spec_head_len();
        let next = p + size.len;
        if h.fourcc == Ident(HANDLER_REFERENCE) {
            let b = found_at(c, cp, base, size, Ident(HANDLER_REFERENCE))->Ok_0;
            let acc2 = MetaBounds { hdlr: Some(HdlrBounds { bounds: b }), ..acc };
            lemma_meta_pos(c, next, base, acc2);
            lemma_meta_reach(c, next, q, base, acc2);
        } else if h.fourcc == Ident(ITEM_LIST) {
            let b = found_at(c, cp, base, size, Ident(ITEM_LIST))->Ok_0;
            let acc2 = MetaBounds { ilst: Some(IlstBounds { bounds: b }), ..acc };
            lemma_meta_pos(c, next, base, acc2);
            lemma_meta_reach(c, next, q, base, acc2);
        } else {
            lemma_meta_pos(c, next, base, acc);
            lemma_meta_reach(c, next, q, base, acc);
        }
    }
}

/// Where the walk over one content comes to position `q`, so does the
/// walk over another that is the same up to `q`, and it finds the same on
/// the way.
pub proof fn lemma_meta_transfer(
    c: Seq<u8>,
    other: Seq<u8>,
    p: int,
    q: int,
    base: int,
    acc: MetaBounds,
    other_acc: MetaBounds,
)
    requires
        0 <= p <= q,
        q <= c.len(),
        q <= other.len(),
        c.subrange(0, q) == other.subrange(0, q),
        meta_same(acc, other_acc),
        meta_upto(c, p, q, base, acc) is Some,
    ensures
        meta_upto(other, p, q, base, other_acc) is Some,
        meta_same(meta_upto(c, p, q, base, acc)->0, meta_upto(other, p, q, base, other_acc)->0),
    decreases c.len() - p,
{
    if p != q {
        let h = child_at(c, p)->Ok_0;
        let size = h.spec_size();
        let cp = p + size.spec_head_len();
        let next = p + size.len;
        assert(next <= q) by {
            if h.fourcc == Ident(HANDLER_REFERENCE) {
                let b = found_at(c, cp, base, size, Ident(HANDLER_REFERENCE))->Ok_0;
                assert(meta_upto(c, next, q, base, MetaBounds { hdlr: Some(HdlrBounds { bounds: b }), ..acc }) is Some);
            } else if h.fourcc == Ident(ITEM_LIST) {
                let b = found_at(c, cp, base, size, Ident(ITEM_LIST))->Ok_0;
                assert(meta_upto(c, next, q, base, MetaBounds { ilst: Some(IlstBounds { bounds: b }), ..acc }) is Some);
            } else {
                assert(meta_upto(c, next, q, base, acc) is Some);
            }
        }
        lemma_child_at_prefix(c, other, p, q);
        lemma_found_local(c, other, cp, cp, base, size);
        if h.fourcc == Ident(HANDLER_REFERENCE) {
            let b = found_at(c, cp, base, size, Ident(HANDLER_REFERENCE))->Ok_0;
            assert(found_at(other, cp, base, size, Ident(HANDLER_REFERENCE)) == Ok::<_, ErrorView>(b));
            lemma_meta_transfer(
                c,
                other,
                next,
                q,
                base,
                MetaBounds { hdlr: Some(HdlrBounds { bounds: b }), ..acc },
                MetaBounds { hdlr: Some(HdlrBounds { bounds: b }), ..other_acc },
            );
        } else if h.fourcc == Ident(ITEM_LIST) {
            let b = found_at(c, cp, base, size, Ident(ITEM_LIST))->Ok_0;
            assert(found_at(other, cp, base, size, Ident(ITEM_LIST)) == Ok::<_, ErrorView>(b));
            lemma_meta_transfer(
                c,
                other,
                next,
                q,
                base,
                MetaBounds { ilst: Some(IlstBounds { bounds: b }), ..acc },
                MetaBounds { ilst: Some(IlstBounds { bounds: b }), ..other_acc },
            );
        } else {
            lemma_meta_transfer(c, other, next, q, base, acc, other_acc);
        }
    }
}

/// Where the walk stands at the item list that it finds in the end, the atom
/// there is that one, and behind it the walk finds no other.
pub proof fn lemma_meta_at_target(c: Seq<u8>, q: int, base: int, acc: MetaBounds)
    requires
        0 <= q,
        0 <= base,
        base + c.len() <= u64::MAX,
        meta_found(c, q, base, acc) is Ok,
        meta_found(c, q, base, acc)->Ok_0.ilst is Some,
        meta_found(c, q, base, acc)->Ok_0.ilst->0.bounds.pos == base + q,
        (acc.ilst is None || acc.ilst->0.bounds.pos < base + q),
    ensures
        q < c.len(),
        child_at(c, q) is Ok,
        child_at(c, q)->Ok_0.fourcc == Ident(ITEM_LIST),
        ({
            let size = child_at(c, q)->Ok_0.spec_size();
            let found = found_at(c, q + size.spec_head_len(), base, size, Ident(ITEM_LIST));
            &&& found is Ok
            &&& meta_found(c, q, base, acc)->Ok_0.ilst == Some(IlstBounds { bounds: found->Ok_0 })
            &&& meta_found(
                c,
                q + size.len,
                base,
                MetaBounds { ilst: Some(IlstBounds { bounds: found->Ok_0 }), ..acc },
            )
                == Ok::<_, ErrorView>(meta_found(c, q, base, acc)->Ok_0)
        }),
{
    reveal(found_at);
    let h = child_at(c, q)->Ok_0;
    let size = h.spec_size();
    let cp = q + size.spec_head_len();
    let next = q + size.len;
    if h.fourcc == Ident(HANDLER_REFERENCE) {
        let b = found_at(c, cp, base, size, Ident(HANDLER_REFERENCE))->Ok_0;
        lemma_meta_pos(c, next, base, MetaBounds { hdlr: Some(HdlrBounds { bounds: b }), ..acc });
    } else if h.fourcc == Ident(ITEM_LIST) {
        let b = found_at(c, cp, base, size, Ident(ITEM_LIST))->Ok_0;
        lemma_meta_pos(c, next, base, MetaBounds { ilst: Some(IlstBounds { bounds: b }), ..acc });
    } else {
        lemma_meta_pos(c, next, base, acc);
    }
}

/// Where the walk over the end of one content finds no item list, the walk
/// over the same end of another content finds none, and it ends without an
/// error as the first did.
pub proof fn lemma_meta_suffix(
    c: Seq<u8>,
    p: int,
    base: int,
    acc: MetaBounds,
    other: Seq<u8>,
    q: int,
    other_base: int,
    other_acc: MetaBounds,
)
    requires
        0 <= p <= c.len(),
        0 <= q <= other.len(),
        0 <= base,
        base + c.len() <= u64::MAX,
        c.len() - p == other.len() - q,
        c.subrange(p, c.len() as int) == other.subrange(q, other.len() as int),
        meta_found(c, p, base, acc) is Ok,
        meta_found(c, p, base, acc)->Ok_0.ilst == acc.ilst,
        (acc.ilst is None || acc.ilst->0.bounds.pos < base + p),
    ensures
        meta_found(other, q, other_base, other_acc) is Ok,
        meta_found(other, q, other_base, other_acc)->Ok_0.ilst == other_acc.ilst,
        (other_acc.hdlr is Some || (meta_found(c, p, base, acc)->Ok_0.hdlr is Some && acc.hdlr is None))
            ==> meta_found(other, q, other_base, other_acc)->Ok_0.hdlr is Some,
    decreases c.len() - p,
{
    reveal(found_at);
    if p < c.len() {
        let h = child_at(c, p)->Ok_0;
        let size = h.spec_size();
        let cp = p + size.spec_head_len();
        let next = p + size.len;
        lemma_child_at_shift(c, p, other, q);
        if h.fourcc == Ident(HANDLER_REFERENCE) {
            let b = found_at(c, cp, base, size, Ident(HANDLER_REFERENCE))->Ok_0;
            let o = found_at(other, q + size.spec_head_len(), other_base, size, Ident(HANDLER_REFERENCE))->Ok_0;
            lemma_meta_suffix(
                c,
                next,
                base,
                MetaBounds { hdlr: Some(HdlrBounds { bounds: b }), ..acc },
                other,
                q + size.len,
                other_base,
                MetaBounds { hdlr: Some(HdlrBounds { bounds: o }), ..other_acc },
            );
        } else if h.fourcc == Ident(ITEM_LIST) {
            let b = found_at(c, cp, base, size, Ident(ITEM_LIST))->Ok_0;
            lemma_meta_pos(
                c,
                next,
                base,
                MetaBounds { ilst: Some(IlstBounds { bounds: b }), ..acc },
            );
        } else {
            lemma_meta_suffix(c, next, base, acc, other, q + size.len, other_base, other_acc);
        }
    }
}

/// A walk that ends without an error comes to the end of the content.
pub proof fn lemma_meta_to_end(c: Seq<u8>, p: int, base: int, acc: MetaBounds)
    requires
        0 <= p <= c.len(),
        meta_found(c, p, base, acc) is Ok,
    ensures
        meta_upto(c, p, c.len() as int, base, acc) == Some(meta_found(c, p, base, acc)->Ok_0),
    decreases c.len() - p,
{
    if p < c.len() {
        let h = child_at(c, p)->Ok_0;
        let size = h.spec_size();
        let cp = p + size.spec_head_len();
        let next = p + size.len;
        if h.fourcc == Ident(HANDLER_REFERENCE) {
            let b = found_at(c, cp, base, size, Ident(HANDLER_REFERENCE))->Ok_0;
            lemma_meta_to_end(
                c,
                next,
                base,
                MetaBounds { hdlr: Some(HdlrBounds { bounds: b }), ..acc },
            );
        } else if h.fourcc == Ident(ITEM_LIST) {
            let b = found_at(c, cp, base, size, Ident(ITEM_LIST))->Ok_0;
            lemma_meta_to_end(
                c,
                next,
                base,
                MetaBounds { ilst: Some(IlstBounds { bounds: b }), ..acc },
            );
        } else {
            lemma_meta_to_end(c, next, base, acc);
        }
    }
}

} // verus!
