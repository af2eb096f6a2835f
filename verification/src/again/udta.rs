//! The walk over the atoms that a user data atom holds.

use crate::again::{lemma_child_at_prefix, lemma_child_at_shift, lemma_found_local, lemma_meta_bounds};
use crate::atom::base::{child_at, found_at};
use crate::atom::meta::{Meta, MetaBounds};
use crate::atom::udta::{udta_found, UdtaBounds};
use crate::again::{lemma_child_resized, lemma_subrange_twice, sized};
use crate::atom::base::content_of;
use crate::head::{bounds_at, Size};
use crate::error::ErrorView;
use crate::ident::{Ident, METADATA, USER_DATA};
use crate::atom::udta::Udta;
use vstd::prelude::*;

verus! {

/// The two hold the same of what was found, whatever their own bounds.
pub open spec fn udta_same(a: UdtaBounds, b: UdtaBounds) -> bool {
    a.meta == b.meta
}

/// What was found when the walk over the atoms from position `p` on
/// comes to position `q`, where it does: the atoms on the way must be
/// found without an error, and one of them must end at `q`.
pub open spec fn udta_upto(c: Seq<u8>, p: int, q: int, base: int, acc: UdtaBounds) -> Option<UdtaBounds>
    decreases c.len() - p,
{
    if p == q {
        Some(acc)
    } else if p > q || p >= c.len() {
        None
    } else {
        match child_at(c, p) {
            Err(_) => None,
            Ok(h) => {
                let size = h.spec_size();
                let cp = p + size.spec_head_len();
                let next = p + size.len;
                if h.fourcc == Ident(METADATA) {
                    match Meta::found(c, cp, base, size) {
                        Err(_) => None,
                        Ok(b) => udta_upto(c, next, q, base, UdtaBounds { meta: Some(b), ..acc }),
                    }
                } else {
                    udta_upto(c, next, q, base, acc)
                }
            },
        }
    }
}

/// Where the walk comes to position `q`, what it finds in all is what it
/// finds from `q` on, with what was found on the way.
pub proof fn lemma_udta_through(c: Seq<u8>, p: int, q: int, base: int, acc: UdtaBounds)
    requires
        udta_upto(c, p, q, base, acc) is Some,
    ensures
        udta_found(c, p, base, acc) == udta_found(c, q, base, udta_upto(c, p, q, base, acc)->0),
    decreases c.len() - p,
{
    if p != q {
        let h = child_at(c, p)->Ok_0;
        let size = h.spec_size();
        let cp = p + size.spec_head_len();
        let next = p + size.len;
        if h.fourcc == Ident(METADATA) {
            let b = Meta::found(c, cp, base, size)->Ok_0;
            lemma_udta_through(c, next, q, base, UdtaBounds { meta: Some(b), ..acc });
        } else {
            lemma_udta_through(c, next, q, base, acc);
        }
    }
}

/// What the walk finds of the metadata atom is what was found before, or lies at or
/// behind where the walk starts.
pub proof fn lemma_udta_pos(c: Seq<u8>, p: int, base: int, acc: UdtaBounds)
    requires
        0 <= p,
        0 <= base,
        base + c.len() <= u64::MAX,
        udta_found(c, p, base, acc) is Ok,
    ensures
        udta_found(c, p, base, acc)->Ok_0.meta == acc.meta
            || (udta_found(c, p, base, acc)->Ok_0.meta is Some && udta_found(c, p, base, acc)->Ok_0.meta->0.bounds.pos >= base + p),
    decreases c.len() - p,
{
    if p < c.len() {
        let h = child_at(c, p)->Ok_0;
        let size = h.spec_size();
        let cp = p + size.spec_head_len();
        let next = p + size.len;
        if h.fourcc == Ident(METADATA) {
            let b = Meta::found(c, cp, base, size)->Ok_0;
            lemma_meta_bounds(c, cp, base, size);
            lemma_udta_pos(c, next, base, UdtaBounds { meta: Some(b), ..acc });
        } else {
            lemma_udta_pos(c, next, base, acc);
        }
    }
}

/// The walk comes to where the metadata atom lies that it finds in the end: what
/// it found before lies before.
pub proof fn lemma_udta_reach(c: Seq<u8>, p: int, q: int, base: int, acc: UdtaBounds)
    requires
        0 <= p,
        0 <= base,
        base + c.len() <= u64::MAX,
        p <= q,
        udta_found(c, p, base, acc) is Ok,
        udta_found(c, p, base, acc)->Ok_0.meta is Some,
        udta_found(c, p, base, acc)->Ok_0.meta->0.bounds.pos == base + q,
        (acc.meta is None || acc.meta->0.bounds.pos < base + p),
    ensures
        udta_upto(c, p, q, base, acc) is Some,
        (udta_upto(c, p, q, base, acc)->0.meta is None || udta_upto(c, p, q, base, acc)->0.meta->0.bounds.pos < base + q),
    decreases c.len() - p,
{
    if p != q {
        let h = child_at(c, p)->Ok_0;
        let size = h.spec_size();
        let cp = p + size.spec_head_len();
        let next = p + size.len;
        if h.fourcc == Ident(METADATA) {
            let b = Meta::found(c, cp, base, size)->Ok_0;
            lemma_meta_bounds(c, cp, base, size);
            let acc2 = UdtaBounds { meta: Some(b), ..acc };
            lemma_udta_pos(c, next, base, acc2);
            lemma_udta_reach(c, next, q, base, acc2);
        } else {
            lemma_udta_pos(c, next, base, acc);
            lemma_udta_reach(c, next, q, base, acc);
        }
    }
}

/// Where the walk over one content comes to position `q`, so does the
/// walk over another that is the same up to `q`, and it finds the same on
/// the way.
pub proof fn lemma_udta_transfer(
    c: Seq<u8>,
    other: Seq<u8>,
    p: int,
    q: int,
    base: int,
    acc: UdtaBounds,
    other_acc: UdtaBounds,
)
    requires
        0 <= p <= q,
        q <= c.len(),
        q <= other.len(),
        c.subrange(0, q) == other.subrange(0, q),
        udta_same(acc, other_acc),
        udta_upto(c, p, q, base, acc) is Some,
    ensures
        udta_upto(other, p, q, base, other_acc) is Some,
        udta_same(udta_upto(c, p, q, base, acc)->0, udta_upto(other, p, q, base, other_acc)->0),
    decreases c.len() - p,
{
    if p != q {
        let h = child_at(c, p)->Ok_0;
        let size = h.spec_size();
        let cp = p + size.spec_head_len();
        let next = p + size.len;
        assert(next <= q) by {
            if h.fourcc == Ident(METADATA) {
                let b = Meta::found(c, cp, base, size)->Ok_0;
                assert(udta_upto(c, next, q, base, UdtaBounds { meta: Some(b), ..acc }) is Some);
            } else {
                assert(udta_upto(c, next, q, base, acc) is Some);
            }
        }
        lemma_child_at_prefix(c, other, p, q);
        lemma_found_local(c, other, cp, cp, base, size);
        if h.fourcc == Ident(METADATA) {
            let b = Meta::found(c, cp, base, size)->Ok_0;
            assert(Meta::found(other, cp, base, size) == Ok::<_, ErrorView>(b));
            lemma_udta_transfer(
                c,
                other,
                next,
                q,
                base,
                UdtaBounds { meta: Some(b), ..acc },
                UdtaBounds { meta: Some(b), ..other_acc },
            );
        } else {
            lemma_udta_transfer(c, other, next, q, base, acc, other_acc);
        }
    }
}

/// Where the walk stands at the metadata atom that it finds in the end, the atom
/// there is that one, and behind it the walk finds no other.
pub proof fn lemma_udta_at_target(c: Seq<u8>, q: int, base: int, acc: UdtaBounds)
    requires
        0 <= q,
        0 <= base,
        base + c.len() <= u64::MAX,
        udta_found(c, q, base, acc) is Ok,
        udta_found(c, q, base, acc)->Ok_0.meta is Some,
        udta_found(c, q, base, acc)->Ok_0.meta->0.bounds.pos == base + q,
        (acc.meta is None || acc.meta->0.bounds.pos < base + q),
    ensures
        q < c.len(),
        child_at(c, q) is Ok,
        child_at(c, q)->Ok_0.fourcc == Ident(METADATA),
        ({
            let size = child_at(c, q)->Ok_0.spec_size();
            let found = Meta::found(c, q + size.spec_head_len(), base, size);
            &&& found is Ok
            &&& udta_found(c, q, base, acc)->Ok_0.meta == Some(found->Ok_0)
            &&& udta_found(c, q + size.len, base, UdtaBounds { meta: Some(found->Ok_0), ..acc })
                == Ok::<_, ErrorView>(udta_found(c, q, base, acc)->Ok_0)
        }),
{
    let h = child_at(c, q)->Ok_0;
    let size = h.spec_size();
    let cp = q + size.spec_head_len();
    let next = q + size.len;
    if h.fourcc == Ident(METADATA) {
        let b = Meta::found(c, cp, base, size)->Ok_0;
        lemma_meta_bounds(c, cp, base, size);
        lemma_udta_pos(c, next, base, UdtaBounds { meta: Some(b), ..acc });
    } else {
        lemma_udta_pos(c, next, base, acc);
    }
}

/// Where the walk over the end of one content finds no metadata atom, the walk
/// over the same end of another content finds none, and it ends without an
/// error as the first did.
pub proof fn lemma_udta_suffix(
    c: Seq<u8>,
    p: int,
    base: int,
    acc: UdtaBounds,
    other: Seq<u8>,
    q: int,
    other_base: int,
    other_acc: UdtaBounds,
)
    requires
        0 <= p <= c.len(),
        0 <= q <= other.len(),
        0 <= base,
        base + c.len() <= u64::MAX,
        c.len() - p == other.len() - q,
        c.subrange(p, c.len() as int) == other.subrange(q, other.len() as int),
        udta_found(c, p, base, acc) is Ok,
        udta_found(c, p, base, acc)->Ok_0.meta == acc.meta,
        (acc.meta is None || acc.meta->0.bounds.pos < base + p),
    ensures
        udta_found(other, q, other_base, other_acc) is Ok,
        udta_found(other, q, other_base, other_acc)->Ok_0.meta == other_acc.meta,
    decreases c.len() - p,
{
    reveal(found_at);
    if p < c.len() {
        let h = child_at(c, p)->Ok_0;
        let size = h.spec_size();
        let cp = p + size.spec_head_len();
        let next = p + size.len;
        lemma_child_at_shift(c, p, other, q);
        if h.fourcc == Ident(METADATA) {
            let b = Meta::found(c, cp, base, size)->Ok_0;
            lemma_meta_bounds(c, cp, base, size);
            lemma_udta_pos(c, next, base, UdtaBounds { meta: Some(b), ..acc });
        } else {
            lemma_udta_suffix(c, next, base, acc, other, q + size.len, other_base, other_acc);
        }
    }
}

/// The walk over a content in which the metadata atom was given a new length,
/// and the bytes behind it moved with it, finds what it found before,
/// with the metadata atom as it is found now.
pub proof fn lemma_udta_walk_again(
    c: Seq<u8>,
    other: Seq<u8>,
    base: int,
    init: UdtaBounds,
    other_init: UdtaBounds,
    new_size: Size,
    found: MetaBounds,
)
    requires
        0 <= base,
        base + c.len() <= u64::MAX,
        base + other.len() <= u64::MAX,
        udta_found(c, 0, base, init) is Ok,
        udta_found(c, 0, base, init)->Ok_0.meta is Some,
        init.meta is None,
        other_init.meta is None,
        udta_same(init, other_init),
        new_size.ext == udta_found(c, 0, base, init)->Ok_0.meta->0.bounds.size.ext,
        new_size.wf(),
        !new_size.ext ==> new_size.len <= u32::MAX,
        other.len()
            == c.len() - udta_found(c, 0, base, init)->Ok_0.meta->0.bounds.size.len + new_size.len,
        other.subrange(0, (udta_found(c, 0, base, init)->Ok_0.meta->0.bounds.pos - base))
            == c.subrange(0, (udta_found(c, 0, base, init)->Ok_0.meta->0.bounds.pos - base)),
        sized(
            other,
            (udta_found(c, 0, base, init)->Ok_0.meta->0.bounds.pos - base),
            new_size.ext,
            new_size.len as int,
        ),
        other.subrange(
            (udta_found(c, 0, base, init)->Ok_0.meta->0.bounds.pos - base) + 4,
            (udta_found(c, 0, base, init)->Ok_0.meta->0.bounds.pos - base) + 8,
        )
            == c.subrange(
                (udta_found(c, 0, base, init)->Ok_0.meta->0.bounds.pos - base) + 4,
                (udta_found(c, 0, base, init)->Ok_0.meta->0.bounds.pos - base) + 8,
            ),
        Meta::found(
            other,
            (udta_found(c, 0, base, init)->Ok_0.meta->0.bounds.pos - base)
                + new_size.spec_head_len(),
            base,
            new_size,
        )
            == Ok::<MetaBounds, ErrorView>(found),
        other.subrange(
            (udta_found(c, 0, base, init)->Ok_0.meta->0.bounds.pos - base) + new_size.len,
            other.len() as int,
        )
            == c.subrange(
            (udta_found(c, 0, base, init)->Ok_0.meta->0.bounds.pos - base)
                + udta_found(c, 0, base, init)->Ok_0.meta->0.bounds.size.len,
            c.len() as int,
        ),
    ensures
        udta_found(other, 0, base, other_init) is Ok,
        udta_found(other, 0, base, other_init)->Ok_0.meta == Some(found),
        udta_found(other, 0, base, other_init)->Ok_0.bounds == other_init.bounds,
        0 <= (udta_found(c, 0, base, init)->Ok_0.meta->0.bounds.pos - base),
        (udta_found(c, 0, base, init)->Ok_0.meta->0.bounds.pos - base)
            + udta_found(c, 0, base, init)->Ok_0.meta->0.bounds.size.len
            <= c.len(),
{
    let r = udta_found(c, 0, base, init)->Ok_0;
    let q = r.meta->0.bounds.pos - base;
    lemma_udta_pos(c, 0, base, init);
    lemma_udta_reach(c, 0, q, base, init);
    lemma_udta_through(c, 0, q, base, init);
    let mid = udta_upto(c, 0, q, base, init)->0;
    lemma_udta_at_target(c, q, base, mid);
    let size = child_at(c, q)->Ok_0.spec_size();
    lemma_meta_bounds(c, q + size.spec_head_len(), base, size);
    assert(size == r.meta->0.bounds.size);
    let after = UdtaBounds { meta: Some(r.meta->0), ..mid };
    lemma_udta_transfer(c, other, 0, q, base, init, other_init);
    lemma_udta_through(other, 0, q, base, other_init);
    let mid2 = udta_upto(other, 0, q, base, other_init)->0;
    lemma_child_resized(c, q, other, q, new_size.len as int);
    let after2 = UdtaBounds { meta: Some(found), ..mid2 };
    assert(udta_found(other, q, base, mid2) == udta_found(other, q + new_size.len, base, after2));
    lemma_udta_suffix(c, q + size.len, base, after, other, q + new_size.len, base, after2);
    crate::again::lemma_udta_found_bounds(other, 0, base, other_init);
}

/// The metadata atom that the walk finds in the end lies inside the content.
pub proof fn lemma_udta_target_pos(c: Seq<u8>, base: int, init: UdtaBounds)
    requires
        0 <= base,
        base + c.len() <= u64::MAX,
        udta_found(c, 0, base, init) is Ok,
        udta_found(c, 0, base, init)->Ok_0.meta is Some,
        init.meta is None,
    ensures
        0 <= udta_found(c, 0, base, init)->Ok_0.meta->0.bounds.pos - base,
        udta_found(c, 0, base, init)->Ok_0.meta->0.bounds.pos - base
            + udta_found(c, 0, base, init)->Ok_0.meta->0.bounds.size.len
            <= c.len(),
        udta_found(c, 0, base, init)->Ok_0.meta->0.bounds.size.spec_head_len()
            <= udta_found(c, 0, base, init)->Ok_0.meta->0.bounds.size.len,
        child_at(c, udta_found(c, 0, base, init)->Ok_0.meta->0.bounds.pos - base) is Ok,
        child_at(c, udta_found(c, 0, base, init)->Ok_0.meta->0.bounds.pos - base)->Ok_0.spec_size()
            == udta_found(c, 0, base, init)->Ok_0.meta->0.bounds.size,
        Meta::found(
            c,
            udta_found(c, 0, base, init)->Ok_0.meta->0.bounds.pos - base
                + udta_found(c, 0, base, init)->Ok_0.meta->0.bounds.size.spec_head_len(),
            base,
            udta_found(c, 0, base, init)->Ok_0.meta->0.bounds.size,
        )
            == Ok::<_, ErrorView>(
            udta_found(c, 0, base, init)->Ok_0.meta->0,
        ),
{
    let r = udta_found(c, 0, base, init)->Ok_0;
    let q = r.meta->0.bounds.pos - base;
    lemma_udta_pos(c, 0, base, init);
    lemma_udta_reach(c, 0, q, base, init);
    lemma_udta_through(c, 0, q, base, init);
    let mid = udta_upto(c, 0, q, base, init)->0;
    lemma_udta_at_target(c, q, base, mid);
    let size = child_at(c, q)->Ok_0.spec_size();
    lemma_meta_bounds(c, q + size.spec_head_len(), base, size);
}

/// A user data atom in which the metadata atom was given a new length, and the
/// bytes behind it moved with it, is found again, with the metadata atom as
/// it is found now.
#[verifier::spinoff_prover]
#[verifier::rlimit(60)]
pub proof fn lemma_udta_again(
    s: Seq<u8>,
    other: Seq<u8>,
    p: int,
    base: int,
    size: Size,
    other_size: Size,
    new_size: Size,
)
    requires
        0 <= p,
        0 <= base,
        base + s.len() <= u64::MAX,
        base + other.len() <= u64::MAX,
        size.wf(),
        other_size.wf(),
        Udta::found(s, p, base, size) is Ok,
        Udta::found(s, p, base, size)->Ok_0.meta is Some,
        new_size.ext == Udta::found(s, p, base, size)->Ok_0.meta->0.bounds.size.ext,
        new_size.wf(),
        !new_size.ext ==> new_size.len <= u32::MAX,
        other_size.spec_content_len()
            == size.spec_content_len() - Udta::found(s, p, base, size)->Ok_0.meta->0.bounds.size.len
                + new_size.len,
        p + other_size.spec_content_len() <= other.len(),
        other.subrange(p, (Udta::found(s, p, base, size)->Ok_0.meta->0.bounds.pos - base))
            == s.subrange(p, (Udta::found(s, p, base, size)->Ok_0.meta->0.bounds.pos - base)),
        sized(
            other,
            (Udta::found(s, p, base, size)->Ok_0.meta->0.bounds.pos - base),
            new_size.ext,
            new_size.len as int,
        ),
        other.subrange(
            (Udta::found(s, p, base, size)->Ok_0.meta->0.bounds.pos - base) + 4,
            (Udta::found(s, p, base, size)->Ok_0.meta->0.bounds.pos - base) + 8,
        )
            == s.subrange(
                (Udta::found(s, p, base, size)->Ok_0.meta->0.bounds.pos - base) + 4,
                (Udta::found(s, p, base, size)->Ok_0.meta->0.bounds.pos - base) + 8,
            ),
        Meta::found(other, (Udta::found(s, p, base, size)->Ok_0.meta->0.bounds.pos - base) + new_size.spec_head_len(), base, new_size) is Ok,
        other.subrange(
            (Udta::found(s, p, base, size)->Ok_0.meta->0.bounds.pos - base) + new_size.len,
            p + other_size.spec_content_len(),
        )
            == s.subrange(
            (Udta::found(s, p, base, size)->Ok_0.meta->0.bounds.pos - base)
                + Udta::found(s, p, base, size)->Ok_0.meta->0.bounds.size.len,
            p + size.spec_content_len(),
        ),
    ensures
        Udta::found(other, p, base, other_size) is Ok,
        Udta::found(other, p, base, other_size)->Ok_0.meta == Some(
            Meta::found(
                other,
                (Udta::found(s, p, base, size)->Ok_0.meta->0.bounds.pos - base)
                    + new_size.spec_head_len(),
                base,
                new_size,
            )->Ok_0,
        ),
        Udta::found(other, p, base, other_size)->Ok_0.bounds
            == bounds_at(base + p, other_size, Ident(USER_DATA)),
{
    let n = size.spec_content_len();
    let n2 = other_size.spec_content_len();
    let c = s.subrange(p, p + n);
    let c2 = other.subrange(p, p + n2);
    let init = UdtaBounds { bounds: bounds_at(base + p, size, Ident(USER_DATA)), meta: None };
    let init2 = UdtaBounds { bounds: bounds_at(base + p, other_size, Ident(USER_DATA)), meta: None };
    crate::again::lemma_found_fits(s, p, base, size);
    crate::again::lemma_udta_found_walk(s, p, base, size);
    crate::again::lemma_udta_found_walk(other, p, base, other_size);
    let r = Udta::found(s, p, base, size)->Ok_0;
    lemma_udta_target_pos(c, base + p, init);
    let y = r.meta->0.bounds;
    let yq = y.pos - base;
    let q = yq - p;
    let hl = new_size.spec_head_len() as int;
    lemma_subrange_twice(other, p, p + n2, 0, q);
    lemma_subrange_twice(s, p, p + n, 0, q);
    crate::again::lemma_sized_part(other, p, p + n2, q, new_size.ext, new_size.len as int);
    lemma_subrange_twice(s, p, p + n, q + 4, q + 8);
    lemma_subrange_twice(other, p, p + n2, q + new_size.len, n2);
    lemma_subrange_twice(s, p, p + n, q + y.size.len, n);
    lemma_subrange_twice(other, p, p + n2, q + hl, q + new_size.len);
    crate::again::lemma_found_fits(other, yq + hl, base, new_size);
    assert(content_of(other, yq + hl, new_size) == content_of(c2, q + hl, new_size));
    lemma_found_local(other, c2, yq + hl, q + hl, base, new_size);
    let found = Meta::found(other, yq + hl, base, new_size)->Ok_0;
    lemma_udta_walk_again(c, c2, base + p, init, init2, new_size, found);
}

/// A walk that ends without an error comes to the end of the content.
pub proof fn lemma_udta_to_end(c: Seq<u8>, p: int, base: int, acc: UdtaBounds)
    requires
        0 <= p <= c.len(),
        udta_found(c, p, base, acc) is Ok,
    ensures
        udta_upto(c, p, c.len() as int, base, acc) == Some(udta_found(c, p, base, acc)->Ok_0),
    decreases c.len() - p,
{
    if p < c.len() {
        let h = child_at(c, p)->Ok_0;
        let size = h.spec_size();
        let cp = p + size.spec_head_len();
        let next = p + size.len;
        if h.fourcc == Ident(METADATA) {
            let b = Meta::found(c, cp, base, size)->Ok_0;
            lemma_udta_to_end(c, next, base, UdtaBounds { meta: Some(b), ..acc });
        } else {
            lemma_udta_to_end(c, next, base, acc);
        }
    }
}

} // verus!
