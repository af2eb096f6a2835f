//! Writing a tag a second time: what the rewritten file looks like to the one
//! who reads it again.

pub mod edit;
pub mod meta;
pub mod moov;
pub mod offsets;
pub mod sweep;
pub mod udta;
pub mod unread;
pub mod whole;

use crate::atom::base::{child_at, content_of, found_at};
use crate::atom::meta::{children_start, meta_found, Meta, MetaBounds};
use crate::atom::moov::{moov_found, Moov, MoovBoundsView};
use crate::atom::trak::Trak;
use crate::atom::udta::{udta_found, Udta, UdtaBounds};
use crate::file::top_at;
use crate::head::bounds_at;
use crate::ident::{Ident, METADATA, MOVIE, USER_DATA};
use crate::codec::{lemma_be_u32_of_bytes, lemma_be_u64_of_bytes, u32_be, u64_be};
use crate::head::{AtomBounds, Size};
use crate::laws::lemma_patched_concat;
use crate::rewrite::{overwritten, patched, size_patch, size_patches, PatchView};
use vstd::prelude::*;

verus! {

/// The head of the atom `a` holds the length `n` in the bytes `x`, in the
/// form that the size of the atom says.
pub open spec fn resized(x: Seq<u8>, a: AtomBounds, n: int) -> bool {
    if a.size.ext {
        a.pos + 16 <= x.len() && x.subrange(a.pos as int, a.pos + 4) == u32_be(1) && x.subrange(
            a.pos + 8,
            a.pos + 16,
        ) == u64_be(n as u64)
    } else {
        a.pos + 4 <= x.len() && x.subrange(a.pos as int, a.pos + 4) == u32_be(n as u32)
    }
}

/// The position `j` lies in the bytes of the head of `a` that hold its
/// length.
pub open spec fn in_size_field(a: AtomBounds, j: int) -> bool {
    if a.size.ext {
        a.pos <= j < a.pos + 4 || a.pos + 8 <= j < a.pos + 16
    } else {
        a.pos <= j < a.pos + 4
    }
}

/// The atoms lie inside a file of `len` bytes, each inside the content of
/// the one before it.
pub open spec fn chain(updates: Seq<AtomBounds>, len: int) -> bool {
    &&& forall|i: int| 0 <= i < updates.len()
        ==> (#[trigger] updates[i]).wf() && updates[i].spec_end() <= len
    &&& forall|i: int, j: int|
        0 <= i < j < updates.len() ==> (#[trigger] updates[i]).spec_content_pos() <= (
        #[trigger] updates[j]).pos
}

/// After the new length was written over the head of an atom, the head
/// holds it, and every other byte is as it was.
pub proof fn lemma_size_written(x: Seq<u8>, a: AtomBounds, d: int)
    requires
        a.wf(),
        a.spec_end() <= x.len(),
        size_patch(a, d) is Ok,
    ensures
        ({
            let y = patched(x, size_patch(a, d)->Ok_0);
            &&& y.len() == x.len()
            &&& resized(y, a, a.size.len + d)
            &&& forall|j: int| 0 <= j < x.len() && !in_size_field(a, j) ==> y[j] == x[j]
        }),
{
    let here = size_patch(a, d)->Ok_0;
    let n = a.size.len + d;
    let x1 = patched(x, here);
    reveal_with_fuel(patched, 3);
    lemma_be_u32_of_bytes(1);
    lemma_be_u32_of_bytes(n as u32);
    lemma_be_u64_of_bytes(n as u64);
    if a.size.ext {
        let p = PatchView { pos: a.pos as int, bytes: u32_be(1) };
        let q = PatchView { pos: a.pos + 8, bytes: u64_be(n as u64) };
        assert(here =~= seq![p, q]);
        assert(seq![p, q].drop_last() =~= seq![p]);
        assert(seq![p].drop_last() =~= Seq::<PatchView>::empty());
        let x0 = overwritten(x, p.pos, p.bytes);
        assert(x1 == overwritten(x0, q.pos, q.bytes));
        assert(x1.subrange(a.pos as int, a.pos + 4) =~= u32_be(1));
        assert(x1.subrange(a.pos + 8, a.pos + 16) =~= u64_be(n as u64));
    } else {
        let p = PatchView { pos: a.pos as int, bytes: u32_be(n as u32) };
        assert(here =~= seq![p]);
        assert(seq![p].drop_last() =~= Seq::<PatchView>::empty());
        assert(x1 == overwritten(x, p.pos, p.bytes));
        assert(x1.subrange(a.pos as int, a.pos + 4) =~= u32_be(n as u32));
    }
}

/// A head that holds a length holds it still after bytes outside of it
/// changed.
pub proof fn lemma_resized_kept(x: Seq<u8>, y: Seq<u8>, a: AtomBounds, n: int)
    requires
        a.wf(),
        resized(x, a, n),
        y.len() == x.len(),
        forall|j: int| 0 <= j < x.len() && in_size_field(a, j) ==> y[j] == x[j],
    ensures
        resized(y, a, n),
{
    if a.size.ext {
        assert(y.subrange(a.pos as int, a.pos + 4) =~= x.subrange(a.pos as int, a.pos + 4));
        assert(y.subrange(a.pos + 8, a.pos + 16) =~= x.subrange(a.pos + 8, a.pos + 16));
    } else {
        assert(y.subrange(a.pos as int, a.pos + 4) =~= x.subrange(a.pos as int, a.pos + 4));
    }
}

/// No position lies in the heads of two atoms of which one lies inside the
/// content of the other.
pub proof fn lemma_fields_apart(updates: Seq<AtomBounds>, len: int, u: int, v: int, j: int)
    requires
        chain(updates, len),
        0 <= u < v < updates.len(),
    ensures
        !(in_size_field(updates[u], j) && in_size_field(updates[v], j)),
{
    assert(updates[u].wf());
    assert(updates[v].wf());
    assert(updates[u].spec_content_pos() <= updates[v].pos);
}

/// After the new lengths were written over the heads of the atoms from the
/// one at `from` on, each of these heads holds its new length, and every
/// other byte is as it was.
#[verifier::rlimit(40)]
pub proof fn lemma_sizes_written(x: Seq<u8>, updates: Seq<AtomBounds>, d: int, from: int)
    requires
        0 <= from <= updates.len(),
        chain(updates, x.len() as int),
        size_patches(updates, d, from) is Ok,
    ensures
        ({
            let y = patched(x, size_patches(updates, d, from)->Ok_0);
            &&& y.len() == x.len()
            &&& forall|u: int| from <= u < updates.len()
                ==> resized(y, #[trigger] updates[u], updates[u].size.len + d)
            &&& forall|j: int|
                0 <= j < x.len() && (forall|u: int|
                    from <= u < updates.len() ==> !in_size_field(#[trigger] updates[u], j)) ==> y[j]
                    == x[j]
        }),
    decreases updates.len() - from,
{
    let ps = size_patches(updates, d, from)->Ok_0;
    if from < updates.len() {
        let a = updates[from];
        assert(a.wf());
        let here = size_patch(a, d)->Ok_0;
        let rest = size_patches(updates, d, from + 1)->Ok_0;
        let n = a.size.len + d;
        lemma_patched_concat(x, here, rest);
        let x1 = patched(x, here);
        lemma_size_written(x, a, d);
        lemma_sizes_written(x1, updates, d, from + 1);
        let y = patched(x1, rest);
        assert forall|j: int| 0 <= j < x.len() && in_size_field(a, j) implies y[j] == x1[j] by {
            assert forall|u: int| from + 1 <= u < updates.len() implies !in_size_field(
                #[trigger] updates[u],
                j,
            ) by {
                lemma_fields_apart(updates, x.len() as int, from, u, j);
            }
        }
        lemma_resized_kept(x1, y, a, n);
        assert forall|u: int| from <= u < updates.len() implies resized(
            y,
            #[trigger] updates[u],
            updates[u].size.len + d,
        ) by {}
    } else {
        assert(ps =~= Seq::empty());
    }
}

/// The head of a child atom that ends at or before position `q` is read
/// alike from two contents that are the same up to `q`.
pub proof fn lemma_child_at_prefix(c: Seq<u8>, other: Seq<u8>, p: int, q: int)
    requires
        0 <= p,
        q <= c.len(),
        q <= other.len(),
        c.subrange(0, q) == other.subrange(0, q),
        child_at(c, p) is Ok,
        p + child_at(c, p)->Ok_0.spec_size().len <= q,
    ensures
        child_at(other, p) == child_at(c, p),
        content_of(
            other,
            p + child_at(c, p)->Ok_0.spec_size().spec_head_len(),
            child_at(c, p)->Ok_0.spec_size(),
        ) == content_of(
            c,
            p + child_at(c, p)->Ok_0.spec_size().spec_head_len(),
            child_at(c, p)->Ok_0.spec_size(),
        ),
{
    let h = child_at(c, p)->Ok_0;
    let n = h.spec_size().len as int;
    let a = c.subrange(0, q);
    let b = other.subrange(0, q);
    assert(c.subrange(p, p + 4) =~= a.subrange(p, p + 4));
    assert(other.subrange(p, p + 4) =~= b.subrange(p, p + 4));
    assert(c.subrange(p + 4, p + 8) =~= a.subrange(p + 4, p + 8));
    assert(other.subrange(p + 4, p + 8) =~= b.subrange(p + 4, p + 8));
    if h.size == 1 {
        assert(c.subrange(p + 8, p + 16) =~= a.subrange(p + 8, p + 16));
        assert(other.subrange(p + 8, p + 16) =~= b.subrange(p + 8, p + 16));
    }
    let hl = h.spec_size().spec_head_len() as int;
    assert(c.subrange(p + hl, p + n) =~= a.subrange(p + hl, p + n));
    assert(other.subrange(p + hl, p + n) =~= b.subrange(p + hl, p + n));
}

/// The head of an atom at the top of a file that has no open length and
/// ends at or before position `q` is read alike from two files that are the
/// same up to `q`.
pub proof fn lemma_top_at_prefix(c: Seq<u8>, other: Seq<u8>, p: int, q: int)
    requires
        0 <= p,
        q <= c.len(),
        q <= other.len(),
        c.subrange(0, q) == other.subrange(0, q),
        top_at(c, p) is Ok,
        top_at(c, p)->Ok_0.size != 0,
        p + top_at(c, p)->Ok_0.spec_size().len <= q,
    ensures
        top_at(other, p) == top_at(c, p),
        content_of(
            other,
            p + top_at(c, p)->Ok_0.spec_size().spec_head_len(),
            top_at(c, p)->Ok_0.spec_size(),
        ) == content_of(
            c,
            p + top_at(c, p)->Ok_0.spec_size().spec_head_len(),
            top_at(c, p)->Ok_0.spec_size(),
        ),
{
    let h = top_at(c, p)->Ok_0;
    let n = h.spec_size().len as int;
    let a = c.subrange(0, q);
    let b = other.subrange(0, q);
    assert(c.subrange(p, p + 4) =~= a.subrange(p, p + 4));
    assert(other.subrange(p, p + 4) =~= b.subrange(p, p + 4));
    assert(c.subrange(p + 4, p + 8) =~= a.subrange(p + 4, p + 8));
    assert(other.subrange(p + 4, p + 8) =~= b.subrange(p + 4, p + 8));
    if h.size == 1 {
        assert(c.subrange(p + 8, p + 16) =~= a.subrange(p + 8, p + 16));
        assert(other.subrange(p + 8, p + 16) =~= b.subrange(p + 8, p + 16));
    }
    let hl = h.spec_size().spec_head_len() as int;
    assert(c.subrange(p + hl, p + n) =~= a.subrange(p + hl, p + n));
    assert(other.subrange(p + hl, p + n) =~= b.subrange(p + hl, p + n));
}

/// The head of a child atom is read alike from two contents whose ends are
/// the same, at the same distance from the end.
pub proof fn lemma_child_at_shift(c: Seq<u8>, p: int, other: Seq<u8>, q: int)
    requires
        0 <= p <= c.len(),
        0 <= q <= other.len(),
        c.len() - p == other.len() - q,
        c.subrange(p, c.len() as int) == other.subrange(q, other.len() as int),
        child_at(c, p) is Ok,
    ensures
        child_at(other, q) == child_at(c, p),
        content_of(
            other,
            q + child_at(c, p)->Ok_0.spec_size().spec_head_len(),
            child_at(c, p)->Ok_0.spec_size(),
        ) == content_of(
            c,
            p + child_at(c, p)->Ok_0.spec_size().spec_head_len(),
            child_at(c, p)->Ok_0.spec_size(),
        ),
        other.subrange(
            q + child_at(c, p)->Ok_0.spec_size().len,
            other.len() as int,
        ) == c.subrange(p + child_at(c, p)->Ok_0.spec_size().len, c.len() as int),
{
    let h = child_at(c, p)->Ok_0;
    let n = h.spec_size().len as int;
    let a = c.subrange(p, c.len() as int);
    let b = other.subrange(q, other.len() as int);
    assert(c.subrange(p, p + 4) =~= a.subrange(0, 4));
    assert(other.subrange(q, q + 4) =~= b.subrange(0, 4));
    assert(c.subrange(p + 4, p + 8) =~= a.subrange(4, 8));
    assert(other.subrange(q + 4, q + 8) =~= b.subrange(4, 8));
    if h.size == 1 {
        assert(c.subrange(p + 8, p + 16) =~= a.subrange(8, 16));
        assert(other.subrange(q + 8, q + 16) =~= b.subrange(8, 16));
    }
    let hl = h.spec_size().spec_head_len() as int;
    assert(c.subrange(p + hl, p + n) =~= a.subrange(hl, n));
    assert(other.subrange(q + hl, q + n) =~= b.subrange(hl, n));
    assert(c.subrange(p + n, c.len() as int) =~= a.subrange(n, a.len() as int));
    assert(other.subrange(q + n, other.len() as int) =~= b.subrange(n, b.len() as int));
}

/// The head of an atom at the top of a file is read alike from two files
/// whose ends are the same, at the same distance from the end.
pub proof fn lemma_top_at_shift(c: Seq<u8>, p: int, other: Seq<u8>, q: int)
    requires
        0 <= p <= c.len(),
        0 <= q <= other.len(),
        c.len() - p == other.len() - q,
        c.subrange(p, c.len() as int) == other.subrange(q, other.len() as int),
        top_at(c, p) is Ok,
    ensures
        top_at(other, q) == top_at(c, p),
        content_of(
            other,
            q + top_at(c, p)->Ok_0.spec_size().spec_head_len(),
            top_at(c, p)->Ok_0.spec_size(),
        ) == content_of(
            c,
            p + top_at(c, p)->Ok_0.spec_size().spec_head_len(),
            top_at(c, p)->Ok_0.spec_size(),
        ),
        other.subrange(
            q + top_at(c, p)->Ok_0.spec_size().len,
            other.len() as int,
        ) == c.subrange(p + top_at(c, p)->Ok_0.spec_size().len, c.len() as int),
{
    let h = top_at(c, p)->Ok_0;
    let n = h.spec_size().len as int;
    let a = c.subrange(p, c.len() as int);
    let b = other.subrange(q, other.len() as int);
    assert(c.subrange(p, p + 4) =~= a.subrange(0, 4));
    assert(other.subrange(q, q + 4) =~= b.subrange(0, 4));
    assert(c.subrange(p + 4, p + 8) =~= a.subrange(4, 8));
    assert(other.subrange(q + 4, q + 8) =~= b.subrange(4, 8));
    if h.size == 1 {
        assert(c.subrange(p + 8, p + 16) =~= a.subrange(8, 16));
        assert(other.subrange(q + 8, q + 16) =~= b.subrange(8, 16));
    }
    let hl = h.spec_size().spec_head_len() as int;
    assert(c.subrange(p + hl, p + n) =~= a.subrange(hl, n));
    assert(other.subrange(q + hl, q + n) =~= b.subrange(hl, n));
    assert(c.subrange(p + n, c.len() as int) =~= a.subrange(n, a.len() as int));
    assert(other.subrange(q + n, other.len() as int) =~= b.subrange(n, b.len() as int));
}

/// The form of the head of an atom of `n` bytes stands at position `p` of
/// the bytes `x`: extended or not, as `ext` says.
pub open spec fn sized(x: Seq<u8>, p: int, ext: bool, n: int) -> bool {
    if ext {
        p + 16 <= x.len() && x.subrange(p, p + 4) == u32_be(1) && x.subrange(p + 8, p + 16)
            == u64_be(n as u64)
    } else {
        p + 8 <= x.len() && x.subrange(p, p + 4) == u32_be(n as u32)
    }
}

/// Where the head of a child atom was given a new length, it is read with
/// that length, and with the identifier that it had.
pub proof fn lemma_child_resized(c: Seq<u8>, p: int, other: Seq<u8>, q: int, n: int)
    requires
        0 <= p,
        0 <= q,
        child_at(c, p) is Ok,
        n <= other.len() - q,
        n <= u64::MAX,
        child_at(c, p)->Ok_0.spec_size().spec_head_len() <= n,
        !child_at(c, p)->Ok_0.spec_size().ext ==> n <= u32::MAX,
        sized(other, q, child_at(c, p)->Ok_0.spec_size().ext, n),
        other.subrange(q + 4, q + 8) == c.subrange(p + 4, p + 8),
    ensures
        child_at(other, q) is Ok,
        child_at(other, q)->Ok_0.fourcc == child_at(c, p)->Ok_0.fourcc,
        child_at(other, q)->Ok_0.spec_size() == (Size {
            ext: child_at(c, p)->Ok_0.spec_size().ext,
            len: n as u64,
        }),
{
    let h = child_at(c, p)->Ok_0;
    lemma_be_u32_of_bytes(1);
    lemma_be_u32_of_bytes(n as u32);
    lemma_be_u64_of_bytes(n as u64);
}

/// Where the head of an atom at the top of a file was given a new length,
/// it is read with that length, and with the identifier that it had.
pub proof fn lemma_top_resized(c: Seq<u8>, p: int, other: Seq<u8>, n: int)
    requires
        0 <= p,
        top_at(c, p) is Ok,
        top_at(c, p)->Ok_0.size != 0,
        n <= other.len() - p,
        n <= u64::MAX,
        top_at(c, p)->Ok_0.spec_size().spec_head_len() <= n,
        !top_at(c, p)->Ok_0.spec_size().ext ==> n <= u32::MAX,
        sized(other, p, top_at(c, p)->Ok_0.spec_size().ext, n),
        other.subrange(p + 4, p + 8) == c.subrange(p + 4, p + 8),
    ensures
        top_at(other, p) is Ok,
        top_at(other, p)->Ok_0.fourcc == top_at(c, p)->Ok_0.fourcc,
        top_at(other, p)->Ok_0.spec_size() == (Size {
            ext: top_at(c, p)->Ok_0.spec_size().ext,
            len: n as u64,
        }),
{
    let h = top_at(c, p)->Ok_0;
    lemma_be_u32_of_bytes(1);
    lemma_be_u32_of_bytes(n as u32);
    lemma_be_u64_of_bytes(n as u64);
}

/// What is found in the content of a metadata atom has the bounds that its
/// head gave.
pub proof fn lemma_meta_found_bounds(c: Seq<u8>, p: int, base: int, acc: MetaBounds)
    requires
        0 <= p,
        meta_found(c, p, base, acc) is Ok,
    ensures
        meta_found(c, p, base, acc)->Ok_0.bounds == acc.bounds,
    decreases c.len() - p,
{
    if p < c.len() {
        let h = child_at(c, p)->Ok_0;
        let size = h.spec_size();
        let cp = p + size.spec_head_len();
        let next = p + size.len;
        if h.fourcc == Ident(crate::ident::HANDLER_REFERENCE) {
            let b = found_at(c, cp, base, size, h.fourcc)->Ok_0;
            lemma_meta_found_bounds(
                c,
                next,
                base,
                MetaBounds { hdlr: Some(crate::atom::hdlr::HdlrBounds { bounds: b }), ..acc },
            );
        } else if h.fourcc == Ident(crate::ident::ITEM_LIST) {
            let b = found_at(c, cp, base, size, h.fourcc)->Ok_0;
            lemma_meta_found_bounds(
                c,
                next,
                base,
                MetaBounds { ilst: Some(crate::atom::ilst::IlstBounds { bounds: b }), ..acc },
            );
        } else {
            lemma_meta_found_bounds(c, next, base, acc);
        }
    }
}

/// A metadata atom that is found has the bounds that its head gives.
pub proof fn lemma_meta_bounds(s: Seq<u8>, p: int, base: int, size: Size)
    requires
        Meta::found(s, p, base, size) is Ok,
    ensures
        Meta::found(s, p, base, size)->Ok_0.bounds == bounds_at(base + p, size, Ident(METADATA)),
{
    reveal(Meta::found);
    let c = content_of(s, p, size)->0;
    let start = children_start(c)->Ok_0;
    lemma_meta_found_bounds(
        c,
        start,
        base + p,
        MetaBounds { bounds: bounds_at(base + p, size, Ident(METADATA)), hdlr: None, ilst: None },
    );
}

/// What is found in the content of a user data atom has the bounds that its
/// head gave.
pub proof fn lemma_udta_found_bounds(c: Seq<u8>, p: int, base: int, acc: UdtaBounds)
    requires
        0 <= p,
        udta_found(c, p, base, acc) is Ok,
    ensures
        udta_found(c, p, base, acc)->Ok_0.bounds == acc.bounds,
    decreases c.len() - p,
{
    if p < c.len() {
        let h = child_at(c, p)->Ok_0;
        let size = h.spec_size();
        let cp = p + size.spec_head_len();
        let next = p + size.len;
        if h.fourcc == Ident(METADATA) {
            let b = Meta::found(c, cp, base, size)->Ok_0;
            lemma_udta_found_bounds(c, next, base, UdtaBounds { meta: Some(b), ..acc });
        } else {
            lemma_udta_found_bounds(c, next, base, acc);
        }
    }
}

/// A user data atom that is found has the bounds that its head gives.
pub proof fn lemma_udta_bounds(s: Seq<u8>, p: int, base: int, size: Size)
    requires
        Udta::found(s, p, base, size) is Ok,
    ensures
        Udta::found(s, p, base, size)->Ok_0.bounds == bounds_at(base + p, size, Ident(USER_DATA)),
{
    reveal(Udta::found);
    let c = content_of(s, p, size)->0;
    lemma_udta_found_bounds(
        c,
        0,
        base + p,
        UdtaBounds { bounds: bounds_at(base + p, size, Ident(USER_DATA)), meta: None },
    );
}

/// What is found in the content of a movie atom has the bounds that its
/// head gave.
pub proof fn lemma_moov_found_bounds(c: Seq<u8>, p: int, base: int, acc: MoovBoundsView)
    requires
        0 <= p,
        moov_found(c, p, base, acc) is Ok,
    ensures
        moov_found(c, p, base, acc)->Ok_0.bounds == acc.bounds,
    decreases c.len() - p,
{
    if p < c.len() {
        let h = child_at(c, p)->Ok_0;
        let size = h.spec_size();
        let cp = p + size.spec_head_len();
        let next = p + size.len;
        if h.fourcc == Ident(crate::ident::TRACK) {
            let b = Trak::found(c, cp, base, size)->Ok_0;
            lemma_moov_found_bounds(
                c,
                next,
                base,
                MoovBoundsView { trak: acc.trak.push(b), ..acc },
            );
        } else if h.fourcc == Ident(USER_DATA) {
            let b = Udta::found(c, cp, base, size)->Ok_0;
            lemma_moov_found_bounds(c, next, base, MoovBoundsView { udta: Some(b), ..acc });
        } else {
            lemma_moov_found_bounds(c, next, base, acc);
        }
    }
}

/// A movie atom that is found has the bounds that its head gives.
pub proof fn lemma_moov_bounds(s: Seq<u8>, p: int, base: int, size: Size)
    requires
        Moov::found(s, p, base, size) is Ok,
    ensures
        Moov::found(s, p, base, size)->Ok_0.bounds == bounds_at(base + p, size, Ident(MOVIE)),
{
    reveal(Moov::found);
    let c = content_of(s, p, size)->0;
    lemma_moov_found_bounds(
        c,
        0,
        base + p,
        MoovBoundsView {
            bounds: bounds_at(base + p, size, Ident(MOVIE)),
            trak: Seq::empty(),
            udta: None,
        },
    );
}

/// What finding an atom gives hangs on its content alone, besides where it
/// lies.
pub proof fn lemma_found_local(s: Seq<u8>, other: Seq<u8>, p: int, q: int, base: int, size: Size)
    requires
        content_of(s, p, size) == content_of(other, q, size),
    ensures
        Trak::found(other, q, base + p - q, size) == Trak::found(s, p, base, size),
        Udta::found(other, q, base + p - q, size) == Udta::found(s, p, base, size),
        Meta::found(other, q, base + p - q, size) == Meta::found(s, p, base, size),
        Moov::found(other, q, base + p - q, size) == Moov::found(s, p, base, size),
        forall|fourcc: Ident| #[trigger]
            found_at(other, q, base + p - q, size, fourcc) == found_at(s, p, base, size, fourcc),
{
    reveal(Trak::found);
    reveal(Udta::found);
    reveal(Meta::found);
    reveal(Moov::found);
    reveal(found_at);
}

/// A part of a part of a run of bytes is a part of the run.
pub proof fn lemma_subrange_twice(s: Seq<u8>, a: int, b: int, i: int, j: int)
    requires
        0 <= a <= b <= s.len(),
        0 <= i <= j <= b - a,
    ensures
        s.subrange(a, b).subrange(i, j) == s.subrange(a + i, a + j),
{
    assert(s.subrange(a, b).subrange(i, j) =~= s.subrange(a + i, a + j));
}

/// The head of a child atom is read from a part of a stream as it is read
/// from the stream, where the atom lies inside the part.
pub proof fn lemma_child_at_prefix_of(s: Seq<u8>, a: int, b: int, p: int)
    requires
        0 <= a <= b <= s.len(),
        0 <= p,
        child_at(s, a + p) is Ok,
        a + p + child_at(s, a + p)->Ok_0.spec_size().len <= b,
    ensures
        child_at(s.subrange(a, b), p) == child_at(s, a + p),
{
    let c = s.subrange(a, b);
    let h = child_at(s, a + p)->Ok_0;
    assert(c.subrange(p, p + 4) =~= s.subrange(a + p, a + p + 4));
    assert(c.subrange(p + 4, p + 8) =~= s.subrange(a + p + 4, a + p + 8));
    if h.size == 1 {
        assert(c.subrange(p + 8, p + 16) =~= s.subrange(a + p + 8, a + p + 16));
    }
}

/// The form of a head that stands in a stream stands in a part of the
/// stream that holds it.
pub proof fn lemma_sized_part(x: Seq<u8>, a: int, b: int, q: int, ext: bool, n: int)
    requires
        0 <= a <= b <= x.len(),
        0 <= q,
        a + q + (if ext {
            16int
        } else {
            8int
        }) <= b,
        sized(x, a + q, ext, n),
    ensures
        sized(x.subrange(a, b), q, ext, n),
        x.subrange(a, b).subrange(q + 4, q + 8) == x.subrange(a + q + 4, a + q + 8),
{
    lemma_subrange_twice(x, a, b, q, q + 4);
    lemma_subrange_twice(x, a, b, q + 4, q + 8);
    if ext {
        lemma_subrange_twice(x, a, b, q + 8, q + 16);
    }
}

/// A user data atom is found by the walk over its content.
pub proof fn lemma_udta_found_walk(s: Seq<u8>, p: int, base: int, size: Size)
    requires
        0 <= p,
        size.wf(),
        p + size.spec_content_len() <= s.len(),
    ensures
        Udta::found(s, p, base, size) is Ok == udta_found(
            s.subrange(p, p + size.spec_content_len()),
            0,
            base + p,
            UdtaBounds { bounds: bounds_at(base + p, size, Ident(USER_DATA)), meta: None },
        ) is Ok,
        Udta::found(s, p, base, size) is Ok ==> Udta::found(s, p, base, size) == udta_found(
            s.subrange(p, p + size.spec_content_len()),
            0,
            base + p,
            UdtaBounds { bounds: bounds_at(base + p, size, Ident(USER_DATA)), meta: None },
        ),
{
    reveal(Udta::found);
}

/// A movie atom is found by the walk over its content.
pub proof fn lemma_moov_found_walk(s: Seq<u8>, p: int, base: int, size: Size)
    requires
        0 <= p,
        size.wf(),
        p + size.spec_content_len() <= s.len(),
    ensures
        Moov::found(s, p, base, size) is Ok == moov_found(
            s.subrange(p, p + size.spec_content_len()),
            0,
            base + p,
            MoovBoundsView {
                bounds: bounds_at(base + p, size, Ident(MOVIE)),
                trak: Seq::empty(),
                udta: None,
            },
        ) is Ok,
        Moov::found(s, p, base, size) is Ok ==> Moov::found(s, p, base, size) == moov_found(
            s.subrange(p, p + size.spec_content_len()),
            0,
            base + p,
            MoovBoundsView {
                bounds: bounds_at(base + p, size, Ident(MOVIE)),
                trak: Seq::empty(),
                udta: None,
            },
        ),
{
    reveal(Moov::found);
}

/// An atom that is found lies in its stream.
pub proof fn lemma_found_fits(s: Seq<u8>, p: int, base: int, size: Size)
    ensures
        Udta::found(s, p, base, size) is Ok ==> p + size.spec_content_len() <= s.len(),
        Moov::found(s, p, base, size) is Ok ==> p + size.spec_content_len() <= s.len(),
        Meta::found(s, p, base, size) is Ok ==> p + size.spec_content_len() <= s.len(),
{
    reveal(Udta::found);
    reveal(Moov::found);
    reveal(Meta::found);
}

} // verus!
