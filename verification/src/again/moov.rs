//! The walk over the atoms that a movie atom holds.

use crate::again::{lemma_child_at_prefix, lemma_child_at_shift, lemma_found_local, lemma_udta_bounds};
use crate::atom::base::{child_at, found_at};
use crate::atom::moov::{moov_found, Moov, MoovBoundsView};
use crate::atom::trak::Trak;
use crate::atom::udta::{Udta, UdtaBounds};
use crate::again::{lemma_child_resized, lemma_subrange_twice, sized};
use crate::atom::base::content_of;
use crate::head::{bounds_at, Size};
use crate::error::ErrorView;
use crate::ident::{Ident, MOVIE, TRACK, USER_DATA};
use vstd::prelude::*;

verus! {

/// The two hold the same of what was found, whatever their own bounds.
pub open spec fn moov_same(a: MoovBoundsView, b: MoovBoundsView) -> bool {
    a.trak == b.trak && a.udta == b.udta
}

/// What was found when the walk over the atoms from position `p` on
/// comes to position `q`, where it does: the atoms on the way must be
/// found without an error, and one of them must end at `q`.
pub open spec fn moov_upto(c: Seq<u8>, p: int, q: int, base: int, acc: MoovBoundsView) -> Option<MoovBoundsView>
    decreases c.len() - p,
{
    if p == q {
        Some(acc)
    } else if p > q || p >= c.len() {
        None
    } else {
        match child_at(c, p) {
            Err(_) => None,
            Ok(h) => {
                let size = h.spec_size();
                let cp = p + size.spec_head_len();
                let next = p + size.len;
                if h.fourcc == Ident(TRACK) {
                    match Trak::found(c, cp, base, size) {
                        Err(_) => None,
                        Ok(b) => moov_upto(c, next, q, base, MoovBoundsView { trak: acc.trak.push(b), ..acc }),
                    }
                } else if h.fourcc == Ident(USER_DATA) {
                    match Udta::found(c, cp, base, size) {
                        Err(_) => None,
                        Ok(b) => moov_upto(c, next, q, base, MoovBoundsView { udta: Some(b), ..acc }),
                    }
                } else {
                    moov_upto(c, next, q, base, acc)
                }
            },
        }
    }
}

/// Where the walk comes to position `q`, what it finds in all is what it
/// finds from `q` on, with what was found on the way.
pub proof fn lemma_moov_through(c: Seq<u8>, p: int, q: int, base: int, acc: MoovBoundsView)
    requires
        moov_upto(c, p, q, base, acc) is Some,
    ensures
        moov_found(c, p, base, acc) == moov_found(c, q, base, moov_upto(c, p, q, base, acc)->0),
    decreases c.len() - p,
{
    if p != q {
        let h = child_at(c, p)->Ok_0;
        let size = h.spec_size();
        let cp = p + size.spec_head_len();
        let next = p + size.len;
        if h.fourcc == Ident(TRACK) {
            let b = Trak::found(c, cp, base, size)->Ok_0;
            lemma_moov_through(c, next, q, base, MoovBoundsView { trak: acc.trak.push(b), ..acc });
        } else if h.fourcc == Ident(USER_DATA) {
            let b = Udta::found(c, cp, base, size)->Ok_0;
            lemma_moov_through(c, next, q, base, MoovBoundsView { udta: Some(b), ..acc });
        } else {
            lemma_moov_through(c, next, q, base, acc);
        }
    }
}

/// What the walk finds of the user data atom is what was found before, or lies at or
/// behind where the walk starts.
pub proof fn lemma_moov_pos(c: Seq<u8>, p: int, base: int, acc: MoovBoundsView)
    requires
        0 <= p,
        0 <= base,
        base + c.len() <= u64::MAX,
        moov_found(c, p, base, acc) is Ok,
    ensures
        moov_found(c, p, base, acc)->Ok_0.udta == acc.udta
            || (moov_found(c, p, base, acc)->Ok_0.udta is Some && moov_found(c, p, base, acc)->Ok_0.udta->0.bounds.pos >= base + p),
    decreases c.len() - p,
{
    if p < c.len() {
        let h = child_at(c, p)->Ok_0;
        let size = h.spec_size();
        let cp = p + size.spec_head_len();
        let next = p + size.len;
        if h.fourcc == Ident(TRACK) {
            let b = Trak::found(c, cp, base, size)->Ok_0;
            lemma_moov_pos(c, next, base, MoovBoundsView { trak: acc.trak.push(b), ..acc });
        } else if h.fourcc == Ident(USER_DATA) {
            let b = Udta::found(c, cp, base, size)->Ok_0;
            lemma_udta_bounds(c, cp, base, size);
            lemma_moov_pos(c, next, base, MoovBoundsView { udta: Some(b), ..acc });
        } else {
            lemma_moov_pos(c, next, base, acc);
        }
    }
}

/// The walk comes to where the user data atom lies that it finds in the end: what
/// it found before lies before.
pub proof fn lemma_moov_reach(c: Seq<u8>, p: int, q: int, base: int, acc: MoovBoundsView)
    requires
        0 <= p,
        0 <= base,
        base + c.len() <= u64::MAX,
        p <= q,
        moov_found(c, p, base, acc) is Ok,
        moov_found(c, p, base, acc)->Ok_0.udta is Some,
        moov_found(c, p, base, acc)->Ok_0.udta->0.bounds.pos == base + q,
        (acc.udta is None || acc.udta->0.bounds.pos < base + p),
    ensures
        moov_upto(c, p, q, base, acc) is Some,
        (moov_upto(c, p, q, base, acc)->0.udta is None || moov_upto(c, p, q, base, acc)->0.udta->0.bounds.pos < base + q),
    decreases c.len() - p,
{
    if p != q {
        let h = child_at(c, p)->Ok_0;
        let size = h.spec_size();
        let cp = p + size.spec_head_len();
        let next = p + size.len;
        if h.fourcc == Ident(TRACK) {
            let b = Trak::found(c, cp, base, size)->Ok_0;
            let acc2 = MoovBoundsView { trak: acc.trak.push(b), ..acc };
            lemma_moov_pos(c, next, base, acc2);
            lemma_moov_reach(c, next, q, base, acc2);
        } else if h.fourcc == Ident(USER_DATA) {
            let b = Udta::found(c, cp, base, size)->Ok_0;
            lemma_udta_bounds(c, cp, base, size);
            let acc2 = MoovBoundsView { udta: Some(b), ..acc };
            lemma_moov_pos(c, next, base, acc2);
            lemma_moov_reach(c, next, q, base, acc2);
        } else {
            lemma_moov_pos(c, next, base, acc);
            lemma_moov_reach(c, next, q, base, acc);
        }
    }
}

/// Where the walk over one content comes to position `q`, so does the
/// walk over another that is the same up to `q`, and it finds the same on
/// the way.
pub proof fn lemma_moov_transfer(
    c: Seq<u8>,
    other: Seq<u8>,
    p: int,
    q: int,
    base: int,
    acc: MoovBoundsView,
    other_acc: MoovBoundsView,
)
    requires
        0 <= p <= q,
        q <= c.len(),
        q <= other.len(),
        c.subrange(0, q) == other.subrange(0, q),
        moov_same(acc, other_acc),
        moov_upto(c, p, q, base, acc) is Some,
    ensures
        moov_upto(other, p, q, base, other_acc) is Some,
        moov_same(moov_upto(c, p, q, base, acc)->0, moov_upto(other, p, q, base, other_acc)->0),
    decreases c.len() - p,
{
    if p != q {
        let h = child_at(c, p)->Ok_0;
        let size = h.spec_size();
        let cp = p + size.spec_head_len();
        let next = p + size.len;
        assert(next <= q) by {
            if h.fourcc == Ident(TRACK) {
                let b = Trak::found(c, cp, base, size)->Ok_0;
                assert(moov_upto(c, next, q, base, MoovBoundsView { trak: acc.trak.push(b), ..acc }) is Some);
            } else if h.fourcc == Ident(USER_DATA) {
                let b = Udta::found(c, cp, base, size)->Ok_0;
                assert(moov_upto(c, next, q, base, MoovBoundsView { udta: Some(b), ..acc }) is Some);
            } else {
                assert(moov_upto(c, next, q, base, acc) is Some);
            }
        }
        lemma_child_at_prefix(c, other, p, q);
        lemma_found_local(c, other, cp, cp, base, size);
        if h.fourcc == Ident(TRACK) {
            let b = Trak::found(c, cp, base, size)->Ok_0;
            assert(Trak::found(other, cp, base, size) == Ok::<_, ErrorView>(b));
            lemma_moov_transfer(
                c,
                other,
                next,
                q,
                base,
                MoovBoundsView { trak: acc.trak.push(b), ..acc },
                MoovBoundsView { trak: other_acc.trak.push(b), ..other_acc },
            );
        } else if h.fourcc == Ident(USER_DATA) {
            let b = Udta::found(c, cp, base, size)->Ok_0;
            assert(Udta::found(other, cp, base, size) == Ok::<_, ErrorView>(b));
            lemma_moov_transfer(
                c,
                other,
                next,
                q,
                base,
                MoovBoundsView { udta: Some(b), ..acc },
                MoovBoundsView { udta: Some(b), ..other_acc },
            );
        } else {
            lemma_moov_transfer(c, other, next, q, base, acc, other_acc);
        }
    }
}

/// Where the walk stands at the user data atom that it finds in the end, the atom
/// there is that one, and behind it the walk finds no other.
pub proof fn lemma_moov_at_target(c: Seq<u8>, q: int, base: int, acc: MoovBoundsView)
    requires
        0 <= q,
        0 <= base,
        base + c.len() <= u64::MAX,
        moov_found(c, q, base, acc) is Ok,
        moov_found(c, q, base, acc)->Ok_0.udta is Some,
        moov_found(c, q, base, acc)->Ok_0.udta->0.bounds.pos == base + q,
        (acc.udta is None || acc.udta->0.bounds.pos < base + q),
    ensures
        q < c.len(),
        child_at(c, q) is Ok,
        child_at(c, q)->Ok_0.fourcc == Ident(USER_DATA),
        ({
            let size = child_at(c, q)->Ok_0.spec_size();
            let found = Udta::found(c, q + size.spec_head_len(), base, size);
            &&& found is Ok
            &&& moov_found(c, q, base, acc)->Ok_0.udta == Some(found->Ok_0)
            &&& moov_found(c, q + size.len, base, MoovBoundsView { udta: Some(found->Ok_0), ..acc })
                == Ok::<_, ErrorView>(moov_found(c, q, base, acc)->Ok_0)
        }),
{
    let h = child_at(c, q)->Ok_0;
    let size = h.spec_size();
    let cp = q + size.spec_head_len();
    let next = q + size.len;
    if h.fourcc == Ident(TRACK) {
        let b = Trak::found(c, cp, base, size)->Ok_0;
        lemma_moov_pos(c, next, base, MoovBoundsView { trak: acc.trak.push(b), ..acc });
    } else if h.fourcc == Ident(USER_DATA) {
        let b = Udta::found(c, cp, base, size)->Ok_0;
        lemma_udta_bounds(c, cp, base, size);
        lemma_moov_pos(c, next, base, MoovBoundsView { udta: Some(b), ..acc });
    } else {
        lemma_moov_pos(c, next, base, acc);
    }
}

/// Where the walk over the end of one content finds no user data atom, the walk
/// over the same end of another content finds none, and it ends without an
/// error as the first did.
pub proof fn lemma_moov_suffix(
    c: Seq<u8>,
    p: int,
    base: int,
    acc: MoovBoundsView,
    other: Seq<u8>,
    q: int,
    other_base: int,
    other_acc: MoovBoundsView,
)
    requires
        0 <= p <= c.len(),
        0 <= q <= other.len(),
        0 <= base,
        base + c.len() <= u64::MAX,
        c.len() - p == other.len() - q,
        c.subrange(p, c.len() as int) == other.subrange(q, other.len() as int),
        moov_found(c, p, base, acc) is Ok,
        moov_found(c, p, base, acc)->Ok_0.udta == acc.udta,
        (acc.udta is None || acc.udta->0.bounds.pos < base + p),
    ensures
        moov_found(other, q, other_base, other_acc) is Ok,
        moov_found(other, q, other_base, other_acc)->Ok_0.udta == other_acc.udta,
    decreases c.len() - p,
{
    reveal(found_at);
    if p < c.len() {
        let h = child_at(c, p)->Ok_0;
        let size = h.spec_size();
        let cp = p + size.spec_head_len();
        let next = p + size.len;
        lemma_child_at_shift(c, p, other, q);
        if h.fourcc == Ident(TRACK) {
            let b = Trak::found(c, cp, base, size)->Ok_0;
            crate::atom::trak::lemma_trak_anywhere(
                c,
                cp,
                base,
                other,
                q + size.spec_head_len(),
                other_base,
                size,
            );
            let o = Trak::found(other, q + size.spec_head_len(), other_base, size)->Ok_0;
            lemma_moov_suffix(
                c,
                next,
                base,
                MoovBoundsView { trak: acc.trak.push(b), ..acc },
                other,
                q + size.len,
                other_base,
                MoovBoundsView { trak: other_acc.trak.push(o), ..other_acc },
            );
        } else if h.fourcc == Ident(USER_DATA) {
            let b = Udta::found(c, cp, base, size)->Ok_0;
            lemma_udta_bounds(c, cp, base, size);
            lemma_moov_pos(c, next, base, MoovBoundsView { udta: Some(b), ..acc });
        } else {
            lemma_moov_suffix(c, next, base, acc, other, q + size.len, other_base, other_acc);
        }
    }
}

/// The walk over a content in which the user data atom was given a new length,
/// and the bytes behind it moved with it, finds what it found before,
/// with the user data atom as it is found now.
pub proof fn lemma_moov_walk_again(
    c: Seq<u8>,
    other: Seq<u8>,
    base: int,
    init: MoovBoundsView,
    other_init: MoovBoundsView,
    new_size: Size,
    found: UdtaBounds,
)
    requires
        0 <= base,
        base + c.len() <= u64::MAX,
        base + other.len() <= u64::MAX,
        moov_found(c, 0, base, init) is Ok,
        moov_found(c, 0, base, init)->Ok_0.udta is Some,
        init.udta is None,
        other_init.udta is None,
        moov_same(init, other_init),
        new_size.ext == moov_found(c, 0, base, init)->Ok_0.udta->0.bounds.size.ext,
        new_size.wf(),
        !new_size.ext ==> new_size.len <= u32::MAX,
        other.len()
            == c.len() - moov_found(c, 0, base, init)->Ok_0.udta->0.bounds.size.len + new_size.len,
        other.subrange(0, (moov_found(c, 0, base, init)->Ok_0.udta->0.bounds.pos - base))
            == c.subrange(0, (moov_found(c, 0, base, init)->Ok_0.udta->0.bounds.pos - base)),
        sized(
            other,
            (moov_found(c, 0, base, init)->Ok_0.udta->0.bounds.pos - base),
            new_size.ext,
            new_size.len as int,
        ),
        other.subrange(
            (moov_found(c, 0, base, init)->Ok_0.udta->0.bounds.pos - base) + 4,
            (moov_found(c, 0, base, init)->Ok_0.udta->0.bounds.pos - base) + 8,
        )
            == c.subrange(
                (moov_found(c, 0, base, init)->Ok_0.udta->0.bounds.pos - base) + 4,
                (moov_found(c, 0, base, init)->Ok_0.udta->0.bounds.pos - base) + 8,
            ),
        Udta::found(
            other,
            (moov_found(c, 0, base, init)->Ok_0.udta->0.bounds.pos - base)
                + new_size.spec_head_len(),
            base,
            new_size,
        )
            == Ok::<UdtaBounds, ErrorView>(found),
        other.subrange(
            (moov_found(c, 0, base, init)->Ok_0.udta->0.bounds.pos - base) + new_size.len,
            other.len() as int,
        )
            == c.subrange(
            (moov_found(c, 0, base, init)->Ok_0.udta->0.bounds.pos - base)
                + moov_found(c, 0, base, init)->Ok_0.udta->0.bounds.size.len,
            c.len() as int,
        ),
    ensures
        moov_found(other, 0, base, other_init) is Ok,
        moov_found(other, 0, base, other_init)->Ok_0.udta == Some(found),
        moov_found(other, 0, base, other_init)->Ok_0.bounds == other_init.bounds,
        0 <= (moov_found(c, 0, base, init)->Ok_0.udta->0.bounds.pos - base),
        (moov_found(c, 0, base, init)->Ok_0.udta->0.bounds.pos - base)
            + moov_found(c, 0, base, init)->Ok_0.udta->0.bounds.size.len
            <= c.len(),
{
    let r = moov_found(c, 0, base, init)->Ok_0;
    let q = r.udta->0.bounds.pos - base;
    lemma_moov_pos(c, 0, base, init);
    lemma_moov_reach(c, 0, q, base, init);
    lemma_moov_through(c, 0, q, base, init);
    let mid = moov_upto(c, 0, q, base, init)->0;
    lemma_moov_at_target(c, q, base, mid);
    let size = child_at(c, q)->Ok_0.spec_size();
    lemma_udta_bounds(c, q + size.spec_head_len(), base, size);
    assert(size == r.udta->0.bounds.size);
    let after = MoovBoundsView { udta: Some(r.udta->0), ..mid };
    lemma_moov_transfer(c, other, 0, q, base, init, other_init);
    lemma_moov_through(other, 0, q, base, other_init);
    let mid2 = moov_upto(other, 0, q, base, other_init)->0;
    lemma_child_resized(c, q, other, q, new_size.len as int);
    let after2 = MoovBoundsView { udta: Some(found), ..mid2 };
    assert(moov_found(other, q, base, mid2) == moov_found(other, q + new_size.len, base, after2));
    lemma_moov_suffix(c, q + size.len, base, after, other, q + new_size.len, base, after2);
    crate::again::lemma_moov_found_bounds(other, 0, base, other_init);
}

/// The user data atom that the walk finds in the end lies inside the content.
pub proof fn lemma_moov_target_pos(c: Seq<u8>, base: int, init: MoovBoundsView)
    requires
        0 <= base,
        base + c.len() <= u64::MAX,
        moov_found(c, 0, base, init) is Ok,
        moov_found(c, 0, base, init)->Ok_0.udta is Some,
        init.udta is None,
    ensures
        0 <= moov_found(c, 0, base, init)->Ok_0.udta->0.bounds.pos - base,
        moov_found(c, 0, base, init)->Ok_0.udta->0.bounds.pos - base
            + moov_found(c, 0, base, init)->Ok_0.udta->0.bounds.size.len
            <= c.len(),
        moov_found(c, 0, base, init)->Ok_0.udta->0.bounds.size.spec_head_len()
            <= moov_found(c, 0, base, init)->Ok_0.udta->0.bounds.size.len,
        child_at(c, moov_found(c, 0, base, init)->Ok_0.udta->0.bounds.pos - base) is Ok,
        child_at(c, moov_found(c, 0, base, init)->Ok_0.udta->0.bounds.pos - base)->Ok_0.spec_size()
            == moov_found(c, 0, base, init)->Ok_0.udta->0.bounds.size,
        Udta::found(
            c,
            moov_found(c, 0, base, init)->Ok_0.udta->0.bounds.pos - base
                + moov_found(c, 0, base, init)->Ok_0.udta->0.bounds.size.spec_head_len(),
            base,
            moov_found(c, 0, base, init)->Ok_0.udta->0.bounds.size,
        )
            == Ok::<_, ErrorView>(
            moov_found(c, 0, base, init)->Ok_0.udta->0,
        ),
{
    let r = moov_found(c, 0, base, init)->Ok_0;
    let q = r.udta->0.bounds.pos - base;
    lemma_moov_pos(c, 0, base, init);
    lemma_moov_reach(c, 0, q, base, init);
    lemma_moov_through(c, 0, q, base, init);
    let mid = moov_upto(c, 0, q, base, init)->0;
    lemma_moov_at_target(c, q, base, mid);
    let size = child_at(c, q)->Ok_0.spec_size();
    lemma_udta_bounds(c, q + size.spec_head_len(), base, size);
}

/// A movie atom in which the user data atom was given a new length, and the
/// bytes behind it moved with it, is found again, with the user data atom as
/// it is found now.
#[verifier::spinoff_prover]
#[verifier::rlimit(60)]
pub proof fn lemma_moov_again(
    s: Seq<u8>,
    other: Seq<u8>,
    p: int,
    base: int,
    size: Size,
    other_size: Size,
    new_size: Size,
)
    requires
        0 <= p,
        0 <= base,
        base + s.len() <= u64::MAX,
        base + other.len() <= u64::MAX,
        size.wf(),
        other_size.wf(),
        Moov::found(s, p, base, size) is Ok,
        Moov::found(s, p, base, size)->Ok_0.udta is Some,
        new_size.ext == Moov::found(s, p, base, size)->Ok_0.udta->0.bounds.size.ext,
        new_size.wf(),
        !new_size.ext ==> new_size.len <= u32::MAX,
        other_size.spec_content_len()
            == size.spec_content_len() - Moov::found(s, p, base, size)->Ok_0.udta->0.bounds.size.len
                + new_size.len,
        p + other_size.spec_content_len() <= other.len(),
        other.subrange(p, (Moov::found(s, p, base, size)->Ok_0.udta->0.bounds.pos - base))
            == s.subrange(p, (Moov::found(s, p, base, size)->Ok_0.udta->0.bounds.pos - base)),
        sized(
            other,
            (Moov::found(s, p, base, size)->Ok_0.udta->0.bounds.pos - base),
            new_size.ext,
            new_size.len as int,
        ),
        other.subrange(
            (Moov::found(s, p, base, size)->Ok_0.udta->0.bounds.pos - base) + 4,
            (Moov::found(s, p, base, size)->Ok_0.udta->0.bounds.pos - base) + 8,
        )
            == s.subrange(
                (Moov::found(s, p, base, size)->Ok_0.udta->0.bounds.pos - base) + 4,
                (Moov::found(s, p, base, size)->Ok_0.udta->0.bounds.pos - base) + 8,
            ),
        Udta::found(other, (Moov::found(s, p, base, size)->Ok_0.udta->0.bounds.pos - base) + new_size.spec_head_len(), base, new_size) is Ok,
        other.subrange(
            (Moov::found(s, p, base, size)->Ok_0.udta->0.bounds.pos - base) + new_size.len,
            p + other_size.spec_content_len(),
        )
            == s.subrange(
            (Moov::found(s, p, base, size)->Ok_0.udta->0.bounds.pos - base)
                + Moov::found(s, p, base, size)->Ok_0.udta->0.bounds.size.len,
            p + size.spec_content_len(),
        ),
    ensures
        Moov::found(other, p, base, other_size) is Ok,
        Moov::found(other, p, base, other_size)->Ok_0.udta == Some(
            Udta::found(
                other,
                (Moov::found(s, p, base, size)->Ok_0.udta->0.bounds.pos - base)
                    + new_size.spec_head_len(),
                base,
                new_size,
            )->Ok_0,
        ),
        Moov::found(other, p, base, other_size)->Ok_0.bounds
            == bounds_at(base + p, other_size, Ident(MOVIE)),
{
    let n = size.spec_content_len();
    let n2 = other_size.spec_content_len();
    let c = s.subrange(p, p + n);
    let c2 = other.subrange(p, p + n2);
    let init = MoovBoundsView { bounds: bounds_at(base + p, size, Ident(MOVIE)), trak: Seq::empty(), udta: None };
    let init2 = MoovBoundsView { bounds: bounds_at(base + p, other_size, Ident(MOVIE)), trak: Seq::empty(), udta: None };
    crate::again::lemma_found_fits(s, p, base, size);
    crate::again::lemma_moov_found_walk(s, p, base, size);
    crate::again::lemma_moov_found_walk(other, p, base, other_size);
    let r = Moov::found(s, p, base, size)->Ok_0;
    lemma_moov_target_pos(c, base + p, init);
    let y = r.udta->0.bounds;
    let yq = y.pos - base;
    let q = yq - p;
    let hl = new_size.spec_head_len() as int;
    lemma_subrange_twice(other, p, p + n2, 0, q);
    lemma_subrange_twice(s, p, p + n, 0, q);
    crate::again::lemma_sized_part(other, p, p + n2, q, new_size.ext, new_size.len as int);
    lemma_subrange_twice(s, p, p + n, q + 4, q + 8);
    lemma_subrange_twice(other, p, p + n2, q + new_size.len, n2);
    lemma_subrange_twice(s, p, p + n, q + y.size.len, n);
    lemma_subrange_twice(other, p, p + n2, q + hl, q + new_size.len);
    crate::again::lemma_found_fits(other, yq + hl, base, new_size);
    assert(content_of(other, yq + hl, new_size) == content_of(c2, q + hl, new_size));
    lemma_found_local(other, c2, yq + hl, q + hl, base, new_size);
    let found = Udta::found(other, yq + hl, base, new_size)->Ok_0;
    lemma_moov_walk_again(c, c2, base + p, init, init2, new_size, found);
}

/// A walk that ends without an error comes to the end of the content.
pub proof fn lemma_moov_to_end(c: Seq<u8>, p: int, base: int, acc: MoovBoundsView)
    requires
        0 <= p <= c.len(),
        moov_found(c, p, base, acc) is Ok,
    ensures
        moov_upto(c, p, c.len() as int, base, acc) == Some(moov_found(c, p, base, acc)->Ok_0),
    decreases c.len() - p,
{
    if p < c.len() {
        let h = child_at(c, p)->Ok_0;
        let size = h.spec_size();
        let cp = p + size.spec_head_len();
        let next = p + size.len;
        if h.fourcc == Ident(TRACK) {
            let b = Trak::found(c, cp, base, size)->Ok_0;
            lemma_moov_to_end(c, next, base, MoovBoundsView { trak: acc.trak.push(b), ..acc });
        } else if h.fourcc == Ident(USER_DATA) {
            let b = Udta::found(c, cp, base, size)->Ok_0;
            lemma_moov_to_end(c, next, base, MoovBoundsView { udta: Some(b), ..acc });
        } else {
            lemma_moov_to_end(c, next, base, acc);
        }
    }
}

} // verus!
