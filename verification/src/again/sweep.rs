//! The walk over the atoms at the top of a file.

use crate::again::{lemma_found_local, lemma_moov_bounds, lemma_top_at_prefix, lemma_top_at_shift};
use crate::atom::base::found_at;
use crate::atom::mdat::MdatBounds;
use crate::atom::moov::{Moov, MoovBoundsView};
use crate::again::{lemma_top_resized, sized};
use crate::head::Size;
use crate::error::ErrorView;
use crate::file::top_at;
use crate::ident::{Ident, MEDIA_DATA, MOVIE};
use crate::rewrite::{swept, SweepView};
use vstd::prelude::*;

verus! {

/// The two hold the same of what was found, whatever their own bounds.
pub open spec fn sweep_same(a: SweepView, b: SweepView) -> bool {
    a.moov == b.moov && a.mdat == b.mdat
}

/// What was found when the walk over the atoms from position `p` on
/// comes to position `q`, where it does: the atoms on the way must be
/// found without an error, and one of them must end at `q`.
pub open spec fn sweep_upto(c: Seq<u8>, p: int, q: int, acc: SweepView) -> Option<SweepView>
    decreases c.len() - p,
{
    if p == q {
        Some(acc)
    } else if p > q || p >= c.len() {
        None
    } else {
        match top_at(c, p) {
            Err(_) => None,
            Ok(h) => {
                let size = h.spec_size();
                let cp = p + size.spec_head_len();
                let next = p + size.len;
                if h.size == 0 {
                    None
                } else if h.fourcc == Ident(MOVIE) {
                    match Moov::found(c, cp, 0, size) {
                        Err(_) => None,
                        Ok(b) => sweep_upto(c, next, q, SweepView { moov: Some(b), ..acc }),
                    }
                } else if h.fourcc == Ident(MEDIA_DATA) {
                    match found_at(c, cp, 0, size, Ident(MEDIA_DATA)) {
                        Err(_) => None,
                        Ok(b) => sweep_upto(c, next, q, SweepView { mdat: Some(MdatBounds { bounds: b }), ..acc }),
                    }
                } else {
                    sweep_upto(c, next, q, acc)
                }
            },
        }
    }
}

/// Where the walk comes to position `q`, what it finds in all is what it
/// finds from `q` on, with what was found on the way.
pub proof fn lemma_sweep_through(c: Seq<u8>, p: int, q: int, acc: SweepView)
    requires
        sweep_upto(c, p, q, acc) is Some,
    ensures
        swept(c, p, acc) == swept(c, q, sweep_upto(c, p, q, acc)->0),
    decreases c.len() - p,
{
    if p != q {
        let h = top_at(c, p)->Ok_0;
        let size = h.spec_size();
        let cp = p + size.spec_head_len();
        let next = p + size.len;
        if h.fourcc == Ident(MOVIE) {
            let b = Moov::found(c, cp, 0, size)->Ok_0;
            lemma_sweep_through(c, next, q, SweepView { moov: Some(b), ..acc });
        } else if h.fourcc == Ident(MEDIA_DATA) {
            let b = found_at(c, cp, 0, size, Ident(MEDIA_DATA))->Ok_0;
            lemma_sweep_through(
                c,
                next,
                q,
                SweepView { mdat: Some(MdatBounds { bounds: b }), ..acc },
            );
        } else {
            lemma_sweep_through(c, next, q, acc);
        }
    }
}

/// What the walk finds of the movie atom is what was found before, or lies at or
/// behind where the walk starts.
pub proof fn lemma_sweep_pos(c: Seq<u8>, p: int, acc: SweepView)
    requires
        0 <= p,
        c.len() <= u64::MAX,
        swept(c, p, acc) is Ok,
    ensures
        swept(c, p, acc)->Ok_0.moov == acc.moov
            || (swept(c, p, acc)->Ok_0.moov is Some && swept(c, p, acc)->Ok_0.moov->0.bounds.pos >= 0 + p),
    decreases c.len() - p,
{
    reveal(found_at);
    if p < c.len() {
        let h = top_at(c, p)->Ok_0;
        let size = h.spec_size();
        let cp = p + size.spec_head_len();
        let next = p + size.len;
        if h.fourcc == Ident(MOVIE) {
            let b = Moov::found(c, cp, 0, size)->Ok_0;
            lemma_moov_bounds(c, cp, 0, size);
            lemma_sweep_pos(c, next, SweepView { moov: Some(b), ..acc });
        } else if h.fourcc == Ident(MEDIA_DATA) {
            let b = found_at(c, cp, 0, size, Ident(MEDIA_DATA))->Ok_0;
            lemma_sweep_pos(c, next, SweepView { mdat: Some(MdatBounds { bounds: b }), ..acc });
        } else {
            lemma_sweep_pos(c, next, acc);
        }
    }
}

/// The walk comes to where the movie atom lies that it finds in the end: what
/// it found before lies before.
pub proof fn lemma_sweep_reach(c: Seq<u8>, p: int, q: int, acc: SweepView)
    requires
        0 <= p,
        c.len() <= u64::MAX,
        p <= q,
        swept(c, p, acc) is Ok,
        swept(c, p, acc)->Ok_0.moov is Some,
        swept(c, p, acc)->Ok_0.moov->0.bounds.pos == 0 + q,
        (acc.moov is None || acc.moov->0.bounds.pos < 0 + p),
    ensures
        sweep_upto(c, p, q, acc) is Some,
        (sweep_upto(c, p, q, acc)->0.moov is None || sweep_upto(c, p, q, acc)->0.moov->0.bounds.pos < 0 + q),
    decreases c.len() - p,
{
    reveal(found_at);
    if p != q {
        let h = top_at(c, p)->Ok_0;
        let size = h.spec_size();
        let cp = p + size.spec_head_len();
        let next = p + size.len;
        if h.fourcc == Ident(MOVIE) {
            let b = Moov::found(c, cp, 0, size)->Ok_0;
            lemma_moov_bounds(c, cp, 0, size);
            let acc2 = SweepView { moov: Some(b), ..acc };
            lemma_sweep_pos(c, next, acc2);
            lemma_sweep_reach(c, next, q, acc2);
        } else if h.fourcc == Ident(MEDIA_DATA) {
            let b = found_at(c, cp, 0, size, Ident(MEDIA_DATA))->Ok_0;
            let acc2 = SweepView { mdat: Some(MdatBounds { bounds: b }), ..acc };
            lemma_sweep_pos(c, next, acc2);
            lemma_sweep_reach(c, next, q, acc2);
        } else {
            lemma_sweep_pos(c, next, acc);
            lemma_sweep_reach(c, next, q, acc);
        }
    }
}

/// Where the walk over one content comes to position `q`, so does the
/// walk over another that is the same up to `q`, and it finds the same on
/// the way.
pub proof fn lemma_sweep_transfer(
    c: Seq<u8>,
    other: Seq<u8>,
    p: int,
    q: int,
    acc: SweepView,
    other_acc: SweepView,
)
    requires
        0 <= p <= q,
        q <= c.len(),
        q <= other.len(),
        c.subrange(0, q) == other.subrange(0, q),
        sweep_same(acc, other_acc),
        sweep_upto(c, p, q, acc) is Some,
    ensures
        sweep_upto(other, p, q, other_acc) is Some,
        sweep_same(sweep_upto(c, p, q, acc)->0, sweep_upto(other, p, q, other_acc)->0),
    decreases c.len() - p,
{
    if p != q {
        let h = top_at(c, p)->Ok_0;
        let size = h.spec_size();
        let cp = p + size.spec_head_len();
        let next = p + size.len;
        assert(next <= q) by {
            if h.fourcc == Ident(MOVIE) {
                let b = Moov::found(c, cp, 0, size)->Ok_0;
                assert(sweep_upto(c, next, q, SweepView { moov: Some(b), ..acc }) is Some);
            } else if h.fourcc == Ident(MEDIA_DATA) {
                let b = found_at(c, cp, 0, size, Ident(MEDIA_DATA))->Ok_0;
                assert(sweep_upto(c, next, q, SweepView { mdat: Some(MdatBounds { bounds: b }), ..acc }) is Some);
            } else {
                assert(sweep_upto(c, next, q, acc) is Some);
            }
        }
        lemma_top_at_prefix(c, other, p, q);
        lemma_found_local(c, other, cp, cp, 0, size);
        if h.fourcc == Ident(MOVIE) {
            let b = Moov::found(c, cp, 0, size)->Ok_0;
            assert(Moov::found(other, cp, 0, size) == Ok::<_, ErrorView>(b));
            lemma_sweep_transfer(
                c,
                other,
                next,
                q,
                SweepView { moov: Some(b), ..acc },
                SweepView { moov: Some(b), ..other_acc },
            );
        } else if h.fourcc == Ident(MEDIA_DATA) {
            let b = found_at(c, cp, 0, size, Ident(MEDIA_DATA))->Ok_0;
            assert(found_at(other, cp, 0, size, Ident(MEDIA_DATA)) == Ok::<_, ErrorView>(b));
            lemma_sweep_transfer(
                c,
                other,
                next,
                q,
                SweepView { mdat: Some(MdatBounds { bounds: b }), ..acc },
                SweepView { mdat: Some(MdatBounds { bounds: b }), ..other_acc },
            );
        } else {
            lemma_sweep_transfer(c, other, next, q, acc, other_acc);
        }
    }
}

/// Where the walk stands at the movie atom that it finds in the end, the atom
/// there is that one, and behind it the walk finds no other.
pub proof fn lemma_sweep_at_target(c: Seq<u8>, q: int, acc: SweepView)
    requires
        0 <= q,
        c.len() <= u64::MAX,
        swept(c, q, acc) is Ok,
        swept(c, q, acc)->Ok_0.moov is Some,
        swept(c, q, acc)->Ok_0.moov->0.bounds.pos == 0 + q,
        (acc.moov is None || acc.moov->0.bounds.pos < 0 + q),
    ensures
        q < c.len(),
        top_at(c, q) is Ok,
        top_at(c, q)->Ok_0.fourcc == Ident(MOVIE),
        top_at(c, q)->Ok_0.size != 0,
        ({
            let size = top_at(c, q)->Ok_0.spec_size();
            let found = Moov::found(c, q + size.spec_head_len(), 0, size);
            &&& found is Ok
            &&& swept(c, q, acc)->Ok_0.moov == Some(found->Ok_0)
            &&& swept(c, q + size.len, SweepView { moov: Some(found->Ok_0), ..acc })
                == Ok::<_, ErrorView>(swept(c, q, acc)->Ok_0)
        }),
{
    reveal(found_at);
    let h = top_at(c, q)->Ok_0;
    let size = h.spec_size();
    let cp = q + size.spec_head_len();
    let next = q + size.len;
    if h.fourcc == Ident(MOVIE) {
        let b = Moov::found(c, cp, 0, size)->Ok_0;
        lemma_moov_bounds(c, cp, 0, size);
        lemma_sweep_pos(c, next, SweepView { moov: Some(b), ..acc });
    } else if h.fourcc == Ident(MEDIA_DATA) {
        let b = found_at(c, cp, 0, size, Ident(MEDIA_DATA))->Ok_0;
        lemma_sweep_pos(c, next, SweepView { mdat: Some(MdatBounds { bounds: b }), ..acc });
    } else {
        lemma_sweep_pos(c, next, acc);
    }
}

/// Where the walk over the end of one content finds no movie atom, the walk
/// over the same end of another content finds none, and it ends without an
/// error as the first did.
pub proof fn lemma_sweep_suffix(
    c: Seq<u8>,
    p: int,
    acc: SweepView,
    other: Seq<u8>,
    q: int,
    other_acc: SweepView,
)
    requires
        0 <= p <= c.len(),
        0 <= q <= other.len(),
        c.len() <= u64::MAX,
        c.len() - p == other.len() - q,
        c.subrange(p, c.len() as int) == other.subrange(q, other.len() as int),
        swept(c, p, acc) is Ok,
        swept(c, p, acc)->Ok_0.moov == acc.moov,
        (acc.moov is None || acc.moov->0.bounds.pos < 0 + p),
    ensures
        swept(other, q, other_acc) is Ok,
        swept(other, q, other_acc)->Ok_0.moov == other_acc.moov,
    decreases c.len() - p,
{
    reveal(found_at);
    if p < c.len() {
        let h = top_at(c, p)->Ok_0;
        let size = h.spec_size();
        let cp = p + size.spec_head_len();
        let next = p + size.len;
        lemma_top_at_shift(c, p, other, q);
        if h.fourcc == Ident(MOVIE) {
            let b = Moov::found(c, cp, 0, size)->Ok_0;
            lemma_moov_bounds(c, cp, 0, size);
            lemma_sweep_pos(c, next, SweepView { moov: Some(b), ..acc });
        } else if h.fourcc == Ident(MEDIA_DATA) {
            let b = found_at(c, cp, 0, size, Ident(MEDIA_DATA))->Ok_0;
            let o = found_at(other, q + size.spec_head_len(), 0, size, Ident(MEDIA_DATA))->Ok_0;
            lemma_sweep_suffix(
                c,
                next,
                SweepView { mdat: Some(MdatBounds { bounds: b }), ..acc },
                other,
                q + size.len,
                SweepView { mdat: Some(MdatBounds { bounds: o }), ..other_acc },
            );
        } else {
            lemma_sweep_suffix(c, next, acc, other, q + size.len, other_acc);
        }
    }
}

/// The walk over a content in which the movie atom was given a new length,
/// and the bytes behind it moved with it, finds what it found before,
/// with the movie atom as it is found now.
pub proof fn lemma_sweep_walk_again(
    c: Seq<u8>,
    other: Seq<u8>,
    from: int,
    init: SweepView,
    other_init: SweepView,
    new_size: Size,
    found: MoovBoundsView,
)
    requires
        0 <= from,
        c.len() <= u64::MAX,
        other.len() <= u64::MAX,
        swept(c, from, init) is Ok,
        swept(c, from, init)->Ok_0.moov is Some,
        init.moov is None,
        other_init.moov is None,
        sweep_same(init, other_init),
        new_size.ext == swept(c, from, init)->Ok_0.moov->0.bounds.size.ext,
        new_size.wf(),
        !new_size.ext ==> new_size.len <= u32::MAX,
        other.len() == c.len() - swept(c, from, init)->Ok_0.moov->0.bounds.size.len + new_size.len,
        other.subrange(0, (swept(c, from, init)->Ok_0.moov->0.bounds.pos - 0))
            == c.subrange(0, (swept(c, from, init)->Ok_0.moov->0.bounds.pos - 0)),
        sized(
            other,
            (swept(c, from, init)->Ok_0.moov->0.bounds.pos - 0),
            new_size.ext,
            new_size.len as int,
        ),
        other.subrange(
            (swept(c, from, init)->Ok_0.moov->0.bounds.pos - 0) + 4,
            (swept(c, from, init)->Ok_0.moov->0.bounds.pos - 0) + 8,
        )
            == c.subrange(
                (swept(c, from, init)->Ok_0.moov->0.bounds.pos - 0) + 4,
                (swept(c, from, init)->Ok_0.moov->0.bounds.pos - 0) + 8,
            ),
        Moov::found(
            other,
            (swept(c, from, init)->Ok_0.moov->0.bounds.pos - 0) + new_size.spec_head_len(),
            0,
            new_size,
        )
            == Ok::<MoovBoundsView, ErrorView>(found),
        other.subrange(
            (swept(c, from, init)->Ok_0.moov->0.bounds.pos - 0) + new_size.len,
            other.len() as int,
        )
            == c.subrange(
            (swept(c, from, init)->Ok_0.moov->0.bounds.pos - 0)
                + swept(c, from, init)->Ok_0.moov->0.bounds.size.len,
            c.len() as int,
        ),
    ensures
        swept(other, from, other_init) is Ok,
        swept(other, from, other_init)->Ok_0.moov == Some(found),
        from <= (swept(c, from, init)->Ok_0.moov->0.bounds.pos - 0),
        (swept(c, from, init)->Ok_0.moov->0.bounds.pos - 0)
            + swept(c, from, init)->Ok_0.moov->0.bounds.size.len
            <= c.len(),
{
    let r = swept(c, from, init)->Ok_0;
    let q = r.moov->0.bounds.pos - 0;
    lemma_sweep_pos(c, from, init);
    lemma_sweep_reach(c, from, q, init);
    lemma_sweep_through(c, from, q, init);
    let mid = sweep_upto(c, from, q, init)->0;
    lemma_sweep_at_target(c, q, mid);
    let size = top_at(c, q)->Ok_0.spec_size();
    lemma_moov_bounds(c, q + size.spec_head_len(), 0, size);
    assert(size == r.moov->0.bounds.size);
    let after = SweepView { moov: Some(r.moov->0), ..mid };
    lemma_sweep_transfer(c, other, from, q, init, other_init);
    lemma_sweep_through(other, from, q, other_init);
    let mid2 = sweep_upto(other, from, q, other_init)->0;
    lemma_top_resized(c, q, other, new_size.len as int);
    let after2 = SweepView { moov: Some(found), ..mid2 };
    assert(swept(other, q, mid2) == swept(other, q + new_size.len, after2));
    lemma_sweep_suffix(c, q + size.len, after, other, q + new_size.len, after2);
}

/// The movie atom that the walk finds in the end lies inside the content.
pub proof fn lemma_sweep_target_pos(c: Seq<u8>, from: int, init: SweepView)
    requires
        0 <= from,
        c.len() <= u64::MAX,
        swept(c, from, init) is Ok,
        swept(c, from, init)->Ok_0.moov is Some,
        init.moov is None,
    ensures
        from <= swept(c, from, init)->Ok_0.moov->0.bounds.pos - 0,
        swept(c, from, init)->Ok_0.moov->0.bounds.pos - 0
            + swept(c, from, init)->Ok_0.moov->0.bounds.size.len
            <= c.len(),
        swept(c, from, init)->Ok_0.moov->0.bounds.size.spec_head_len()
            <= swept(c, from, init)->Ok_0.moov->0.bounds.size.len,
        top_at(c, swept(c, from, init)->Ok_0.moov->0.bounds.pos - 0) is Ok,
        top_at(c, swept(c, from, init)->Ok_0.moov->0.bounds.pos - 0)->Ok_0.spec_size()
            == swept(c, from, init)->Ok_0.moov->0.bounds.size,
        Moov::found(
            c,
            swept(c, from, init)->Ok_0.moov->0.bounds.pos - 0
                + swept(c, from, init)->Ok_0.moov->0.bounds.size.spec_head_len(),
            0,
            swept(c, from, init)->Ok_0.moov->0.bounds.size,
        )
            == Ok::<_, ErrorView>(
            swept(c, from, init)->Ok_0.moov->0,
        ),
{
    let r = swept(c, from, init)->Ok_0;
    let q = r.moov->0.bounds.pos - 0;
    lemma_sweep_pos(c, from, init);
    lemma_sweep_reach(c, from, q, init);
    lemma_sweep_through(c, from, q, init);
    let mid = sweep_upto(c, from, q, init)->0;
    lemma_sweep_at_target(c, q, mid);
    let size = top_at(c, q)->Ok_0.spec_size();
    lemma_moov_bounds(c, q + size.spec_head_len(), 0, size);
}

} // verus!
