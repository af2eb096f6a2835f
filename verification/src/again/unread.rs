//! The bytes that finding the atoms of a file does not read: the contents of
//! the chunk offset atoms. A file in which only these bytes are others holds
//! the same atoms at the same places.

use crate::again::lemma_found_local;
use crate::atom::base::{child_at, content_of, found_at};
use crate::atom::co64::Co64Bounds;
use crate::atom::mdat::MdatBounds;
use crate::atom::mdia::{mdia_found, Mdia, MdiaBounds};
use crate::atom::minf::{minf_found, Minf, MinfBounds};
use crate::atom::moov::{moov_found, Moov, MoovBoundsView};
use crate::atom::stbl::{stbl_found, Stbl, StblBounds};
use crate::atom::stco::StcoBounds;
use crate::atom::tkhd::Tkhd;
use crate::atom::trak::{trak_found, Trak, TrakBounds};
use crate::atom::tref::TrefBounds;
use crate::atom::udta::Udta;
use crate::file::top_at;
use crate::head::{bounds_at, Size};
use crate::ident::{Ident, MEDIA, MEDIA_DATA, MEDIA_INFORMATION, MOVIE, SAMPLE_TABLE};
use crate::ident::{SAMPLE_TABLE_CHUNK_OFFSET, SAMPLE_TABLE_CHUNK_OFFSET_64, TRACK};
use crate::ident::{TRACK_HEADER, TRACK_REFERENCE, USER_DATA};
use crate::rewrite::{swept, SweepView};
use vstd::prelude::*;

verus! {

/// The head of a child atom is read alike from two contents of one length
/// that hold the same bytes where the head stands.
pub proof fn lemma_child_at_same(c: Seq<u8>, other: Seq<u8>, p: int)
    requires
        0 <= p,
        other.len() == c.len(),
        child_at(c, p) is Ok,
        forall|j: int|
            p <= j < p + child_at(c, p)->Ok_0.spec_size().spec_head_len() ==> c[j] == other[j],
    ensures
        child_at(other, p) == child_at(c, p),
{
    let h = child_at(c, p)->Ok_0;
    assert(c.subrange(p, p + 4) =~= other.subrange(p, p + 4));
    assert(c.subrange(p + 4, p + 8) =~= other.subrange(p + 4, p + 8));
    if h.size == 1 {
        assert(c.subrange(p + 8, p + 16) =~= other.subrange(p + 8, p + 16));
    }
}

/// The head of an atom at the top of a file is read alike from two files of
/// one length that hold the same bytes where the head stands.
pub proof fn lemma_top_at_same(c: Seq<u8>, other: Seq<u8>, p: int)
    requires
        0 <= p,
        other.len() == c.len(),
        top_at(c, p) is Ok,
        forall|j: int|
            p <= j < p + top_at(c, p)->Ok_0.spec_size().spec_head_len() ==> c[j] == other[j],
    ensures
        top_at(other, p) == top_at(c, p),
{
    let h = top_at(c, p)->Ok_0;
    assert(c.subrange(p, p + 4) =~= other.subrange(p, p + 4));
    assert(c.subrange(p + 4, p + 8) =~= other.subrange(p + 4, p + 8));
    if h.size == 1 {
        assert(c.subrange(p + 8, p + 16) =~= other.subrange(p + 8, p + 16));
    }
}

/// What reading a track header gives hangs on its content alone.
pub proof fn lemma_tkhd_local(s: Seq<u8>, other: Seq<u8>, p: int, size: Size)
    requires
        content_of(s, p, size) == content_of(other, p, size),
    ensures
        Tkhd::parsed(other, p, size) == Tkhd::parsed(s, p, size),
{
    reveal(Tkhd::parsed);
}

/// A sample table atom is found by the walk over its content.
pub proof fn lemma_stbl_found_walk(s: Seq<u8>, p: int, base: int, size: Size)
    requires
        0 <= p,
        size.wf(),
        p + size.spec_content_len() <= s.len(),
    ensures
        Stbl::found(s, p, base, size) is Ok == stbl_found(
            s.subrange(p, p + size.spec_content_len()),
            0,
            base + p,
            StblBounds { bounds: bounds_at(base + p, size, Ident(SAMPLE_TABLE)), stco: None, co64: None },
        ) is Ok,
        Stbl::found(s, p, base, size) is Ok ==> Stbl::found(s, p, base, size) == stbl_found(
            s.subrange(p, p + size.spec_content_len()),
            0,
            base + p,
            StblBounds { bounds: bounds_at(base + p, size, Ident(SAMPLE_TABLE)), stco: None, co64: None },
        ),
{
    reveal(Stbl::found);
}

/// The position `j` of the file lies in the content of a chunk offset atom
/// that was found in a sample table atom.
pub open spec fn stbl_in_tables(r: StblBounds, j: int) -> bool {
    (r.stco is Some && r.stco->0.bounds.spec_content_pos() <= j < r.stco->0.bounds.spec_end())
        || (r.co64 is Some
        && r.co64->0.bounds.spec_content_pos() <= j < r.co64->0.bounds.spec_end())
}

/// The walk over the atoms in the content of a sample table atom, from position `p` of
/// `c` on, passes over the byte at position `j` of `c` unread: the byte
/// lies in the content of a chunk offset atom to which the walk comes.
pub open spec fn stbl_unread(c: Seq<u8>, p: int, j: int) -> bool
    decreases c.len() - p,
{
    if p >= c.len() {
        false
    } else {
        match child_at(c, p) {
            Err(_) => false,
            Ok(h) => {
                let size = h.spec_size();
                let cp = p + size.spec_head_len();
                let next = p + size.len;
                (h.fourcc == Ident(SAMPLE_TABLE_CHUNK_OFFSET) && cp <= j < next)
                    || (h.fourcc == Ident(SAMPLE_TABLE_CHUNK_OFFSET_64) && cp <= j < next)
                        || stbl_unread(c, next, j)
            },
        }
    }
}

/// A byte that the walk passes over unread lies behind the head of an atom
/// at or behind the position at which the walk starts.
pub proof fn lemma_stbl_unread_pos(c: Seq<u8>, p: int, j: int)
    requires
        0 <= p,
        stbl_unread(c, p, j),
    ensures
        p + 8 <= j < c.len(),
    decreases c.len() - p,
{
    let h = child_at(c, p)->Ok_0;
    let size = h.spec_size();
    let next = p + size.len;
    if stbl_unread(c, next, j) {
        lemma_stbl_unread_pos(c, next, j);
    }
}

/// The walk finds the same in two contents of one length that differ
/// only in bytes that it passes over unread.
pub proof fn lemma_stbl_quiet(c: Seq<u8>, other: Seq<u8>, p: int, base: int, acc: StblBounds)
    requires
        0 <= p,
        other.len() == c.len(),
        forall|j: int| p <= j < c.len() && !stbl_unread(c, p, j) ==> c[j] == other[j],
        stbl_found(c, p, base, acc) is Ok,
    ensures
        stbl_found(other, p, base, acc) == stbl_found(c, p, base, acc),
    decreases c.len() - p,
{
    reveal(found_at);
    if p < c.len() {
        let h = child_at(c, p)->Ok_0;
        let size = h.spec_size();
        let cp = p + size.spec_head_len();
        let next = p + size.len;
        assert forall|j: int| p <= j < cp implies c[j] == other[j] by {
            if stbl_unread(c, next, j) {
                lemma_stbl_unread_pos(c, next, j);
            }
        }
        lemma_child_at_same(c, other, p);
        assert forall|j: int| next <= j < c.len() && !stbl_unread(c, next, j) implies c[j]
            == other[j] by {
            assert(!stbl_unread(c, p, j));
        }
        if h.fourcc == Ident(SAMPLE_TABLE_CHUNK_OFFSET) {
            let b = found_at(c, cp, base, size, Ident(SAMPLE_TABLE_CHUNK_OFFSET))->Ok_0;
            lemma_stbl_quiet(
                c,
                other,
                next,
                base,
                StblBounds { stco: Some(StcoBounds { bounds: b }), ..acc },
            );
        } else if h.fourcc == Ident(SAMPLE_TABLE_CHUNK_OFFSET_64) {
            let b = found_at(c, cp, base, size, Ident(SAMPLE_TABLE_CHUNK_OFFSET_64))->Ok_0;
            lemma_stbl_quiet(
                c,
                other,
                next,
                base,
                StblBounds { co64: Some(Co64Bounds { bounds: b }), ..acc },
            );
        } else {
            lemma_stbl_quiet(c, other, next, base, acc);
        }
    }
}

/// The contents of the chunk offset atoms that the walk finds are bytes
/// that it passes over unread.
pub proof fn lemma_stbl_tables(c: Seq<u8>, p: int, base: int, acc: StblBounds)
    requires
        0 <= p,
        0 <= base,
        base + c.len() <= u64::MAX,
        stbl_found(c, p, base, acc) is Ok,
    ensures
        forall|j: int| #[trigger]
            stbl_in_tables(stbl_found(c, p, base, acc)->Ok_0, j)
                ==> stbl_in_tables(acc, j) || stbl_unread(
                c,
                p,
                j - base,
            ),
    decreases c.len() - p,
{
    reveal(found_at);
    if p < c.len() {
        let h = child_at(c, p)->Ok_0;
        let size = h.spec_size();
        let cp = p + size.spec_head_len();
        let next = p + size.len;
        let r = stbl_found(c, p, base, acc)->Ok_0;
        if h.fourcc == Ident(SAMPLE_TABLE_CHUNK_OFFSET) {
            let b = found_at(c, cp, base, size, Ident(SAMPLE_TABLE_CHUNK_OFFSET))->Ok_0;
            let acc2 = StblBounds { stco: Some(StcoBounds { bounds: b }), ..acc };
            lemma_stbl_tables(c, next, base, acc2);
            assert forall|j: int| #[trigger] stbl_in_tables(r, j) implies stbl_in_tables(acc, j)
                || stbl_unread(c, p, j - base) by {
                if stbl_in_tables(acc2, j) && !stbl_in_tables(acc, j) {
                    assert(stbl_unread(c, p, j - base));
                }
            }
        } else if h.fourcc == Ident(SAMPLE_TABLE_CHUNK_OFFSET_64) {
            let b = found_at(c, cp, base, size, Ident(SAMPLE_TABLE_CHUNK_OFFSET_64))->Ok_0;
            let acc2 = StblBounds { co64: Some(Co64Bounds { bounds: b }), ..acc };
            lemma_stbl_tables(c, next, base, acc2);
            assert forall|j: int| #[trigger] stbl_in_tables(r, j) implies stbl_in_tables(acc, j)
                || stbl_unread(c, p, j - base) by {
                if stbl_in_tables(acc2, j) && !stbl_in_tables(acc, j) {
                    assert(stbl_unread(c, p, j - base));
                }
            }
        } else {
            lemma_stbl_tables(c, next, base, acc);
        }
    }
}

/// A media information atom is found by the walk over its content.
pub proof fn lemma_minf_found_walk(s: Seq<u8>, p: int, base: int, size: Size)
    requires
        0 <= p,
        size.wf(),
        p + size.spec_content_len() <= s.len(),
    ensures
        Minf::found(s, p, base, size) is Ok == minf_found(
            s.subrange(p, p + size.spec_content_len()),
            0,
            base + p,
            MinfBounds { bounds: bounds_at(base + p, size, Ident(MEDIA_INFORMATION)), stbl: None },
        ) is Ok,
        Minf::found(s, p, base, size) is Ok ==> Minf::found(s, p, base, size) == minf_found(
            s.subrange(p, p + size.spec_content_len()),
            0,
            base + p,
            MinfBounds { bounds: bounds_at(base + p, size, Ident(MEDIA_INFORMATION)), stbl: None },
        ),
{
    reveal(Minf::found);
}

/// The position `j` of the file lies in the content of a chunk offset atom
/// that was found in a media information atom.
pub open spec fn minf_in_tables(r: MinfBounds, j: int) -> bool {
    r.stbl is Some && stbl_in_tables(r.stbl->0, j)
}

/// The walk over the atoms in the content of a media information atom, from position `p` of
/// `c` on, passes over the byte at position `j` of `c` unread: the byte
/// lies in the content of a chunk offset atom to which the walk comes.
pub open spec fn minf_unread(c: Seq<u8>, p: int, j: int) -> bool
    decreases c.len() - p,
{
    if p >= c.len() {
        false
    } else {
        match child_at(c, p) {
            Err(_) => false,
            Ok(h) => {
                let size = h.spec_size();
                let cp = p + size.spec_head_len();
                let next = p + size.len;
                (h.fourcc == Ident(SAMPLE_TABLE) && cp <= j < next && stbl_unread(
                    c.subrange(cp, next),
                    0,
                    j - cp,
                )) || minf_unread(c, next, j)
            },
        }
    }
}

/// A byte that the walk passes over unread lies behind the head of an atom
/// at or behind the position at which the walk starts.
pub proof fn lemma_minf_unread_pos(c: Seq<u8>, p: int, j: int)
    requires
        0 <= p,
        minf_unread(c, p, j),
    ensures
        p + 8 <= j < c.len(),
    decreases c.len() - p,
{
    let h = child_at(c, p)->Ok_0;
    let size = h.spec_size();
    let next = p + size.len;
    if minf_unread(c, next, j) {
        lemma_minf_unread_pos(c, next, j);
    }
}

/// The walk finds the same in two contents of one length that differ
/// only in bytes that it passes over unread.
pub proof fn lemma_minf_quiet(c: Seq<u8>, other: Seq<u8>, p: int, base: int, acc: MinfBounds)
    requires
        0 <= p,
        other.len() == c.len(),
        forall|j: int| p <= j < c.len() && !minf_unread(c, p, j) ==> c[j] == other[j],
        minf_found(c, p, base, acc) is Ok,
    ensures
        minf_found(other, p, base, acc) == minf_found(c, p, base, acc),
    decreases c.len() - p,
{
    reveal(found_at);
    if p < c.len() {
        let h = child_at(c, p)->Ok_0;
        let size = h.spec_size();
        let cp = p + size.spec_head_len();
        let next = p + size.len;
        assert forall|j: int| p <= j < cp implies c[j] == other[j] by {
            if minf_unread(c, next, j) {
                lemma_minf_unread_pos(c, next, j);
            }
        }
        lemma_child_at_same(c, other, p);
        assert forall|j: int| next <= j < c.len() && !minf_unread(c, next, j) implies c[j]
            == other[j] by {
            assert(!minf_unread(c, p, j));
        }
        if h.fourcc == Ident(SAMPLE_TABLE) {
            let d = c.subrange(cp, next);
            let e = other.subrange(cp, next);
            let init = StblBounds { bounds: bounds_at(base + cp, size, Ident(SAMPLE_TABLE)), stco: None, co64: None };
            lemma_stbl_found_walk(c, cp, base, size);
            lemma_stbl_found_walk(other, cp, base, size);
            assert forall|j: int| 0 <= j < d.len() && !stbl_unread(d, 0, j) implies d[j]
                == e[j] by {
                if minf_unread(c, next, cp + j) {
                    lemma_minf_unread_pos(c, next, cp + j);
                }
                assert(!minf_unread(c, p, cp + j));
            }
            lemma_stbl_quiet(d, e, 0, base + cp, init);
            let b = Stbl::found(c, cp, base, size)->Ok_0;
            lemma_minf_quiet(c, other, next, base, MinfBounds { stbl: Some(b), ..acc });
        } else {
            lemma_minf_quiet(c, other, next, base, acc);
        }
    }
}

/// The contents of the chunk offset atoms that the walk finds are bytes
/// that it passes over unread.
pub proof fn lemma_minf_tables(c: Seq<u8>, p: int, base: int, acc: MinfBounds)
    requires
        0 <= p,
        0 <= base,
        base + c.len() <= u64::MAX,
        minf_found(c, p, base, acc) is Ok,
    ensures
        forall|j: int| #[trigger]
            minf_in_tables(minf_found(c, p, base, acc)->Ok_0, j)
                ==> minf_in_tables(acc, j) || minf_unread(
                c,
                p,
                j - base,
            ),
    decreases c.len() - p,
{
    reveal(found_at);
    if p < c.len() {
        let h = child_at(c, p)->Ok_0;
        let size = h.spec_size();
        let cp = p + size.spec_head_len();
        let next = p + size.len;
        let r = minf_found(c, p, base, acc)->Ok_0;
        if h.fourcc == Ident(SAMPLE_TABLE) {
            let b = Stbl::found(c, cp, base, size)->Ok_0;
            let acc2 = MinfBounds { stbl: Some(b), ..acc };
            lemma_minf_tables(c, next, base, acc2);
            let d = c.subrange(cp, next);
            let init = StblBounds { bounds: bounds_at(base + cp, size, Ident(SAMPLE_TABLE)), stco: None, co64: None };
            lemma_stbl_found_walk(c, cp, base, size);
            lemma_stbl_tables(d, 0, base + cp, init);
            assert forall|j: int| #[trigger] minf_in_tables(r, j) implies minf_in_tables(acc, j)
                || minf_unread(c, p, j - base) by {
                if minf_in_tables(acc2, j) && !minf_in_tables(acc, j) {
                    assert(stbl_in_tables(b, j));
                    assert(stbl_unread(d, 0, j - base - cp));
                    lemma_stbl_unread_pos(d, 0, j - base - cp);
                    assert(minf_unread(c, p, j - base));
                }
            }
        } else {
            lemma_minf_tables(c, next, base, acc);
        }
    }
}

/// A media atom is found by the walk over its content.
pub proof fn lemma_mdia_found_walk(s: Seq<u8>, p: int, base: int, size: Size)
    requires
        0 <= p,
        size.wf(),
        p + size.spec_content_len() <= s.len(),
    ensures
        Mdia::found(s, p, base, size) is Ok == mdia_found(
            s.subrange(p, p + size.spec_content_len()),
            0,
            base + p,
            MdiaBounds { bounds: bounds_at(base + p, size, Ident(MEDIA)), minf: None },
        ) is Ok,
        Mdia::found(s, p, base, size) is Ok ==> Mdia::found(s, p, base, size) == mdia_found(
            s.subrange(p, p + size.spec_content_len()),
            0,
            base + p,
            MdiaBounds { bounds: bounds_at(base + p, size, Ident(MEDIA)), minf: None },
        ),
{
    reveal(Mdia::found);
}

/// The position `j` of the file lies in the content of a chunk offset atom
/// that was found in a media atom.
pub open spec fn mdia_in_tables(r: MdiaBounds, j: int) -> bool {
    r.minf is Some && minf_in_tables(r.minf->0, j)
}

/// The walk over the atoms in the content of a media atom, from position `p` of
/// `c` on, passes over the byte at position `j` of `c` unread: the byte
/// lies in the content of a chunk offset atom to which the walk comes.
pub open spec fn mdia_unread(c: Seq<u8>, p: int, j: int) -> bool
    decreases c.len() - p,
{
    if p >= c.len() {
        false
    } else {
        match child_at(c, p) {
            Err(_) => false,
            Ok(h) => {
                let size = h.spec_size();
                let cp = p + size.spec_head_len();
                let next = p + size.len;
                (h.fourcc == Ident(MEDIA_INFORMATION) && cp <= j < next && minf_unread(
                    c.subrange(cp, next),
                    0,
                    j - cp,
                )) || mdia_unread(c, next, j)
            },
        }
    }
}

/// A byte that the walk passes over unread lies behind the head of an atom
/// at or behind the position at which the walk starts.
pub proof fn lemma_mdia_unread_pos(c: Seq<u8>, p: int, j: int)
    requires
        0 <= p,
        mdia_unread(c, p, j),
    ensures
        p + 8 <= j < c.len(),
    decreases c.len() - p,
{
    let h = child_at(c, p)->Ok_0;
    let size = h.spec_size();
    let next = p + size.len;
    if mdia_unread(c, next, j) {
        lemma_mdia_unread_pos(c, next, j);
    }
}

/// The walk finds the same in two contents of one length that differ
/// only in bytes that it passes over unread.
pub proof fn lemma_mdia_quiet(c: Seq<u8>, other: Seq<u8>, p: int, base: int, acc: MdiaBounds)
    requires
        0 <= p,
        other.len() == c.len(),
        forall|j: int| p <= j < c.len() && !mdia_unread(c, p, j) ==> c[j] == other[j],
        mdia_found(c, p, base, acc) is Ok,
    ensures
        mdia_found(other, p, base, acc) == mdia_found(c, p, base, acc),
    decreases c.len() - p,
{
    reveal(found_at);
    if p < c.len() {
        let h = child_at(c, p)->Ok_0;
        let size = h.spec_size();
        let cp = p + size.spec_head_len();
        let next = p + size.len;
        assert forall|j: int| p <= j < cp implies c[j] == other[j] by {
            if mdia_unread(c, next, j) {
                lemma_mdia_unread_pos(c, next, j);
            }
        }
        lemma_child_at_same(c, other, p);
        assert forall|j: int| next <= j < c.len() && !mdia_unread(c, next, j) implies c[j]
            == other[j] by {
            assert(!mdia_unread(c, p, j));
        }
        if h.fourcc == Ident(MEDIA_INFORMATION) {
            let d = c.subrange(cp, next);
            let e = other.subrange(cp, next);
            let init = MinfBounds { bounds: bounds_at(base + cp, size, Ident(MEDIA_INFORMATION)), stbl: None };
            lemma_minf_found_walk(c, cp, base, size);
            lemma_minf_found_walk(other, cp, base, size);
            assert forall|j: int| 0 <= j < d.len() && !minf_unread(d, 0, j) implies d[j]
                == e[j] by {
                if mdia_unread(c, next, cp + j) {
                    lemma_mdia_unread_pos(c, next, cp + j);
                }
                assert(!mdia_unread(c, p, cp + j));
            }
            lemma_minf_quiet(d, e, 0, base + cp, init);
            let b = Minf::found(c, cp, base, size)->Ok_0;
            lemma_mdia_quiet(c, other, next, base, MdiaBounds { minf: Some(b), ..acc });
        } else {
            lemma_mdia_quiet(c, other, next, base, acc);
        }
    }
}

/// The contents of the chunk offset atoms that the walk finds are bytes
/// that it passes over unread.
pub proof fn lemma_mdia_tables(c: Seq<u8>, p: int, base: int, acc: MdiaBounds)
    requires
        0 <= p,
        0 <= base,
        base + c.len() <= u64::MAX,
        mdia_found(c, p, base, acc) is Ok,
    ensures
        forall|j: int| #[trigger]
            mdia_in_tables(mdia_found(c, p, base, acc)->Ok_0, j)
                ==> mdia_in_tables(acc, j) || mdia_unread(
                c,
                p,
                j - base,
            ),
    decreases c.len() - p,
{
    reveal(found_at);
    if p < c.len() {
        let h = child_at(c, p)->Ok_0;
        let size = h.spec_size();
        let cp = p + size.spec_head_len();
        let next = p + size.len;
        let r = mdia_found(c, p, base, acc)->Ok_0;
        if h.fourcc == Ident(MEDIA_INFORMATION) {
            let b = Minf::found(c, cp, base, size)->Ok_0;
            let acc2 = MdiaBounds { minf: Some(b), ..acc };
            lemma_mdia_tables(c, next, base, acc2);
            let d = c.subrange(cp, next);
            let init = MinfBounds { bounds: bounds_at(base + cp, size, Ident(MEDIA_INFORMATION)), stbl: None };
            lemma_minf_found_walk(c, cp, base, size);
            lemma_minf_tables(d, 0, base + cp, init);
            assert forall|j: int| #[trigger] mdia_in_tables(r, j) implies mdia_in_tables(acc, j)
                || mdia_unread(c, p, j - base) by {
                if mdia_in_tables(acc2, j) && !mdia_in_tables(acc, j) {
                    assert(minf_in_tables(b, j));
                    assert(minf_unread(d, 0, j - base - cp));
                    lemma_minf_unread_pos(d, 0, j - base - cp);
                    assert(mdia_unread(c, p, j - base));
                }
            }
        } else {
            lemma_mdia_tables(c, next, base, acc);
        }
    }
}

/// A track atom is found by the walk over its content.
pub proof fn lemma_trak_found_walk(s: Seq<u8>, p: int, base: int, size: Size)
    requires
        0 <= p,
        size.wf(),
        p + size.spec_content_len() <= s.len(),
    ensures
        Trak::found(s, p, base, size) is Ok == trak_found(
            s.subrange(p, p + size.spec_content_len()),
            0,
            base + p,
            TrakBounds { bounds: bounds_at(base + p, size, Ident(TRACK)), tkhd: None, tref: None, mdia: None },
        ) is Ok,
        Trak::found(s, p, base, size) is Ok ==> Trak::found(s, p, base, size) == trak_found(
            s.subrange(p, p + size.spec_content_len()),
            0,
            base + p,
            TrakBounds { bounds: bounds_at(base + p, size, Ident(TRACK)), tkhd: None, tref: None, mdia: None },
        ),
{
    reveal(Trak::found);
}

/// The position `j` of the file lies in the content of a chunk offset atom
/// that was found in a track atom.
pub open spec fn trak_in_tables(r: TrakBounds, j: int) -> bool {
    r.mdia is Some && mdia_in_tables(r.mdia->0, j)
}

/// The walk over the atoms in the content of a track atom, from position `p` of
/// `c` on, passes over the byte at position `j` of `c` unread: the byte
/// lies in the content of a chunk offset atom to which the walk comes.
pub open spec fn trak_unread(c: Seq<u8>, p: int, j: int) -> bool
    decreases c.len() - p,
{
    if p >= c.len() {
        false
    } else {
        match child_at(c, p) {
            Err(_) => false,
            Ok(h) => {
                let size = h.spec_size();
                let cp = p + size.spec_head_len();
                let next = p + size.len;
                (h.fourcc == Ident(MEDIA) && cp <= j < next && mdia_unread(
                    c.subrange(cp, next),
                    0,
                    j - cp,
                )) || trak_unread(c, next, j)
            },
        }
    }
}

/// A byte that the walk passes over unread lies behind the head of an atom
/// at or behind the position at which the walk starts.
pub proof fn lemma_trak_unread_pos(c: Seq<u8>, p: int, j: int)
    requires
        0 <= p,
        trak_unread(c, p, j),
    ensures
        p + 8 <= j < c.len(),
    decreases c.len() - p,
{
    let h = child_at(c, p)->Ok_0;
    let size = h.spec_size();
    let next = p + size.len;
    if trak_unread(c, next, j) {
        lemma_trak_unread_pos(c, next, j);
    }
}

/// The walk finds the same in two contents of one length that differ
/// only in bytes that it passes over unread.
pub proof fn lemma_trak_quiet(c: Seq<u8>, other: Seq<u8>, p: int, base: int, acc: TrakBounds)
    requires
        0 <= p,
        other.len() == c.len(),
        forall|j: int| p <= j < c.len() && !trak_unread(c, p, j) ==> c[j] == other[j],
        trak_found(c, p, base, acc) is Ok,
    ensures
        trak_found(other, p, base, acc) == trak_found(c, p, base, acc),
    decreases c.len() - p,
{
    reveal(found_at);
    if p < c.len() {
        let h = child_at(c, p)->Ok_0;
        let size = h.spec_size();
        let cp = p + size.spec_head_len();
        let next = p + size.len;
        assert forall|j: int| p <= j < cp implies c[j] == other[j] by {
            if trak_unread(c, next, j) {
                lemma_trak_unread_pos(c, next, j);
            }
        }
        lemma_child_at_same(c, other, p);
        assert forall|j: int| next <= j < c.len() && !trak_unread(c, next, j) implies c[j]
            == other[j] by {
            assert(!trak_unread(c, p, j));
        }
        if h.fourcc == Ident(TRACK_HEADER) {
            assert(c.subrange(cp, next) =~= other.subrange(cp, next)) by {
                assert forall|j: int| cp <= j < next implies c[j] == other[j] by {
                    if trak_unread(c, next, j) {
                        lemma_trak_unread_pos(c, next, j);
                    }
                }
            }
            lemma_tkhd_local(c, other, cp, size);
            let b = Tkhd::parsed(c, cp, size)->Ok_0;
            lemma_trak_quiet(c, other, next, base, TrakBounds { tkhd: Some(b), ..acc });
        } else if h.fourcc == Ident(TRACK_REFERENCE) {
            assert(c.subrange(cp, next) =~= other.subrange(cp, next)) by {
                assert forall|j: int| cp <= j < next implies c[j] == other[j] by {
                    if trak_unread(c, next, j) {
                        lemma_trak_unread_pos(c, next, j);
                    }
                }
            }
            lemma_found_local(c, other, cp, cp, base, size);
            let b = found_at(c, cp, base, size, Ident(TRACK_REFERENCE))->Ok_0;
            lemma_trak_quiet(
                c,
                other,
                next,
                base,
                TrakBounds { tref: Some(TrefBounds { bounds: b }), ..acc },
            );
        } else if h.fourcc == Ident(MEDIA) {
            let d = c.subrange(cp, next);
            let e = other.subrange(cp, next);
            let init = MdiaBounds { bounds: bounds_at(base + cp, size, Ident(MEDIA)), minf: None };
            lemma_mdia_found_walk(c, cp, base, size);
            lemma_mdia_found_walk(other, cp, base, size);
            assert forall|j: int| 0 <= j < d.len() && !mdia_unread(d, 0, j) implies d[j]
                == e[j] by {
                if trak_unread(c, next, cp + j) {
                    lemma_trak_unread_pos(c, next, cp + j);
                }
                assert(!trak_unread(c, p, cp + j));
            }
            lemma_mdia_quiet(d, e, 0, base + cp, init);
            let b = Mdia::found(c, cp, base, size)->Ok_0;
            lemma_trak_quiet(c, other, next, base, TrakBounds { mdia: Some(b), ..acc });
        } else {
            lemma_trak_quiet(c, other, next, base, acc);
        }
    }
}

/// The contents of the chunk offset atoms that the walk finds are bytes
/// that it passes over unread.
pub proof fn lemma_trak_tables(c: Seq<u8>, p: int, base: int, acc: TrakBounds)
    requires
        0 <= p,
        0 <= base,
        base + c.len() <= u64::MAX,
        trak_found(c, p, base, acc) is Ok,
    ensures
        forall|j: int| #[trigger]
            trak_in_tables(trak_found(c, p, base, acc)->Ok_0, j)
                ==> trak_in_tables(acc, j) || trak_unread(
                c,
                p,
                j - base,
            ),
    decreases c.len() - p,
{
    reveal(found_at);
    if p < c.len() {
        let h = child_at(c, p)->Ok_0;
        let size = h.spec_size();
        let cp = p + size.spec_head_len();
        let next = p + size.len;
        let r = trak_found(c, p, base, acc)->Ok_0;
        if h.fourcc == Ident(TRACK_HEADER) {
            let b = Tkhd::parsed(c, cp, size)->Ok_0;
            let acc2 = TrakBounds { tkhd: Some(b), ..acc };
            lemma_trak_tables(c, next, base, acc2);
            assert forall|j: int| #[trigger] trak_in_tables(r, j) implies trak_in_tables(acc, j)
                || trak_unread(c, p, j - base) by {
                if trak_in_tables(acc2, j) && !trak_in_tables(acc, j) {
                    assert(trak_unread(c, p, j - base));
                }
            }
        } else if h.fourcc == Ident(TRACK_REFERENCE) {
            let b = found_at(c, cp, base, size, Ident(TRACK_REFERENCE))->Ok_0;
            let acc2 = TrakBounds { tref: Some(TrefBounds { bounds: b }), ..acc };
            lemma_trak_tables(c, next, base, acc2);
            assert forall|j: int| #[trigger] trak_in_tables(r, j) implies trak_in_tables(acc, j)
                || trak_unread(c, p, j - base) by {
                if trak_in_tables(acc2, j) && !trak_in_tables(acc, j) {
                    assert(trak_unread(c, p, j - base));
                }
            }
        } else if h.fourcc == Ident(MEDIA) {
            let b = Mdia::found(c, cp, base, size)->Ok_0;
            let acc2 = TrakBounds { mdia: Some(b), ..acc };
            lemma_trak_tables(c, next, base, acc2);
            let d = c.subrange(cp, next);
            let init = MdiaBounds { bounds: bounds_at(base + cp, size, Ident(MEDIA)), minf: None };
            lemma_mdia_found_walk(c, cp, base, size);
            lemma_mdia_tables(d, 0, base + cp, init);
            assert forall|j: int| #[trigger] trak_in_tables(r, j) implies trak_in_tables(acc, j)
                || trak_unread(c, p, j - base) by {
                if trak_in_tables(acc2, j) && !trak_in_tables(acc, j) {
                    assert(mdia_in_tables(b, j));
                    assert(mdia_unread(d, 0, j - base - cp));
                    lemma_mdia_unread_pos(d, 0, j - base - cp);
                    assert(trak_unread(c, p, j - base));
                }
            }
        } else {
            lemma_trak_tables(c, next, base, acc);
        }
    }
}

/// The position `j` of the file lies in the content of a chunk offset atom
/// that was found in a movie atom.
pub open spec fn moov_in_tables(r: MoovBoundsView, j: int) -> bool {
    exists|t: int| 0 <= t < r.trak.len() && #[trigger] trak_in_tables(r.trak[t], j)
}

/// The walk over the atoms in the content of a movie atom, from position `p` of
/// `c` on, passes over the byte at position `j` of `c` unread: the byte
/// lies in the content of a chunk offset atom to which the walk comes.
pub open spec fn moov_unread(c: Seq<u8>, p: int, j: int) -> bool
    decreases c.len() - p,
{
    if p >= c.len() {
        false
    } else {
        match child_at(c, p) {
            Err(_) => false,
            Ok(h) => {
                let size = h.spec_size();
                let cp = p + size.spec_head_len();
                let next = p + size.len;
                (h.fourcc == Ident(TRACK) && cp <= j < next && trak_unread(
                    c.subrange(cp, next),
                    0,
                    j - cp,
                )) || moov_unread(c, next, j)
            },
        }
    }
}

/// A byte that the walk passes over unread lies behind the head of an atom
/// at or behind the position at which the walk starts.
pub proof fn lemma_moov_unread_pos(c: Seq<u8>, p: int, j: int)
    requires
        0 <= p,
        moov_unread(c, p, j),
    ensures
        p + 8 <= j < c.len(),
    decreases c.len() - p,
{
    let h = child_at(c, p)->Ok_0;
    let size = h.spec_size();
    let next = p + size.len;
    if moov_unread(c, next, j) {
        lemma_moov_unread_pos(c, next, j);
    }
}

/// The walk finds the same in two contents of one length that differ
/// only in bytes that it passes over unread.
pub proof fn lemma_moov_quiet(c: Seq<u8>, other: Seq<u8>, p: int, base: int, acc: MoovBoundsView)
    requires
        0 <= p,
        other.len() == c.len(),
        forall|j: int| p <= j < c.len() && !moov_unread(c, p, j) ==> c[j] == other[j],
        moov_found(c, p, base, acc) is Ok,
    ensures
        moov_found(other, p, base, acc) == moov_found(c, p, base, acc),
    decreases c.len() - p,
{
    reveal(found_at);
    if p < c.len() {
        let h = child_at(c, p)->Ok_0;
        let size = h.spec_size();
        let cp = p + size.spec_head_len();
        let next = p + size.len;
        assert forall|j: int| p <= j < cp implies c[j] == other[j] by {
            if moov_unread(c, next, j) {
                lemma_moov_unread_pos(c, next, j);
            }
        }
        lemma_child_at_same(c, other, p);
        assert forall|j: int| next <= j < c.len() && !moov_unread(c, next, j) implies c[j]
            == other[j] by {
            assert(!moov_unread(c, p, j));
        }
        if h.fourcc == Ident(TRACK) {
            let d = c.subrange(cp, next);
            let e = other.subrange(cp, next);
            let init = TrakBounds { bounds: bounds_at(base + cp, size, Ident(TRACK)), tkhd: None, tref: None, mdia: None };
            lemma_trak_found_walk(c, cp, base, size);
            lemma_trak_found_walk(other, cp, base, size);
            assert forall|j: int| 0 <= j < d.len() && !trak_unread(d, 0, j) implies d[j]
                == e[j] by {
                if moov_unread(c, next, cp + j) {
                    lemma_moov_unread_pos(c, next, cp + j);
                }
                assert(!moov_unread(c, p, cp + j));
            }
            lemma_trak_quiet(d, e, 0, base + cp, init);
            let b = Trak::found(c, cp, base, size)->Ok_0;
            lemma_moov_quiet(
                c,
                other,
                next,
                base,
                MoovBoundsView { trak: acc.trak.push(b), ..acc },
            );
        } else if h.fourcc == Ident(USER_DATA) {
            assert(c.subrange(cp, next) =~= other.subrange(cp, next)) by {
                assert forall|j: int| cp <= j < next implies c[j] == other[j] by {
                    if moov_unread(c, next, j) {
                        lemma_moov_unread_pos(c, next, j);
                    }
                }
            }
            lemma_found_local(c, other, cp, cp, base, size);
            let b = Udta::found(c, cp, base, size)->Ok_0;
            lemma_moov_quiet(c, other, next, base, MoovBoundsView { udta: Some(b), ..acc });
        } else {
            lemma_moov_quiet(c, other, next, base, acc);
        }
    }
}

/// The contents of the chunk offset atoms that the walk finds are bytes
/// that it passes over unread.
pub proof fn lemma_moov_tables(c: Seq<u8>, p: int, base: int, acc: MoovBoundsView)
    requires
        0 <= p,
        0 <= base,
        base + c.len() <= u64::MAX,
        moov_found(c, p, base, acc) is Ok,
    ensures
        forall|j: int| #[trigger]
            moov_in_tables(moov_found(c, p, base, acc)->Ok_0, j)
                ==> moov_in_tables(acc, j) || moov_unread(
                c,
                p,
                j - base,
            ),
    decreases c.len() - p,
{
    reveal(found_at);
    if p < c.len() {
        let h = child_at(c, p)->Ok_0;
        let size = h.spec_size();
        let cp = p + size.spec_head_len();
        let next = p + size.len;
        let r = moov_found(c, p, base, acc)->Ok_0;
        if h.fourcc == Ident(TRACK) {
            let b = Trak::found(c, cp, base, size)->Ok_0;
            let acc2 = MoovBoundsView { trak: acc.trak.push(b), ..acc };
            lemma_moov_tables(c, next, base, acc2);
            let d = c.subrange(cp, next);
            let init = TrakBounds { bounds: bounds_at(base + cp, size, Ident(TRACK)), tkhd: None, tref: None, mdia: None };
            lemma_trak_found_walk(c, cp, base, size);
            lemma_trak_tables(d, 0, base + cp, init);
            assert forall|j: int| #[trigger] moov_in_tables(r, j) implies moov_in_tables(acc, j)
                || moov_unread(c, p, j - base) by {
                if moov_in_tables(acc2, j) && !moov_in_tables(acc, j) {
                    let t = choose|t: int|
                        0 <= t < acc2.trak.len() && #[trigger] trak_in_tables(acc2.trak[t], j);
                    if t < acc.trak.len() {
                        assert(acc2.trak[t] == acc.trak[t]);
                        assert(trak_in_tables(acc.trak[t], j));
                    }
                    assert(trak_in_tables(b, j));
                    assert(trak_unread(d, 0, j - base - cp));
                    lemma_trak_unread_pos(d, 0, j - base - cp);
                    assert(moov_unread(c, p, j - base));
                }
            }
        } else if h.fourcc == Ident(USER_DATA) {
            let b = Udta::found(c, cp, base, size)->Ok_0;
            let acc2 = MoovBoundsView { udta: Some(b), ..acc };
            lemma_moov_tables(c, next, base, acc2);
            assert forall|j: int| #[trigger] moov_in_tables(r, j) implies moov_in_tables(acc, j)
                || moov_unread(c, p, j - base) by {
                if moov_in_tables(acc2, j) && !moov_in_tables(acc, j) {
                    assert(moov_unread(c, p, j - base));
                }
            }
        } else {
            lemma_moov_tables(c, next, base, acc);
        }
    }
}

/// The position `j` of the file lies in the content of a chunk offset atom
/// that was found in a file.
pub open spec fn sweep_in_tables(r: SweepView, j: int) -> bool {
    r.moov is Some && moov_in_tables(r.moov->0, j)
}

/// The walk over the atoms at the top of a file, from position `p` of
/// `c` on, passes over the byte at position `j` of `c` unread: the byte
/// lies in the content of a chunk offset atom to which the walk comes.
pub open spec fn sweep_unread(c: Seq<u8>, p: int, j: int) -> bool
    decreases c.len() - p,
{
    if p >= c.len() {
        false
    } else {
        match top_at(c, p) {
            Err(_) => false,
            Ok(h) => {
                let size = h.spec_size();
                let cp = p + size.spec_head_len();
                let next = p + size.len;
                (h.fourcc == Ident(MOVIE) && cp <= j < next && moov_unread(
                    c.subrange(cp, next),
                    0,
                    j - cp,
                )) || sweep_unread(c, next, j)
            },
        }
    }
}

/// A byte that the walk passes over unread lies behind the head of an atom
/// at or behind the position at which the walk starts.
pub proof fn lemma_sweep_unread_pos(c: Seq<u8>, p: int, j: int)
    requires
        0 <= p,
        sweep_unread(c, p, j),
    ensures
        p + 8 <= j < c.len(),
    decreases c.len() - p,
{
    let h = top_at(c, p)->Ok_0;
    let size = h.spec_size();
    let next = p + size.len;
    if sweep_unread(c, next, j) {
        lemma_sweep_unread_pos(c, next, j);
    }
}

/// The walk finds the same in two contents of one length that differ
/// only in bytes that it passes over unread.
pub proof fn lemma_sweep_quiet(c: Seq<u8>, other: Seq<u8>, p: int, acc: SweepView)
    requires
        0 <= p,
        other.len() == c.len(),
        forall|j: int| p <= j < c.len() && !sweep_unread(c, p, j) ==> c[j] == other[j],
        swept(c, p, acc) is Ok,
    ensures
        swept(other, p, acc) == swept(c, p, acc),
    decreases c.len() - p,
{
    reveal(found_at);
    if p < c.len() {
        let h = top_at(c, p)->Ok_0;
        let size = h.spec_size();
        let cp = p + size.spec_head_len();
        let next = p + size.len;
        assert forall|j: int| p <= j < cp implies c[j] == other[j] by {
            if sweep_unread(c, next, j) {
                lemma_sweep_unread_pos(c, next, j);
            }
        }
        lemma_top_at_same(c, other, p);
        assert forall|j: int| next <= j < c.len() && !sweep_unread(c, next, j) implies c[j]
            == other[j] by {
            assert(!sweep_unread(c, p, j));
        }
        if h.fourcc == Ident(MOVIE) {
            let d = c.subrange(cp, next);
            let e = other.subrange(cp, next);
            let init = MoovBoundsView { bounds: bounds_at(0 + cp, size, Ident(MOVIE)), trak: Seq::empty(), udta: None };
            crate::again::lemma_moov_found_walk(c, cp, 0, size);
            crate::again::lemma_moov_found_walk(other, cp, 0, size);
            assert forall|j: int| 0 <= j < d.len() && !moov_unread(d, 0, j) implies d[j]
                == e[j] by {
                if sweep_unread(c, next, cp + j) {
                    lemma_sweep_unread_pos(c, next, cp + j);
                }
                assert(!sweep_unread(c, p, cp + j));
            }
            lemma_moov_quiet(d, e, 0, 0 + cp, init);
            let b = Moov::found(c, cp, 0, size)->Ok_0;
            lemma_sweep_quiet(c, other, next, SweepView { moov: Some(b), ..acc });
        } else if h.fourcc == Ident(MEDIA_DATA) {
            assert(c.subrange(cp, next) =~= other.subrange(cp, next)) by {
                assert forall|j: int| cp <= j < next implies c[j] == other[j] by {
                    if sweep_unread(c, next, j) {
                        lemma_sweep_unread_pos(c, next, j);
                    }
                }
            }
            lemma_found_local(c, other, cp, cp, 0, size);
            let b = found_at(c, cp, 0, size, Ident(MEDIA_DATA))->Ok_0;
            lemma_sweep_quiet(
                c,
                other,
                next,
                SweepView { mdat: Some(MdatBounds { bounds: b }), ..acc },
            );
        } else {
            lemma_sweep_quiet(c, other, next, acc);
        }
    }
}

/// The contents of the chunk offset atoms that the walk finds are bytes
/// that it passes over unread.
pub proof fn lemma_sweep_tables(c: Seq<u8>, p: int, acc: SweepView)
    requires
        0 <= p,
        c.len() <= u64::MAX,
        swept(c, p, acc) is Ok,
    ensures
        forall|j: int| #[trigger]
            sweep_in_tables(swept(c, p, acc)->Ok_0, j) ==> sweep_in_tables(acc, j) || sweep_unread(
                c,
                p,
                j - 0,
            ),
    decreases c.len() - p,
{
    reveal(found_at);
    if p < c.len() {
        let h = top_at(c, p)->Ok_0;
        let size = h.spec_size();
        let cp = p + size.spec_head_len();
        let next = p + size.len;
        let r = swept(c, p, acc)->Ok_0;
        if h.fourcc == Ident(MOVIE) {
            let b = Moov::found(c, cp, 0, size)->Ok_0;
            let acc2 = SweepView { moov: Some(b), ..acc };
            lemma_sweep_tables(c, next, acc2);
            let d = c.subrange(cp, next);
            let init = MoovBoundsView { bounds: bounds_at(0 + cp, size, Ident(MOVIE)), trak: Seq::empty(), udta: None };
            crate::again::lemma_moov_found_walk(c, cp, 0, size);
            lemma_moov_tables(d, 0, 0 + cp, init);
            assert forall|j: int| #[trigger] sweep_in_tables(r, j) implies sweep_in_tables(acc, j)
                || sweep_unread(c, p, j - 0) by {
                if sweep_in_tables(acc2, j) && !sweep_in_tables(acc, j) {
                    assert(moov_in_tables(b, j));
                    assert(moov_unread(d, 0, j - 0 - cp));
                    lemma_moov_unread_pos(d, 0, j - 0 - cp);
                    assert(sweep_unread(c, p, j - 0));
                }
            }
        } else if h.fourcc == Ident(MEDIA_DATA) {
            let b = found_at(c, cp, 0, size, Ident(MEDIA_DATA))->Ok_0;
            let acc2 = SweepView { mdat: Some(MdatBounds { bounds: b }), ..acc };
            lemma_sweep_tables(c, next, acc2);
            assert forall|j: int| #[trigger] sweep_in_tables(r, j) implies sweep_in_tables(acc, j)
                || sweep_unread(c, p, j - 0) by {
                if sweep_in_tables(acc2, j) && !sweep_in_tables(acc, j) {
                    assert(sweep_unread(c, p, j - 0));
                }
            }
        } else {
            lemma_sweep_tables(c, next, acc);
        }
    }
}
} // verus!
