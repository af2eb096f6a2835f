//! The file that comes of writing a tag, as the one who reads it again sees
//! it: byte by byte, and then atom by atom.

use crate::again::edit::{carried_meta, carried_moov, carried_udta, edit_len, fits_head, new_ilst};
use crate::again::edit::{fresh_meta_ipos, fresh_udta, fresh_udta_ipos, lemma_meta_again};
use crate::again::edit::{lemma_moov_append, lemma_udta_append, new_inner, plain_len, written_at};
use crate::again::moov::{lemma_moov_again, lemma_moov_target_pos};
use crate::again::sweep::{lemma_sweep_target_pos, lemma_sweep_walk_again};
use crate::again::udta::{lemma_udta_again, lemma_udta_target_pos};
use crate::again::{chain, in_size_field, lemma_found_fits, lemma_found_local};
use crate::again::{lemma_moov_found_walk, lemma_sizes_written, lemma_udta_found_walk};
use crate::again::{lemma_subrange_twice, resized, sized};
use crate::atom::base::{fits, lemma_boxed_len};
use crate::atom::ftyp::ftyp_at;
use crate::atom::ilst::{items_bytes, Ilst};
use crate::atom::meta::{Meta, MetaBounds};
use crate::atom::metaitem::MetaItemView;
use crate::atom::moov::{Moov, MoovBoundsView};
use crate::atom::udta::{Udta, UdtaBounds};
use crate::error::ErrorView;
use crate::head::{bounds_at, AtomBounds, Size};
use crate::ident::{Ident, ITEM_LIST, METADATA, MOVIE, USER_DATA};
use crate::laws::found_in;
use crate::rewrite::{fresh_meta, moved_data_start_of, new_atoms_of, new_atoms_start_of};
use crate::rewrite::{patched, plan_for, planned, size_patches, swept, updates_of};
use crate::rewrite::{SweepView, MAX_ITEMS_LEN};
use vstd::prelude::*;

verus! {

/// The position `j` lies in the bytes that hold the length of the movie
/// atom, or of the user data or metadata atom that was found in it.
pub open spec fn in_heads(moov: MoovBoundsView, j: int) -> bool {
    in_size_field(moov.bounds, j) || (moov.udta is Some && (in_size_field(moov.udta->0.bounds, j)
        || (moov.udta->0.meta is Some && in_size_field(moov.udta->0.meta->0.bounds, j))))
}

/// By how many bytes a file grows whose movie atom was found as `moov`,
/// when it is given the items.
pub open spec fn growth(moov: MoovBoundsView, items: Seq<MetaItemView>) -> int {
    new_atoms_of(moov, items).len() - (moved_data_start_of(moov) - new_atoms_start_of(moov))
}

/// The file `f`, whose movie atom was found as `moov`, with the new lengths
/// in the heads of the atoms around the metadata, the atoms of the items
/// in the place of the item list, and the rest moved behind them.
pub open spec fn edited(f: Seq<u8>, moov: MoovBoundsView, items: Seq<MetaItemView>) -> Seq<u8> {
    patched(f, size_patches(updates_of(moov), growth(moov, items), 0)->Ok_0).subrange(
        0,
        new_atoms_start_of(moov),
    ) + new_atoms_of(moov, items) + f.subrange(moved_data_start_of(moov), f.len() as int)
}

/// The size of the atom `a` after it grew by `d` bytes.
pub open spec fn grown(a: AtomBounds, d: int) -> Size {
    Size { ext: a.size.ext, len: (a.size.len + d) as u64 }
}

/// The atoms around the metadata lie each inside the one before it.
pub proof fn lemma_updates_chain(f: Seq<u8>, moov: MoovBoundsView)
    requires
        moov.nested(f),
    ensures
        chain(updates_of(moov), f.len() as int),
        forall|u: int|
            0 <= u < updates_of(moov).len() ==> (#[trigger] updates_of(moov)[u]).spec_content_pos()
                <= new_atoms_start_of(moov),
        0 <= new_atoms_start_of(moov) <= moved_data_start_of(moov) <= moov.bounds.spec_end(),
        moov.bounds.spec_end() <= f.len(),
{
}

/// The bytes `f` with the new lengths in the heads of the atoms `updates`,
/// the bytes `new` in the place of those from `start` to `moved`, and the
/// rest behind them.
pub open spec fn spliced(
    f: Seq<u8>,
    updates: Seq<AtomBounds>,
    d: int,
    start: int,
    moved: int,
    new: Seq<u8>,
) -> Seq<u8> {
    patched(f, size_patches(updates, d, 0)->Ok_0).subrange(0, start) + new + f.subrange(
        moved,
        f.len() as int,
    )
}

/// No atom of `updates` holds its length at the position `j`.
pub open spec fn off_heads(updates: Seq<AtomBounds>, j: int) -> bool {
    forall|u: int| 0 <= u < updates.len() ==> !in_size_field(#[trigger] updates[u], j)
}

/// The bytes of a file after such a change: the heads of the atoms hold the
/// new lengths, the bytes before the new ones are otherwise those of the
/// file, then come the new bytes, and then the bytes of the file from
/// `moved` on.
pub proof fn lemma_spliced(
    f: Seq<u8>,
    updates: Seq<AtomBounds>,
    d: int,
    start: int,
    moved: int,
    new: Seq<u8>,
)
    requires
        chain(updates, f.len() as int),
        size_patches(updates, d, 0) is Ok,
        forall|u: int|
            0 <= u < updates.len() ==> (#[trigger] updates[u]).spec_content_pos() <= start,
        0 <= start <= moved <= f.len(),
        d == new.len() - (moved - start),
    ensures
        ({
            let g = spliced(f, updates, d, start, moved, new);
            &&& g.len() == f.len() + d
            &&& forall|j: int| 0 <= j < start && off_heads(updates, j) ==> #[trigger] g[j] == f[j]
            &&& forall|u: int|
                0 <= u < updates.len() ==> sized(
                    g,
                    (#[trigger] updates[u]).pos as int,
                    updates[u].size.ext,
                    updates[u].size.len + d,
                )
            &&& g.subrange(start, start + new.len()) == new
            &&& forall|j: int| start + new.len() <= j < g.len() ==> #[trigger] g[j] == f[j - d]
        }),
{
    let g = spliced(f, updates, d, start, moved, new);
    lemma_sizes_written(f, updates, d, 0);
    let y = patched(f, size_patches(updates, d, 0)->Ok_0);
    assert forall|j: int| 0 <= j < start && off_heads(updates, j) implies #[trigger] g[j]
        == f[j] by {
        assert(g[j] == y[j]);
    }
    assert forall|u: int| 0 <= u < updates.len() implies sized(
        g,
        (#[trigger] updates[u]).pos as int,
        updates[u].size.ext,
        updates[u].size.len + d,
    ) by {
        let a = updates[u];
        assert(a.wf());
        assert(resized(y, a, a.size.len + d));
        assert(a.spec_content_pos() <= start);
        assert(g.subrange(a.pos as int, a.pos + 4) =~= y.subrange(a.pos as int, a.pos + 4));
        if a.size.ext {
            assert(g.subrange(a.pos + 8, a.pos + 16) =~= y.subrange(a.pos + 8, a.pos + 16));
        }
    }
    assert(g.subrange(start, start + new.len()) =~= new);
}

/// The bytes of the edited file: the heads of the atoms around the metadata
/// hold the new lengths, the bytes before the new atoms are otherwise those
/// of the file, then come the new atoms, and then the bytes of the file from
/// the end of the old item list on.
pub proof fn lemma_edited(f: Seq<u8>, moov: MoovBoundsView, items: Seq<MetaItemView>)
    requires
        moov.nested(f),
        size_patches(updates_of(moov), growth(moov, items), 0) is Ok,
    ensures
        ({
            let g = edited(f, moov, items);
            let d = growth(moov, items);
            let start = new_atoms_start_of(moov);
            let new = new_atoms_of(moov, items);
            &&& g.len() == f.len() + d
            &&& start + new.len() <= g.len()
            &&& forall|j: int| 0 <= j < start && !in_heads(moov, j) ==> #[trigger] g[j] == f[j]
            &&& forall|u: int|
                0 <= u < updates_of(moov).len() ==> sized(
                    g,
                    (#[trigger] updates_of(moov)[u]).pos as int,
                    updates_of(moov)[u].size.ext,
                    updates_of(moov)[u].size.len + d,
                )
            &&& g.subrange(start, start + new.len()) == new
            &&& forall|j: int| start + new.len() <= j < g.len() ==> #[trigger] g[j] == f[j - d]
        }),
{
    let g = edited(f, moov, items);
    let d = growth(moov, items);
    let start = new_atoms_start_of(moov);
    let moved = moved_data_start_of(moov);
    let new = new_atoms_of(moov, items);
    let ups = updates_of(moov);
    lemma_updates_chain(f, moov);
    lemma_spliced(f, ups, d, start, moved, new);
    assert(g == spliced(f, ups, d, start, moved, new));
    assert forall|j: int| 0 <= j < start && !in_heads(moov, j) implies #[trigger] g[j] == f[j] by {
        assert(off_heads(ups, j));
    }
}

/// The bytes of the edited file around one of the atoms whose length
/// changes: those between the position `lo` in the atom around it and its
/// head are those of the file, its head holds the new length and the
/// identifier that it had, and the bytes of the file between its end and the
/// position `hi` stand behind it.
pub proof fn lemma_edited_around(
    f: Seq<u8>,
    moov: MoovBoundsView,
    items: Seq<MetaItemView>,
    u: int,
    lo: int,
    hi: int,
)
    requires
        moov.nested(f),
        size_patches(updates_of(moov), growth(moov, items), 0) is Ok,
        0 <= u < updates_of(moov).len(),
        0 <= lo <= updates_of(moov)[u].pos,
        forall|v: int| 0 <= v < u ==> (#[trigger] updates_of(moov)[v]).spec_content_pos() <= lo,
        updates_of(moov)[u].spec_end() <= hi <= f.len(),
    ensures
        ({
            let g = edited(f, moov, items);
            let d = growth(moov, items);
            let a = updates_of(moov)[u];
            &&& g.len() == f.len() + d
            &&& g.subrange(lo, a.pos as int) == f.subrange(lo, a.pos as int)
            &&& sized(g, a.pos as int, a.size.ext, a.size.len + d)
            &&& g.subrange(a.pos + 4, a.pos + 8) == f.subrange(a.pos + 4, a.pos + 8)
            &&& g.subrange(a.spec_end() + d, hi + d) == f.subrange(a.spec_end(), hi)
        }),
{
    let g = edited(f, moov, items);
    let d = growth(moov, items);
    let a = updates_of(moov)[u];
    lemma_updates_chain(f, moov);
    lemma_edited(f, moov, items);
    assert(a.wf());
    assert(a.spec_content_pos() <= new_atoms_start_of(moov));
    assert forall|j: int| lo <= j < a.pos || a.pos + 4 <= j < a.pos + 8 implies !in_heads(
        moov,
        j,
    ) by {
        assert forall|v: int| 0 <= v < updates_of(moov).len() implies !in_size_field(
            #[trigger] updates_of(moov)[v],
            j,
        ) by {
            let o = updates_of(moov)[v];
            assert(o.wf());
            if v < u {
                assert(o.spec_content_pos() <= lo);
            } else if v > u {
                assert(a.spec_content_pos() <= o.pos);
            }
        }
    }
    assert(g.subrange(lo, a.pos as int) =~= f.subrange(lo, a.pos as int));
    assert(g.subrange(a.pos + 4, a.pos + 8) =~= f.subrange(a.pos + 4, a.pos + 8));
    assert(g.subrange(a.spec_end() + d, hi + d) =~= f.subrange(a.spec_end(), hi));
}

/// What the laws of this module ask of a file, of the movie atom that was
/// found in it, and of the items: the file and the edited file have lengths
/// of 64 bits, what was found fits the file, the new lengths of the atoms
/// around the metadata fit their heads, and the item list is not too long,
/// nor of a length that reads as the identifier of a handler reference or
/// of an item list.
pub open spec fn editable(f: Seq<u8>, moov: MoovBoundsView, items: Seq<MetaItemView>) -> bool {
    &&& f.len() <= u64::MAX
    &&& f.len() + growth(moov, items) <= u64::MAX
    &&& moov.nested(f)
    &&& size_patches(updates_of(moov), growth(moov, items), 0) is Ok
    &&& items_bytes(items).len() <= MAX_ITEMS_LEN
    &&& plain_len(items)
}

/// The position of the item list in the edited file.
pub open spec fn ilst_pos(moov: MoovBoundsView, items: Seq<MetaItemView>) -> int {
    new_atoms_start_of(moov) + new_atoms_of(moov, items).len() - Ilst::bytes(items).len()
}

/// Where the new lengths of atoms fit their heads, that of each does.
pub proof fn lemma_grown(updates: Seq<AtomBounds>, d: int, from: int, u: int)
    requires
        0 <= from <= u < updates.len(),
        size_patches(updates, d, from) is Ok,
        updates[u].size.wf(),
    ensures
        grown(updates[u], d).wf(),
        grown(updates[u], d).len == updates[u].size.len + d,
        grown(updates[u], d).spec_head_len() == updates[u].size.spec_head_len(),
        !grown(updates[u], d).ext ==> grown(updates[u], d).len <= u32::MAX,
    decreases u - from,
{
    if from < u {
        lemma_grown(updates, d, from + 1, u);
    }
}

/// The bounds of an item list at a position, and the length of its atom.
pub proof fn lemma_new_ilst(pos: int, items: Seq<MetaItemView>)
    requires
        0 <= pos,
        Ilst::writable(items),
        pos + Ilst::bytes(items).len() <= u64::MAX,
    ensures
        new_ilst(pos, items).bounds.pos == pos,
        new_ilst(pos, items).bounds.spec_end() == pos + Ilst::bytes(items).len(),
{
    reveal(Ilst::bytes);
    lemma_boxed_len(Ident(ITEM_LIST), items_bytes(items));
}

/// The metadata atom of a file is found in the edited file, with a handler
/// reference and with the item list of the items.
#[verifier::spinoff_prover]
#[verifier::rlimit(60)]
pub proof fn lemma_edited_meta(f: Seq<u8>, moov: MoovBoundsView, items: Seq<MetaItemView>)
    requires
        editable(f, moov, items),
        moov.udta is Some,
        moov.udta->0.meta is Some,
        Meta::found(
            f,
            moov.udta->0.meta->0.bounds.spec_content_pos(),
            0,
            moov.udta->0.meta->0.bounds.size,
        ) == Ok::<MetaBounds, ErrorView>(moov.udta->0.meta->0),
    ensures
        ({
            let g = edited(f, moov, items);
            let b = moov.udta->0.meta->0.bounds;
            let size = grown(b, growth(moov, items));
            let again = Meta::found(g, b.spec_content_pos(), 0, size);
            &&& again is Ok
            &&& carried_meta(again->Ok_0, ilst_pos(moov, items), items)
            &&& again->Ok_0.bounds == bounds_at(b.spec_content_pos(), size, Ident(METADATA))
            &&& written_at(g, ilst_pos(moov, items), items)
        }),
{
    let g = edited(f, moov, items);
    let d = growth(moov, items);
    let m = moov.udta->0.meta->0;
    let b = m.bounds;
    let p = b.spec_content_pos();
    let size = grown(b, d);
    let start = new_atoms_start_of(moov);
    let moved = moved_data_start_of(moov);
    let new = new_atoms_of(moov, items);
    lemma_updates_chain(f, moov);
    lemma_edited(f, moov, items);
    assert(updates_of(moov)[2] == b);
    lemma_grown(updates_of(moov), d, 0, 2);
    assert(new =~= new_inner(m.hdlr is None, items));
    assert(moved - start == edit_len(m));
    assert(g.subrange(p, start) =~= f.subrange(p, start));
    assert(g.subrange(start + new.len(), p + size.spec_content_len()) =~= f.subrange(
        moved,
        p + b.size.spec_content_len(),
    ));
    lemma_meta_again(f, g, p, 0, b.size, size, start, items);
    lemma_new_ilst(ilst_pos(moov, items), items);
}

/// Atoms that are written for a list of items that is not too long can be
/// written, and the item list stands at their end.
pub proof fn lemma_fresh(p: int, items: Seq<MetaItemView>)
    requires
        items_bytes(items).len() <= MAX_ITEMS_LEN,
    ensures
        Ilst::writable(items),
        fits(fresh_meta(items).content_bytes().len() as int),
        fits(fresh_udta(items).content_bytes().len() as int),
        fresh_meta_ipos(p, items) + Ilst::bytes(items).len() == p + fresh_meta(items).bytes().len(),
        fresh_udta_ipos(p, items) + Ilst::bytes(items).len() == p + fresh_udta(items).bytes().len(),
{
    reveal(Ilst::bytes);
    reveal(crate::atom::meta::MetaView::bytes);
    reveal(crate::atom::udta::UdtaView::bytes);
    crate::again::edit::lemma_canonical_len();
    lemma_boxed_len(Ident(ITEM_LIST), items_bytes(items));
    lemma_boxed_len(Ident(METADATA), fresh_meta(items).content_bytes());
    lemma_boxed_len(Ident(USER_DATA), fresh_udta(items).content_bytes());
}

/// The metadata atom that was found in a user data atom is what is found
/// where it lies.
pub proof fn lemma_udta_origin(s: Seq<u8>, p: int, size: Size)
    requires
        0 <= p,
        s.len() <= u64::MAX,
        size.wf(),
        Udta::found(s, p, 0, size) is Ok,
        Udta::found(s, p, 0, size)->Ok_0.meta is Some,
    ensures
        ({
            let m = Udta::found(s, p, 0, size)->Ok_0.meta->0;
            Meta::found(s, m.bounds.spec_content_pos(), 0, m.bounds.size) == Ok::<
                MetaBounds,
                ErrorView,
            >(m)
        }),
{
    let n = size.spec_content_len();
    let c = s.subrange(p, p + n);
    let init = UdtaBounds { bounds: bounds_at(p, size, Ident(USER_DATA)), meta: None };
    lemma_found_fits(s, p, 0, size);
    lemma_udta_found_walk(s, p, 0, size);
    lemma_udta_target_pos(c, p, init);
    let m = Udta::found(s, p, 0, size)->Ok_0.meta->0;
    let q = m.bounds.spec_content_pos() - p;
    lemma_subrange_twice(s, p, p + n, q, q + m.bounds.size.spec_content_len());
    lemma_found_local(c, s, q, p + q, p, m.bounds.size);
}

/// The user data atom that was found in a movie atom is what is found where
/// it lies.
pub proof fn lemma_moov_origin(s: Seq<u8>, p: int, size: Size)
    requires
        0 <= p,
        s.len() <= u64::MAX,
        size.wf(),
        Moov::found(s, p, 0, size) is Ok,
        Moov::found(s, p, 0, size)->Ok_0.udta is Some,
    ensures
        ({
            let u = Moov::found(s, p, 0, size)->Ok_0.udta->0;
            Udta::found(s, u.bounds.spec_content_pos(), 0, u.bounds.size) == Ok::<
                UdtaBounds,
                ErrorView,
            >(u)
        }),
{
    let n = size.spec_content_len();
    let c = s.subrange(p, p + n);
    let init = MoovBoundsView {
        bounds: bounds_at(p, size, Ident(MOVIE)),
        trak: Seq::empty(),
        udta: None,
    };
    lemma_found_fits(s, p, 0, size);
    lemma_moov_found_walk(s, p, 0, size);
    lemma_moov_target_pos(c, p, init);
    let u = Moov::found(s, p, 0, size)->Ok_0.udta->0;
    let q = u.bounds.spec_content_pos() - p;
    lemma_subrange_twice(s, p, p + n, q, q + u.bounds.size.spec_content_len());
    lemma_found_local(c, s, q, p + q, p, u.bounds.size);
}

/// The user data atom of a file is found in the edited file, and in it the
/// metadata atom with a handler reference and with the item list of the
/// items.
#[verifier::spinoff_prover]
#[verifier::rlimit(60)]
pub proof fn lemma_edited_udta(f: Seq<u8>, moov: MoovBoundsView, items: Seq<MetaItemView>)
    requires
        editable(f, moov, items),
        moov.udta is Some,
        Udta::found(f, moov.udta->0.bounds.spec_content_pos(), 0, moov.udta->0.bounds.size) == Ok::<
            UdtaBounds,
            ErrorView,
        >(moov.udta->0),
    ensures
        ({
            let g = edited(f, moov, items);
            let b = moov.udta->0.bounds;
            let size = grown(b, growth(moov, items));
            let again = Udta::found(g, b.spec_content_pos(), 0, size);
            &&& again is Ok
            &&& carried_udta(again->Ok_0, ilst_pos(moov, items), items)
            &&& again->Ok_0.bounds == bounds_at(b.spec_content_pos(), size, Ident(USER_DATA))
            &&& written_at(g, ilst_pos(moov, items), items)
        }),
{
    let g = edited(f, moov, items);
    let d = growth(moov, items);
    let u = moov.udta->0;
    let b = u.bounds;
    let p = b.spec_content_pos();
    let size = grown(b, d);
    let start = new_atoms_start_of(moov);
    let moved = moved_data_start_of(moov);
    let new = new_atoms_of(moov, items);
    lemma_updates_chain(f, moov);
    lemma_edited(f, moov, items);
    assert(updates_of(moov)[1] == b);
    lemma_grown(updates_of(moov), d, 0, 1);
    lemma_fresh(start, items);
    if u.meta is Some {
        let m = u.meta->0;
        let mb = m.bounds;
        let msize = grown(mb, d);
        assert(updates_of(moov)[2] == mb);
        lemma_grown(updates_of(moov), d, 0, 2);
        lemma_udta_origin(f, p, b.size);
        lemma_edited_meta(f, moov, items);
        lemma_edited_around(f, moov, items, 2, p, b.spec_end());
        lemma_udta_again(f, g, p, 0, b.size, size, msize);
    } else {
        assert(g.subrange(p, start) =~= f.subrange(p, start));
        lemma_udta_append(f, g, p, b.size, size, items);
    }
}

/// The movie atom of a file is found in the edited file, and in it the
/// user data atom and the metadata atom, with a handler reference and with
/// the item list of the items.
#[verifier::spinoff_prover]
#[verifier::rlimit(60)]
pub proof fn lemma_edited_moov(f: Seq<u8>, moov: MoovBoundsView, items: Seq<MetaItemView>)
    requires
        editable(f, moov, items),
        Moov::found(f, moov.bounds.spec_content_pos(), 0, moov.bounds.size) == Ok::<
            MoovBoundsView,
            ErrorView,
        >(moov),
    ensures
        ({
            let g = edited(f, moov, items);
            let b = moov.bounds;
            let size = grown(b, growth(moov, items));
            let again = Moov::found(g, b.spec_content_pos(), 0, size);
            &&& again is Ok
            &&& carried_moov(again->Ok_0, ilst_pos(moov, items), items)
            &&& again->Ok_0.bounds == bounds_at(b.spec_content_pos(), size, Ident(MOVIE))
            &&& fits_head(size)
            &&& written_at(g, ilst_pos(moov, items), items)
        }),
{
    let g = edited(f, moov, items);
    let d = growth(moov, items);
    let b = moov.bounds;
    let p = b.spec_content_pos();
    let size = grown(b, d);
    let start = new_atoms_start_of(moov);
    let moved = moved_data_start_of(moov);
    let new = new_atoms_of(moov, items);
    lemma_updates_chain(f, moov);
    lemma_edited(f, moov, items);
    assert(updates_of(moov)[0] == b);
    lemma_grown(updates_of(moov), d, 0, 0);
    lemma_fresh(start, items);
    if moov.udta is Some {
        let u = moov.udta->0;
        let ub = u.bounds;
        let usize = grown(ub, d);
        assert(updates_of(moov)[1] == ub);
        lemma_grown(updates_of(moov), d, 0, 1);
        lemma_moov_origin(f, p, b.size);
        lemma_edited_udta(f, moov, items);
        lemma_edited_around(f, moov, items, 1, p, b.spec_end());
        lemma_moov_again(f, g, p, 0, b.size, size, usize);
    } else {
        assert(g.subrange(p, start) =~= f.subrange(p, start));
        lemma_moov_append(f, g, p, b.size, size, items);
    }
}

/// The file type atom is read alike from two files that are the same up to
/// a position behind it.
pub proof fn lemma_ftyp_prefix(f: Seq<u8>, g: Seq<u8>, q: int)
    requires
        ftyp_at(f, 0) is Ok,
        ftyp_at(f, 0)->Ok_0.1 <= q,
        q <= f.len(),
        q <= g.len(),
        f.subrange(0, q) == g.subrange(0, q),
    ensures
        ftyp_at(g, 0) == ftyp_at(f, 0),
{
    crate::again::lemma_top_at_prefix(f, g, 0, q);
}

/// The movie atom of a file is the one that is found in the edited file,
/// where it lies in the file, and in it the walk from the top of the edited
/// file finds the item list of the items.
#[verifier::spinoff_prover]
#[verifier::rlimit(60)]
pub proof fn lemma_edited_file(f: Seq<u8>, items: Seq<MetaItemView>)
    requires
        ftyp_at(f, 0) is Ok,
        swept(f, ftyp_at(f, 0)->Ok_0.1, SweepView { moov: None, mdat: None }) is Ok,
        found_in(f).moov is Some,
        editable(f, found_in(f).moov->0, items),
    ensures
        ({
            let moov = found_in(f).moov->0;
            let g = edited(f, moov, items);
            &&& ftyp_at(g, 0) == ftyp_at(f, 0)
            &&& swept(g, ftyp_at(f, 0)->Ok_0.1, SweepView { moov: None, mdat: None }) is Ok
            &&& found_in(g).moov is Some
            &&& carried_moov(found_in(g).moov->0, ilst_pos(moov, items), items)
            &&& fits_head(found_in(g).moov->0.bounds.size)
            &&& written_at(g, ilst_pos(moov, items), items)
        }),
{
    let moov = found_in(f).moov->0;
    let g = edited(f, moov, items);
    let d = growth(moov, items);
    let t = ftyp_at(f, 0)->Ok_0.1;
    let init = SweepView { moov: None, mdat: None };
    let b = moov.bounds;
    let size = grown(b, d);
    let start = new_atoms_start_of(moov);
    let new = new_atoms_of(moov, items);
    assert(updates_of(moov)[0] == b);
    lemma_grown(updates_of(moov), d, 0, 0);
    lemma_sweep_target_pos(f, t, init);
    lemma_edited_moov(f, moov, items);
    let found = Moov::found(g, b.spec_content_pos(), 0, size)->Ok_0;
    lemma_edited_around(f, moov, items, 0, 0, f.len() as int);
    lemma_sweep_walk_again(f, g, t, init, init, size, found);
    lemma_ftyp_prefix(f, g, b.pos as int);
}

/// A file in which the item list of the items is found, behind a handler
/// reference, can be given the items, and the atoms that are written for
/// them are the bytes that they take the place of.
pub proof fn lemma_planned_again(g: Seq<u8>, ipos: int, items: Seq<MetaItemView>)
    requires
        ftyp_at(g, 0) is Ok,
        swept(g, ftyp_at(g, 0)->Ok_0.1, SweepView { moov: None, mdat: None }) is Ok,
        found_in(g).moov is Some,
        carried_moov(found_in(g).moov->0, ipos, items),
        fits_head(found_in(g).moov->0.bounds.size),
        written_at(g, ipos, items),
        items_bytes(items).len() <= MAX_ITEMS_LEN,
    ensures
        planned(g, items) is Ok,
        new_atoms_of(found_in(g).moov->0, items) == g.subrange(
            new_atoms_start_of(found_in(g).moov->0),
            moved_data_start_of(found_in(g).moov->0),
        ),
{
    reveal(planned);
    reveal(plan_for);
    reveal_with_fuel(size_patches, 4);
    let moov = found_in(g).moov->0;
    assert(growth(moov, items) == 0);
}

} // verus!
