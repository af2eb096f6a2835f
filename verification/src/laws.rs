//! What holds of a rewritten file, whatever the file and the items.

use crate::atom::co64::{lemma_table64_len, Co64, Co64Bounds};
use crate::atom::ftyp::ftyp_at;
use crate::atom::metaitem::MetaItemView;
use crate::atom::moov::MoovBoundsView;
use crate::atom::co64::table64;
use crate::atom::stco::{lemma_table32_len, table32, Stco, StcoBounds};
use crate::atom::trak::TrakBounds;
use crate::codec::{lemma_be_u32_of_bytes, lemma_bytes_of_be_u32, lemma_bytes_of_be_u64};
use crate::error::ErrorView;
use crate::head::AtomBounds;
use crate::reader::{at32, at64};
use crate::rewrite::{co64_patch, lemma_swept_inside, mdat_pos_of, moved_data_start_of};
use crate::rewrite::{new_atoms_of, new_atoms_start_of, overwritten, patched};
use crate::rewrite::{plan_for, planned, rewritten, shift32, shift64, shifted32, shifted64};
use crate::rewrite::size_patch;
use crate::rewrite::{size_patches, stbl_of, stco_patch, swept, table_patches};
use crate::rewrite::{trak_patches, updates_of, PatchView, SweepView};
use crate::again::edit::plain_len;
use crate::again::lemma_subrange_twice;
use crate::again::offsets::{lemma_planned_read, lemma_retabled_edited, lemma_retabled_found};
use crate::again::offsets::retabled;
use crate::again::whole::{editable, ilst_pos, lemma_edited_file, lemma_planned_again};
use vstd::prelude::*;

verus! {

/// The movie atom and the media data atom that are found in the file `f`,
/// where it opens with a file type atom of a supported brand.
pub open spec fn found_in(f: Seq<u8>) -> SweepView {
    swept(f, ftyp_at(f, 0)->Ok_0.1, SweepView { moov: None, mdat: None })->Ok_0
}

/// The patch lies between the positions `lo` and `hi`.
pub open spec fn within(p: PatchView, lo: int, hi: int) -> bool {
    lo <= p.pos && p.pos + p.bytes.len() <= hi
}

/// All patches lie between the positions `lo` and `hi`.
pub open spec fn all_within(ps: Seq<PatchView>, lo: int, hi: int) -> bool {
    forall|i: int| 0 <= i < ps.len() ==> within(#[trigger] ps[i], lo, hi)
}

/// Patches that lie inside a file leave its length as it is, and they leave
/// every byte as it is that lies in none of them.
pub proof fn lemma_patched_outside(f: Seq<u8>, ps: Seq<PatchView>, lo: int, hi: int)
    requires
        0 <= lo,
        hi <= f.len(),
        all_within(ps, lo, hi),
    ensures
        patched(f, ps).len() == f.len(),
        forall|j: int| 0 <= j < lo ==> patched(f, ps)[j] == f[j],
        forall|j: int| hi <= j < f.len() ==> patched(f, ps)[j] == f[j],
    decreases ps.len(),
{
    if ps.len() > 0 {
        let init = ps.drop_last();
        assert forall|i: int| 0 <= i < init.len() implies within(#[trigger] init[i], lo, hi) by {
            assert(init[i] == ps[i]);
        }
        lemma_patched_outside(f, init, lo, hi);
        assert(within(ps[ps.len() - 1], lo, hi));
    }
}

/// What is written over the head of an atom lies in the head.
pub proof fn lemma_size_patch_within(a: AtomBounds, d: int)
    requires
        a.wf(),
        size_patch(a, d) is Ok,
    ensures
        all_within(size_patch(a, d)->Ok_0, a.pos as int, a.spec_content_pos()),
{
    lemma_be_u32_of_bytes(1);
}

/// What is written over the heads of atoms that lie between `lo` and `hi`
/// lies between `lo` and `hi`.
pub proof fn lemma_size_patches_within(
    updates: Seq<AtomBounds>,
    d: int,
    from: int,
    lo: int,
    hi: int,
)
    requires
        0 <= from,
        forall|i: int|
            0 <= i < updates.len() ==> (#[trigger] updates[i]).wf() && lo <= updates[i].pos
                && updates[i].spec_end() <= hi,
        size_patches(updates, d, from) is Ok,
    ensures
        all_within(size_patches(updates, d, from)->Ok_0, lo, hi),
    decreases updates.len() - from,
{
    if from < updates.len() {
        lemma_size_patch_within(updates[from], d);
        lemma_size_patches_within(updates, d, from + 1, lo, hi);
        let here = size_patch(updates[from], d)->Ok_0;
        let rest = size_patches(updates, d, from + 1)->Ok_0;
        assert(updates[from].wf());
        assert forall|i: int| 0 <= i < (here + rest).len() implies within(
            #[trigger] (here + rest)[i],
            lo,
            hi,
        ) by {
            if i < here.len() {
                assert(within(here[i], updates[from].pos as int, updates[from].spec_content_pos()));
            } else {
                assert(within(rest[i - here.len()], lo, hi));
            }
        }
    }
}

/// What is written over the table of a chunk offset atom is the content of
/// the atom behind its first eight bytes.
pub proof fn lemma_stco_patch_within(f: Seq<u8>, b: StcoBounds, d: int)
    requires
        b.bounds.anchored(f),
        stco_patch(f, b, d) is Ok,
    ensures
        stco_patch(f, b, d)->Ok_0.pos == b.bounds.spec_content_pos() + 8,
        stco_patch(f, b, d)->Ok_0.pos + stco_patch(f, b, d)->Ok_0.bytes.len()
            == b.bounds.spec_end(),
{
    reveal(Stco::parsed);
    let v = Stco::parsed(f, b.bounds.spec_content_pos(), 0, b.bounds.size)->Ok_0;
    lemma_table32_len(shift32(v.offsets, d));
}

/// What is written over the table of a 64 bit chunk offset atom is the
/// content of the atom behind its first eight bytes.
pub proof fn lemma_co64_patch_within(f: Seq<u8>, b: Co64Bounds, d: int)
    requires
        b.bounds.anchored(f),
        co64_patch(f, b, d) is Ok,
    ensures
        co64_patch(f, b, d)->Ok_0.pos == b.bounds.spec_content_pos() + 8,
        co64_patch(f, b, d)->Ok_0.pos + co64_patch(f, b, d)->Ok_0.bytes.len()
            == b.bounds.spec_end(),
{
    reveal(Co64::parsed);
    let v = Co64::parsed(f, b.bounds.spec_content_pos(), 0, b.bounds.size)->Ok_0;
    lemma_table64_len(shift64(v.offsets, d));
}

/// What is written over the chunk offsets of a track lies in the track.
pub proof fn lemma_trak_patches_within(f: Seq<u8>, t: TrakBounds, d: int)
    requires
        t.nested(f),
        trak_patches(f, t, d) is Ok,
    ensures
        all_within(trak_patches(f, t, d)->Ok_0, t.bounds.spec_content_pos(), t.bounds.spec_end()),
{
    match stbl_of(t) {
        None => {},
        Some(stbl) => {
            if stbl.stco is Some {
                lemma_stco_patch_within(f, stbl.stco->0, d);
            }
            if stbl.co64 is Some {
                lemma_co64_patch_within(f, stbl.co64->0, d);
            }
        },
    }
}

/// What is written over the chunk offsets of tracks that lie between `lo`
/// and `hi` lies between `lo` and `hi`.
pub proof fn lemma_table_patches_within(
    f: Seq<u8>,
    traks: Seq<TrakBounds>,
    d: int,
    from: int,
    lo: int,
    hi: int,
)
    requires
        0 <= from,
        forall|i: int|
            0 <= i < traks.len() ==> (#[trigger] traks[i]).nested(f) && lo <= traks[i].bounds.pos
                && traks[i].bounds.spec_end() <= hi,
        table_patches(f, traks, d, from) is Ok,
    ensures
        all_within(table_patches(f, traks, d, from)->Ok_0, lo, hi),
    decreases traks.len() - from,
{
    if from < traks.len() {
        lemma_trak_patches_within(f, traks[from], d);
        lemma_table_patches_within(f, traks, d, from + 1, lo, hi);
        let here = trak_patches(f, traks[from], d)->Ok_0;
        let rest = table_patches(f, traks, d, from + 1)->Ok_0;
        assert(traks[from].nested(f));
        assert forall|i: int| 0 <= i < (here + rest).len() implies within(
            #[trigger] (here + rest)[i],
            lo,
            hi,
        ) by {
            if i < here.len() {
                assert(within(
                    here[i],
                    traks[from].bounds.spec_content_pos(),
                    traks[from].bounds.spec_end(),
                ));
            } else {
                assert(within(rest[i - here.len()], lo, hi));
            }
        }
    }
}

/// What a plan writes over bytes of the file lies in the movie atom, and
/// the new atoms are written inside the movie atom or at its end.
pub proof fn lemma_plan_within(f: Seq<u8>, s: SweepView, items: Seq<MetaItemView>)
    requires
        s.moov is Some,
        s.moov->0.nested(f),
        plan_for(f, s, items) is Ok,
    ensures
        ({
            let plan = plan_for(f, s, items)->Ok_0;
            let m = s.moov->0.bounds;
            &&& all_within(plan.patches, m.pos as int, m.spec_end())
            &&& m.spec_content_pos() <= plan.new_atoms_start <= plan.moved_data_start
                <= m.spec_end()
            &&& m.spec_end() <= f.len()
        }),
{
    reveal(plan_for);
    let moov = s.moov->0;
    let m = moov.bounds;
    let start = new_atoms_start_of(moov);
    let moved = moved_data_start_of(moov);
    let atoms = new_atoms_of(moov, items);
    let d = atoms.len() - (moved - start);
    let tables = if mdat_pos_of(s) > m.pos && d != 0 {
        table_patches(f, moov.trak, d, 0)->Ok_0
    } else {
        Seq::empty()
    };
    if mdat_pos_of(s) > m.pos && d != 0 {
        lemma_table_patches_within(f, moov.trak, d, 0, m.pos as int, m.spec_end());
    }
    let updates = updates_of(moov);
    lemma_size_patches_within(updates, d, 0, m.pos as int, m.spec_end());
    let sizes = size_patches(updates, d, 0)->Ok_0;
    assert forall|i: int| 0 <= i < (tables + sizes).len() implies within(
        #[trigger] (tables + sizes)[i],
        m.pos as int,
        m.spec_end(),
    ) by {
        if i < tables.len() {
            assert(within(tables[i], m.pos as int, m.spec_end()));
        } else {
            assert(within(sizes[i - tables.len()], m.pos as int, m.spec_end()));
        }
    }
}

/// The tables that a plan writes over: the chunk offsets of the tracks,
/// where the media data lies behind the movie atom and the length of the
/// metadata changes.
pub open spec fn tables_of(f: Seq<u8>, s: SweepView, d: int) -> Seq<PatchView> {
    if mdat_pos_of(s) > s.moov->0.bounds.pos && d != 0 {
        table_patches(f, s.moov->0.trak, d, 0)->Ok_0
    } else {
        Seq::empty()
    }
}

/// What a plan is made of, where there is one: the movie atom was found and
/// what was found in it fits the file, and the plan writes over the chunk
/// offsets and then over the heads of the atoms around the metadata.
pub proof fn lemma_plan_shape(f: Seq<u8>, items: Seq<MetaItemView>)
    requires
        f.len() <= u64::MAX,
        planned(f, items) is Ok,
    ensures
        ({
            let s = found_in(f);
            let moov = s.moov->0;
            let plan = planned(f, items)->Ok_0;
            let d = plan.len_diff();
            &&& s.moov is Some
            &&& moov.nested(f)
            &&& plan.new_atoms_start == new_atoms_start_of(moov)
            &&& plan.moved_data_start == moved_data_start_of(moov)
            &&& plan.new_atoms == new_atoms_of(moov, items)
            &&& size_patches(updates_of(moov), d, 0) is Ok
            &&& mdat_pos_of(s) > moov.bounds.pos && d != 0
                ==> table_patches(f, moov.trak, d, 0) is Ok
            &&& plan.patches == tables_of(f, s, d) + size_patches(updates_of(moov), d, 0)->Ok_0
            &&& all_within(plan.patches, moov.bounds.pos as int, moov.bounds.spec_end())
            &&& moov.bounds.spec_content_pos() <= plan.new_atoms_start <= plan.moved_data_start
                <= moov.bounds.spec_end() <= f.len()
        }),
{
    reveal(planned);
    reveal(plan_for);
    let s = found_in(f);
    lemma_swept_inside(f, ftyp_at(f, 0)->Ok_0.1, SweepView { moov: None, mdat: None });
    lemma_plan_within(f, s, items);
}

/// Writing a tag keeps what lies outside of the movie atom: the bytes before
/// it stay where they are, and the bytes behind it, those of atoms that the
/// library does not know among them, move by as much as the file grows.
pub proof fn lemma_rewrite_keeps_outside(f: Seq<u8>, items: Seq<MetaItemView>)
    requires
        f.len() <= u64::MAX,
        rewritten(f, items) is Ok,
    ensures
        ({
            let g = rewritten(f, items)->Ok_0;
            let m = found_in(f).moov->0.bounds;
            let d = planned(f, items)->Ok_0.len_diff();
            &&& g.len() == f.len() + d
            &&& forall|j: int| 0 <= j < m.pos ==> g[j] == f[j]
            &&& forall|j: int| m.spec_end() <= j < f.len() ==> g[j + d] == f[j]
        }),
{
    lemma_plan_shape(f, items);
    let s = found_in(f);
    let plan = planned(f, items)->Ok_0;
    let m = s.moov->0.bounds;
    lemma_patched_outside(f, plan.patches, m.pos as int, m.spec_end());
}

/// Patches applied one list after another are the two lists applied as
/// one.
pub proof fn lemma_patched_concat(f: Seq<u8>, a: Seq<PatchView>, b: Seq<PatchView>)
    ensures
        patched(f, a + b) == patched(patched(f, a), b),
    decreases b.len(),
{
    if b.len() == 0 {
        assert(a + b =~= a);
    } else {
        assert((a + b).drop_last() =~= a + b.drop_last());
        assert((a + b).last() == b.last());
        lemma_patched_concat(f, a, b.drop_last());
    }
}

/// The patch writes what the file holds already.
pub open spec fn idle(f: Seq<u8>, p: PatchView) -> bool {
    &&& 0 <= p.pos
    &&& p.pos + p.bytes.len() <= f.len()
    &&& f.subrange(p.pos, p.pos + p.bytes.len()) == p.bytes
}

/// Patches that write what the file holds already leave the file as it is.
pub proof fn lemma_patched_idle(f: Seq<u8>, ps: Seq<PatchView>)
    requires
        forall|i: int| 0 <= i < ps.len() ==> idle(f, #[trigger] ps[i]),
    ensures
        patched(f, ps) == f,
    decreases ps.len(),
{
    if ps.len() > 0 {
        let init = ps.drop_last();
        assert forall|i: int| 0 <= i < init.len() implies idle(f, #[trigger] init[i]) by {
            assert(init[i] == ps[i]);
        }
        lemma_patched_idle(f, init);
        let p = ps.last();
        assert(idle(f, ps[ps.len() - 1]));
        assert(overwritten(f, p.pos, p.bytes) =~= f) by {
            let g = overwritten(f, p.pos, p.bytes);
            assert forall|j: int| 0 <= j < f.len() implies g[j] == f[j] by {
                if p.pos <= j < p.pos + p.bytes.len() {
                    assert(f.subrange(p.pos, p.pos + p.bytes.len())[j - p.pos] == f[j]);
                }
            }
        }
    }
}

/// Where the length of an atom of the file does not change, what is written
/// over its head is what the head holds already.
pub proof fn lemma_size_patch_idle(f: Seq<u8>, a: AtomBounds)
    requires
        a.anchored(f),
        size_patch(a, 0) is Ok,
    ensures
        forall|i: int| 0 <= i < size_patch(a, 0)->Ok_0.len() ==> idle(
            f,
            #[trigger] size_patch(a, 0)->Ok_0[i],
        ),
{
    reveal(AtomBounds::headed);
    let ps = size_patch(a, 0)->Ok_0;
    lemma_bytes_of_be_u32(f.subrange(a.pos as int, a.pos + 4));
    lemma_be_u32_of_bytes(1);
    if a.size.ext {
        lemma_bytes_of_be_u64(f.subrange(a.pos + 8, a.pos + 16));
        assert(idle(f, ps[0]));
        assert(idle(f, ps[1]));
    } else {
        lemma_be_u32_of_bytes(a.size.len as u32);
        assert(idle(f, ps[0]));
    }
}

/// Where the lengths of atoms of the file do not change, what is written
/// over their heads is what the heads hold already.
pub proof fn lemma_size_patches_idle(f: Seq<u8>, updates: Seq<AtomBounds>, from: int)
    requires
        0 <= from,
        forall|i: int| 0 <= i < updates.len() ==> (#[trigger] updates[i]).anchored(f),
        size_patches(updates, 0, from) is Ok,
    ensures
        forall|i: int| 0 <= i < size_patches(updates, 0, from)->Ok_0.len() ==> idle(
            f,
            #[trigger] size_patches(updates, 0, from)->Ok_0[i],
        ),
    decreases updates.len() - from,
{
    if from < updates.len() {
        assert(updates[from].anchored(f));
        lemma_size_patch_idle(f, updates[from]);
        lemma_size_patches_idle(f, updates, from + 1);
        let here = size_patch(updates[from], 0)->Ok_0;
        let rest = size_patches(updates, 0, from + 1)->Ok_0;
        assert forall|i: int| 0 <= i < (here + rest).len() implies idle(
            f,
            #[trigger] (here + rest)[i],
        ) by {
            if i < here.len() {
                assert(idle(f, here[i]));
            } else {
                assert(idle(f, rest[i - here.len()]));
            }
        }
    }
}

/// Writing to a file the metadata that it holds already leaves the file as
/// it is: where the atoms that are written for the items are the bytes that
/// they take the place of, the rewritten file is the file.
pub proof fn lemma_rewrite_identity(f: Seq<u8>, items: Seq<MetaItemView>)
    requires
        f.len() <= u64::MAX,
        rewritten(f, items) is Ok,
        new_atoms_of(found_in(f).moov->0, items) == f.subrange(
            new_atoms_start_of(found_in(f).moov->0),
            moved_data_start_of(found_in(f).moov->0),
        ),
    ensures
        rewritten(f, items) == Ok::<Seq<u8>, ErrorView>(f),
{
    lemma_plan_shape(f, items);
    let s = found_in(f);
    let moov = s.moov->0;
    let plan = planned(f, items)->Ok_0;
    let updates = updates_of(moov);
    assert(plan.len_diff() == 0);
    lemma_size_patches_idle(f, updates, 0);
    let sizes = size_patches(updates, 0, 0)->Ok_0;
    assert(plan.patches =~= sizes);
    lemma_patched_idle(f, plan.patches);
    assert(plan.applied(f) =~= f);
}

/// The patch touches no byte between the positions `lo` and `hi`.
pub open spec fn misses(p: PatchView, lo: int, hi: int) -> bool {
    p.pos + p.bytes.len() <= lo || hi <= p.pos
}

/// No patch touches a byte between the positions `lo` and `hi`, and all lie
/// inside a file of `len` bytes.
pub open spec fn all_miss(ps: Seq<PatchView>, lo: int, hi: int, len: int) -> bool {
    forall|i: int|
        0 <= i < ps.len() ==> misses(#[trigger] ps[i], lo, hi) && 0 <= ps[i].pos && ps[i].pos
            + ps[i].bytes.len() <= len
}

/// Patches leave the bytes as they are that none of them touches.
pub proof fn lemma_patched_misses(f: Seq<u8>, ps: Seq<PatchView>, lo: int, hi: int)
    requires
        0 <= lo <= hi <= f.len(),
        all_miss(ps, lo, hi, f.len() as int),
    ensures
        patched(f, ps).len() == f.len(),
        patched(f, ps).subrange(lo, hi) == f.subrange(lo, hi),
    decreases ps.len(),
{
    if ps.len() > 0 {
        let init = ps.drop_last();
        assert forall|i: int| 0 <= i < init.len() implies misses(#[trigger] init[i], lo, hi) && 0
            <= init[i].pos && init[i].pos + init[i].bytes.len() <= f.len() by {
            assert(init[i] == ps[i]);
        }
        lemma_patched_misses(f, init, lo, hi);
        let p = ps[ps.len() - 1];
        assert(misses(p, lo, hi));
        let before = patched(f, init);
        let after = overwritten(before, p.pos, p.bytes);
        assert(after.subrange(lo, hi) =~= before.subrange(lo, hi));
    } else {
    }
}

/// The two lists of patches, one after the other.
pub proof fn lemma_all_miss_concat(
    a: Seq<PatchView>,
    b: Seq<PatchView>,
    lo: int,
    hi: int,
    len: int,
)
    requires
        all_miss(a, lo, hi, len),
        all_miss(b, lo, hi, len),
    ensures
        all_miss(a + b, lo, hi, len),
{
    assert forall|i: int| 0 <= i < (a + b).len() implies misses(#[trigger] (a + b)[i], lo, hi) && 0
        <= (a + b)[i].pos && (a + b)[i].pos + (a + b)[i].bytes.len() <= len by {
        if i < a.len() {
            assert(misses(a[i], lo, hi));
        } else {
            assert(misses(b[i - a.len()], lo, hi));
        }
    }
}

/// What is written over the chunk offsets of a track touches nothing that
/// lies apart from the track.
pub proof fn lemma_trak_patches_miss(f: Seq<u8>, t: TrakBounds, d: int, lo: int, hi: int)
    requires
        t.nested(f),
        trak_patches(f, t, d) is Ok,
        t.bounds.spec_end() <= lo || hi <= t.bounds.pos,
    ensures
        all_miss(trak_patches(f, t, d)->Ok_0, lo, hi, f.len() as int),
{
    lemma_trak_patches_within(f, t, d);
    let ps = trak_patches(f, t, d)->Ok_0;
    assert forall|i: int| 0 <= i < ps.len() implies misses(#[trigger] ps[i], lo, hi) && 0
        <= ps[i].pos && ps[i].pos + ps[i].bytes.len() <= f.len() by {
        assert(within(ps[i], t.bounds.spec_content_pos(), t.bounds.spec_end()));
    }
}

/// What is written over the chunk offsets of the tracks from the one at
/// `from` on touches nothing that lies apart from these tracks.
pub proof fn lemma_table_patches_miss(
    f: Seq<u8>,
    traks: Seq<TrakBounds>,
    d: int,
    from: int,
    lo: int,
    hi: int,
)
    requires
        0 <= from,
        forall|i: int|
            from <= i < traks.len() ==> (#[trigger] traks[i]).nested(f) && (
            traks[i].bounds.spec_end() <= lo || hi <= traks[i].bounds.pos),
        table_patches(f, traks, d, from) is Ok,
    ensures
        all_miss(table_patches(f, traks, d, from)->Ok_0, lo, hi, f.len() as int),
    decreases traks.len() - from,
{
    if from < traks.len() {
        assert(traks[from].nested(f));
        lemma_trak_patches_miss(f, traks[from], d, lo, hi);
        lemma_table_patches_miss(f, traks, d, from + 1, lo, hi);
        lemma_all_miss_concat(
            trak_patches(f, traks[from], d)->Ok_0,
            table_patches(f, traks, d, from + 1)->Ok_0,
            lo,
            hi,
            f.len() as int,
        );
    }
}

/// What is written over the heads of atoms touches nothing that lies apart
/// from these heads.
pub proof fn lemma_size_patches_miss(
    updates: Seq<AtomBounds>,
    d: int,
    from: int,
    lo: int,
    hi: int,
    len: int,
)
    requires
        0 <= from,
        forall|i: int|
            0 <= i < updates.len() ==> (#[trigger] updates[i]).wf() && updates[i].spec_end() <= len
                && (updates[i].spec_content_pos() <= lo || hi <= updates[i].pos),
        size_patches(updates, d, from) is Ok,
    ensures
        all_miss(size_patches(updates, d, from)->Ok_0, lo, hi, len),
    decreases updates.len() - from,
{
    if from < updates.len() {
        let a = updates[from];
        assert(a.wf());
        lemma_size_patch_within(a, d);
        let here = size_patch(a, d)->Ok_0;
        assert forall|i: int| 0 <= i < here.len() implies misses(#[trigger] here[i], lo, hi) && 0
            <= here[i].pos && here[i].pos + here[i].bytes.len() <= len by {
            assert(within(here[i], a.pos as int, a.spec_content_pos()));
        }
        lemma_size_patches_miss(updates, d, from + 1, lo, hi, len);
        lemma_all_miss_concat(here, size_patches(updates, d, from + 1)->Ok_0, lo, hi, len);
    }
}

/// The tracks are atoms of the file that lie apart from one another.
pub open spec fn traks_apart(f: Seq<u8>, traks: Seq<TrakBounds>) -> bool {
    &&& forall|i: int| 0 <= i < traks.len() ==> (#[trigger] traks[i]).nested(f)
    &&& forall|i: int, j: int|
        0 <= i < j < traks.len() ==> (#[trigger] traks[i]).bounds.apart(
            (#[trigger] traks[j]).bounds,
        )
}

/// The chunk offset atom of a track is an atom of the file that lies in the
/// track, apart from the 64 bit chunk offset atom of the track.
pub proof fn lemma_stco_in_trak(f: Seq<u8>, t: TrakBounds)
    requires
        t.nested(f),
        stbl_of(t) is Some,
        stbl_of(t)->0.stco is Some,
    ensures
        ({
            let stbl = stbl_of(t)->0;
            let b = stbl.stco->0.bounds;
            &&& b.anchored(f)
            &&& t.bounds.spec_content_pos() <= b.pos
            &&& b.spec_end() <= t.bounds.spec_end()
            &&& t.bounds.spec_end() <= f.len()
            &&& stbl.co64 is Some ==> stbl.co64->0.bounds.anchored(f) && b.apart(
                stbl.co64->0.bounds,
            )
        }),
{
}

/// After a patch was written, the file holds its bytes where it was
/// written, and so it does after a second patch that does not touch them.
pub proof fn lemma_patched_pair(g: Seq<u8>, p: PatchView, q: PatchView)
    requires
        0 <= p.pos,
        p.pos + p.bytes.len() <= g.len(),
        0 <= q.pos,
        q.pos + q.bytes.len() <= g.len(),
        misses(q, p.pos, p.pos + p.bytes.len()),
    ensures
        patched(g, seq![p]).len() == g.len(),
        patched(g, seq![p]).subrange(p.pos, p.pos + p.bytes.len()) == p.bytes,
        patched(g, seq![p, q]).len() == g.len(),
        patched(g, seq![p, q]).subrange(p.pos, p.pos + p.bytes.len()) == p.bytes,
{
    reveal_with_fuel(patched, 3);
    let r0 = p.pos;
    let r1 = p.pos + p.bytes.len();
    let first = overwritten(g, p.pos, p.bytes);
    assert(first.subrange(r0, r1) =~= p.bytes);
    assert(seq![p].drop_last() =~= Seq::<PatchView>::empty());
    assert(patched(g, seq![p]) == first);
    assert(seq![p, q].drop_last() =~= seq![p]);
    let second = overwritten(first, q.pos, q.bytes);
    assert(patched(g, seq![p, q]) == second);
    assert(second.subrange(r0, r1) =~= first.subrange(r0, r1));
}

/// What is written over the chunk offsets of a track that has a chunk
/// offset atom: what is written over the table of that atom, and then what
/// is written over that of the 64 bit chunk offset atom, where the track
/// has one.
pub proof fn lemma_trak_patches_shape(f: Seq<u8>, t: TrakBounds, d: int)
    requires
        stbl_of(t) is Some,
        stbl_of(t)->0.stco is Some,
        trak_patches(f, t, d) is Ok,
    ensures
        stco_patch(f, stbl_of(t)->0.stco->0, d) is Ok,
        stbl_of(t)->0.co64 is Some ==> co64_patch(f, stbl_of(t)->0.co64->0, d) is Ok
            && trak_patches(f, t, d)->Ok_0 == seq![
            stco_patch(f, stbl_of(t)->0.stco->0, d)->Ok_0,
            co64_patch(f, stbl_of(t)->0.co64->0, d)->Ok_0,
        ],
        stbl_of(t)->0.co64 is None ==> trak_patches(f, t, d)->Ok_0 == seq![
            stco_patch(f, stbl_of(t)->0.stco->0, d)->Ok_0,
        ],
{
    let stbl = stbl_of(t)->0;
    let p = stco_patch(f, stbl.stco->0, d)->Ok_0;
    if stbl.co64 is Some {
        let q = co64_patch(f, stbl.co64->0, d)->Ok_0;
        assert(seq![p].push(q) =~= seq![p, q]);
    }
}

/// After the chunk offsets of a track were written over those of a file,
/// the table of its chunk offset atom holds what was to be written over it.
pub proof fn lemma_trak_patches_write(f: Seq<u8>, g: Seq<u8>, t: TrakBounds, d: int)
    requires
        t.nested(f),
        g.len() == f.len(),
        stbl_of(t) is Some,
        stbl_of(t)->0.stco is Some,
        trak_patches(f, t, d) is Ok,
    ensures
        ({
            let p = stco_patch(f, stbl_of(t)->0.stco->0, d)->Ok_0;
            let after = patched(g, trak_patches(f, t, d)->Ok_0);
            &&& stco_patch(f, stbl_of(t)->0.stco->0, d) is Ok
            &&& after.len() == f.len()
            &&& after.subrange(p.pos, p.pos + p.bytes.len()) == p.bytes
        }),
{
    let stbl = stbl_of(t)->0;
    let b = stbl.stco->0;
    lemma_stco_in_trak(f, t);
    lemma_trak_patches_shape(f, t, d);
    let p = stco_patch(f, b, d)->Ok_0;
    lemma_stco_patch_within(f, b, d);
    if stbl.co64 is Some {
        let q = co64_patch(f, stbl.co64->0, d)->Ok_0;
        lemma_co64_patch_within(f, stbl.co64->0, d);
        lemma_patched_pair(g, p, q);
    } else {
        lemma_patched_pair(g, p, PatchView { pos: p.pos + p.bytes.len(), bytes: Seq::empty() });
    }
}

/// After the chunk offsets of the tracks from the one at `from` on were
/// written over those of a file, the table of the chunk offset atom of the
/// track at `t` holds what was to be written over it: nothing else that is
/// written touches it.
pub proof fn lemma_table_patches_write(
    f: Seq<u8>,
    g: Seq<u8>,
    traks: Seq<TrakBounds>,
    d: int,
    from: int,
    t: int,
)
    requires
        0 <= from <= t < traks.len(),
        traks_apart(f, traks),
        g.len() == f.len(),
        stbl_of(traks[t]) is Some,
        stbl_of(traks[t])->0.stco is Some,
        table_patches(f, traks, d, from) is Ok,
    ensures
        ({
            let p = stco_patch(f, stbl_of(traks[t])->0.stco->0, d)->Ok_0;
            let after = patched(g, table_patches(f, traks, d, from)->Ok_0);
            &&& stco_patch(f, stbl_of(traks[t])->0.stco->0, d) is Ok
            &&& after.len() == f.len()
            &&& after.subrange(p.pos, p.pos + p.bytes.len()) == p.bytes
        }),
    decreases t - from,
{
    let b = stbl_of(traks[t])->0.stco->0;
    let lo = b.bounds.pos as int;
    let hi = b.bounds.spec_end();
    let here = trak_patches(f, traks[from], d)->Ok_0;
    let rest = table_patches(f, traks, d, from + 1)->Ok_0;
    assert(traks[t].nested(f));
    assert(traks[from].nested(f));
    lemma_stco_in_trak(f, traks[t]);
    lemma_patched_concat(g, here, rest);
    if from < t {
        assert(traks[from].bounds.apart(traks[t].bounds));
        lemma_trak_patches_miss(f, traks[from], d, lo, hi);
        lemma_patched_misses(g, here, lo, hi);
        lemma_table_patches_write(f, patched(g, here), traks, d, from + 1, t);
    } else {
        lemma_trak_patches_write(f, g, traks[t], d);
        let p = stco_patch(f, b, d)->Ok_0;
        lemma_stco_patch_within(f, b, d);
        let r0 = p.pos;
        let r1 = p.pos + p.bytes.len();
        let g1 = patched(g, here);
        assert forall|i: int| from + 1 <= i < traks.len() implies (#[trigger] traks[i]).nested(f)
            && (traks[i].bounds.spec_end() <= lo || hi <= traks[i].bounds.pos) by {
            assert(traks[t].bounds.apart(traks[i].bounds));
        }
        lemma_table_patches_miss(f, traks, d, from + 1, lo, hi);
        lemma_patched_misses(g1, rest, lo, hi);
        let after = patched(g1, rest);
        assert(after.subrange(r0, r1) =~= after.subrange(lo, hi).subrange(r0 - lo, r1 - lo));
        assert(g1.subrange(r0, r1) =~= g1.subrange(lo, hi).subrange(r0 - lo, r1 - lo));
    }
}

/// What is written over the heads of the atoms around the metadata touches
/// no chunk offset atom of a track.
pub proof fn lemma_sizes_miss_table(f: Seq<u8>, moov: MoovBoundsView, t: int, d: int)
    requires
        moov.nested(f),
        0 <= t < moov.trak.len(),
        stbl_of(moov.trak[t]) is Some,
        stbl_of(moov.trak[t])->0.stco is Some,
        size_patches(updates_of(moov), d, 0) is Ok,
    ensures
        all_miss(
            size_patches(updates_of(moov), d, 0)->Ok_0,
            stbl_of(moov.trak[t])->0.stco->0.bounds.pos as int,
            stbl_of(moov.trak[t])->0.stco->0.bounds.spec_end(),
            f.len() as int,
        ),
{
    let b = stbl_of(moov.trak[t])->0.stco->0;
    let lo = b.bounds.pos as int;
    let hi = b.bounds.spec_end();
    let tb = moov.trak[t].bounds;
    assert(moov.trak[t].nested(f));
    assert(moov.bounds.holds(tb));
    lemma_stco_in_trak(f, moov.trak[t]);
    let updates = updates_of(moov);
    assert forall|k: int| 0 <= k < updates.len() implies (#[trigger] updates[k]).wf()
        && updates[k].spec_end() <= f.len() && (updates[k].spec_content_pos() <= lo || hi
        <= updates[k].pos) by {
        if k >= 1 {
            assert(moov.udta is Some);
            assert(tb.apart(moov.udta->0.bounds));
        }
    }
    lemma_size_patches_miss(updates, d, 0, lo, hi, f.len() as int);
}

/// Before the place of the new atoms, and where the heads of the atoms
/// around the metadata do not lie, the rewritten file holds the bytes of the
/// file with the chunk offsets written over them.
pub proof fn lemma_rewrite_keeps_tables(f: Seq<u8>, items: Seq<MetaItemView>, lo: int, hi: int)
    requires
        f.len() <= u64::MAX,
        rewritten(f, items) is Ok,
        0 <= lo <= hi <= new_atoms_start_of(found_in(f).moov->0),
        all_miss(
            size_patches(
                updates_of(found_in(f).moov->0),
                planned(f, items)->Ok_0.len_diff(),
                0,
            )->Ok_0,
            lo,
            hi,
            f.len() as int,
        ),
    ensures
        ({
            let s = found_in(f);
            let d = planned(f, items)->Ok_0.len_diff();
            let g = rewritten(f, items)->Ok_0;
            let g1 = patched(f, tables_of(f, s, d));
            &&& g1.len() == f.len()
            &&& hi <= g.len()
            &&& g.subrange(lo, hi) == g1.subrange(lo, hi)
        }),
{
    let s = found_in(f);
    let moov = s.moov->0;
    let plan = planned(f, items)->Ok_0;
    let g = rewritten(f, items)->Ok_0;
    let d = plan.len_diff();
    lemma_plan_shape(f, items);
    let sizes = size_patches(updates_of(moov), d, 0)->Ok_0;
    let tables = tables_of(f, s, d);
    let before = patched(f, plan.patches);
    lemma_patched_outside(f, plan.patches, moov.bounds.pos as int, moov.bounds.spec_end());
    assert forall|k: int| 0 <= k < tables.len() implies within(
        #[trigger] tables[k],
        moov.bounds.pos as int,
        moov.bounds.spec_end(),
    ) by {
        assert(tables[k] == plan.patches[k]);
    }
    lemma_patched_outside(f, tables, moov.bounds.pos as int, moov.bounds.spec_end());
    let g1 = patched(f, tables);
    lemma_patched_concat(f, tables, sizes);
    lemma_patched_misses(g1, sizes, lo, hi);
    assert(g.subrange(lo, hi) =~= before.subrange(lo, hi));
}

/// Where a file holds, in the place of a chunk offset atom, the bytes
/// that stand there after the chunk offsets were written over those of the
/// file `f`, each offset of the table reads there as the offset of `f` moved
/// by `d`.
pub proof fn lemma_table_moved(
    f: Seq<u8>,
    g: Seq<u8>,
    traks: Seq<TrakBounds>,
    t: int,
    d: int,
    i: int,
)
    requires
        0 <= t < traks.len(),
        traks_apart(f, traks),
        stbl_of(traks[t]) is Some,
        stbl_of(traks[t])->0.stco is Some,
        table_patches(f, traks, d, 0) is Ok,
        offsets_of(f, stbl_of(traks[t])->0.stco->0) is Ok,
        0 <= i < offsets_of(f, stbl_of(traks[t])->0.stco->0)->Ok_0.offsets.len(),
        stbl_of(traks[t])->0.stco->0.bounds.spec_end() <= g.len(),
        g.subrange(
            stbl_of(traks[t])->0.stco->0.bounds.pos as int,
            stbl_of(traks[t])->0.stco->0.bounds.spec_end(),
        ) == patched(f, table_patches(f, traks, d, 0)->Ok_0).subrange(
            stbl_of(traks[t])->0.stco->0.bounds.pos as int,
            stbl_of(traks[t])->0.stco->0.bounds.spec_end(),
        ),
    ensures
        ({
            let v = offsets_of(f, stbl_of(traks[t])->0.stco->0)->Ok_0;
            at32(g, v.table_pos + 4 * i) == shifted32(v.offsets[i], d)
        }),
{
    let b = stbl_of(traks[t])->0.stco->0;
    let v = offsets_of(f, b)->Ok_0;
    let lo = b.bounds.pos as int;
    let hi = b.bounds.spec_end();
    let tp = v.table_pos as int;
    let n = v.offsets.len();
    let g1 = patched(f, table_patches(f, traks, d, 0)->Ok_0);
    assert(traks[t].nested(f));
    lemma_stco_in_trak(f, traks[t]);
    lemma_table_read(f, b, i);
    lemma_table_patches_write(f, f, traks, d, 0, t);
    lemma_stco_patch_within(f, b, d);
    lemma_subrange_twice(g, lo, hi, tp - lo, hi - lo);
    lemma_subrange_twice(g1, lo, hi, tp - lo, hi - lo);
    let want = shift32(v.offsets, d);
    lemma_table32_len(want);
    crate::atom::stco::lemma_table32(want, g, tp);
    assert(table32(g, tp, n)[i] == want[i]);
}

/// Where a file holds, in the place of a chunk offset atom of the file
/// `f`, the bytes of `f`, each offset of the table reads there as it does in
/// `f`.
pub proof fn lemma_table_kept(f: Seq<u8>, g: Seq<u8>, b: StcoBounds, i: int)
    requires
        b.bounds.anchored(f),
        offsets_of(f, b) is Ok,
        0 <= i < offsets_of(f, b)->Ok_0.offsets.len(),
        b.bounds.spec_end() <= g.len(),
        g.subrange(b.bounds.pos as int, b.bounds.spec_end()) == f.subrange(
            b.bounds.pos as int,
            b.bounds.spec_end(),
        ),
    ensures
        at32(g, offsets_of(f, b)->Ok_0.table_pos + 4 * i) == offsets_of(f, b)->Ok_0.offsets[i],
{
    let v = offsets_of(f, b)->Ok_0;
    let lo = b.bounds.pos as int;
    let hi = b.bounds.spec_end();
    let tp = v.table_pos as int;
    lemma_table_read(f, b, i);
    lemma_subrange_twice(g, lo, hi, tp + 4 * i - lo, tp + 4 * i + 4 - lo);
    lemma_subrange_twice(f, lo, hi, tp + 4 * i - lo, tp + 4 * i + 4 - lo);
}

/// The chunk offsets follow the media data. Where the table of a chunk
/// offset atom lies before the place of the new atoms, each of its offsets
/// is, in the rewritten file, the offset of the file moved by as much as the
/// file grows, as far as 32 bits can say it, where the media data lies
/// behind the movie atom; else it is the offset of the file.
#[verifier::spinoff_prover]
pub proof fn lemma_rewrite_moves_offsets(f: Seq<u8>, items: Seq<MetaItemView>, t: int, i: int)
    requires
        f.len() <= u64::MAX,
        rewritten(f, items) is Ok,
        0 <= t < found_in(f).moov->0.trak.len(),
        stbl_of(found_in(f).moov->0.trak[t]) is Some,
        stbl_of(found_in(f).moov->0.trak[t])->0.stco is Some,
        stbl_of(found_in(f).moov->0.trak[t])->0.stco->0.bounds.spec_end() <= new_atoms_start_of(
            found_in(f).moov->0,
        ),
        offsets_of(f, stbl_of(found_in(f).moov->0.trak[t])->0.stco->0) is Ok,
        0 <= i < offsets_of(f, stbl_of(found_in(f).moov->0.trak[t])->0.stco->0)->Ok_0.offsets.len(),
    ensures
        ({
            let s = found_in(f);
            let v = offsets_of(f, stbl_of(s.moov->0.trak[t])->0.stco->0)->Ok_0;
            let g = rewritten(f, items)->Ok_0;
            let d = planned(f, items)->Ok_0.len_diff();
            at32(g, v.table_pos + 4 * i) == (if mdat_pos_of(s) > s.moov->0.bounds.pos {
                shifted32(v.offsets[i], d)
            } else {
                v.offsets[i]
            })
        }),
{
    let s = found_in(f);
    let moov = s.moov->0;
    let b = stbl_of(moov.trak[t])->0.stco->0;
    let v = offsets_of(f, b)->Ok_0;
    let plan = planned(f, items)->Ok_0;
    let g = rewritten(f, items)->Ok_0;
    let d = plan.len_diff();
    lemma_plan_shape(f, items);
    assert(moov.trak[t].nested(f));
    lemma_stco_in_trak(f, moov.trak[t]);
    lemma_sizes_miss_table(f, moov, t, d);
    lemma_table_read(f, b, i);
    let lo = b.bounds.pos as int;
    let hi = b.bounds.spec_end();
    let tp = v.table_pos as int;
    let n = v.offsets.len();
    lemma_rewrite_keeps_tables(f, items, lo, hi);
    if mdat_pos_of(s) > moov.bounds.pos && d != 0 {
        assert(traks_apart(f, moov.trak));
        lemma_table_moved(f, g, moov.trak, t, d, i);
    } else {
        lemma_table_kept(f, g, b, i);
    }
}

/// The offsets that are read from a chunk offset atom of the file are the
/// numbers that stand in its table, which fills the atom behind the first
/// eight bytes of its content.
pub proof fn lemma_table_read(f: Seq<u8>, b: StcoBounds, i: int)
    requires
        b.bounds.anchored(f),
        offsets_of(f, b) is Ok,
        0 <= i < offsets_of(f, b)->Ok_0.offsets.len(),
    ensures
        ({
            let v = offsets_of(f, b)->Ok_0;
            &&& v.table_pos == b.bounds.spec_content_pos() + 8
            &&& v.table_pos + 4 * v.offsets.len() == b.bounds.spec_end()
            &&& v.offsets[i] == at32(f, v.table_pos + 4 * i)
        }),
{
    reveal(Stco::parsed);
    let cp = b.bounds.spec_content_pos();
    let c = f.subrange(cp, b.bounds.spec_end());
    assert(c.subrange(8 + 4 * i, 8 + 4 * i + 4) =~= f.subrange(cp + 8 + 4 * i, cp + 8 + 4 * i + 4));
}

/// What reading the chunk offset atom gives that lies at `b` in the file
/// `f`.
pub open spec fn offsets_of(f: Seq<u8>, b: StcoBounds) -> Result<
    crate::atom::stco::StcoView,
    ErrorView,
> {
    Stco::parsed(f, b.bounds.spec_content_pos(), 0, b.bounds.size)
}

/// Writing a tag keeps the samples: the bytes to which a chunk offset
/// points in the rewritten file are the bytes to which it pointed in the
/// file. This holds of a chunk behind the movie atom where the media data
/// lies behind it and the moved offset fits 32 bits, and of a chunk before
/// the movie atom where the media data lies before it; in both cases of a
/// table that lies before the place of the new atoms.
pub proof fn lemma_rewrite_keeps_chunks(
    f: Seq<u8>,
    items: Seq<MetaItemView>,
    t: int,
    i: int,
    k: int,
)
    requires
        f.len() <= u64::MAX,
        rewritten(f, items) is Ok,
        0 <= t < found_in(f).moov->0.trak.len(),
        stbl_of(found_in(f).moov->0.trak[t]) is Some,
        stbl_of(found_in(f).moov->0.trak[t])->0.stco is Some,
        stbl_of(found_in(f).moov->0.trak[t])->0.stco->0.bounds.spec_end() <= new_atoms_start_of(
            found_in(f).moov->0,
        ),
        offsets_of(f, stbl_of(found_in(f).moov->0.trak[t])->0.stco->0) is Ok,
        0 <= i < offsets_of(f, stbl_of(found_in(f).moov->0.trak[t])->0.stco->0)->Ok_0.offsets.len(),
        0 <= k,
        ({
            let s = found_in(f);
            let m = s.moov->0.bounds;
            let o = offsets_of(f, stbl_of(s.moov->0.trak[t])->0.stco->0)->Ok_0.offsets[i];
            let d = planned(f, items)->Ok_0.len_diff();
            if mdat_pos_of(s) > m.pos {
                m.spec_end() <= o && o + k < f.len() && o + d <= u32::MAX
            } else {
                o + k < m.pos
            }
        }),
    ensures
        ({
            let s = found_in(f);
            let v = offsets_of(f, stbl_of(s.moov->0.trak[t])->0.stco->0)->Ok_0;
            let g = rewritten(f, items)->Ok_0;
            g[at32(g, v.table_pos + 4 * i) + k] == f[v.offsets[i] + k]
        }),
{
    lemma_rewrite_moves_offsets(f, items, t, i);
    lemma_rewrite_keeps_outside(f, items);
    lemma_plan_shape(f, items);
}

/// The 64 bit chunk offset atom of a track is an atom of the file that lies in the
/// track, apart from the chunk offset atom of 32 bits of the track.
pub proof fn lemma_co64_in_trak(f: Seq<u8>, t: TrakBounds)
    requires
        t.nested(f),
        stbl_of(t) is Some,
        stbl_of(t)->0.co64 is Some,
    ensures
        ({
            let stbl = stbl_of(t)->0;
            let b = stbl.co64->0.bounds;
            &&& b.anchored(f)
            &&& t.bounds.spec_content_pos() <= b.pos
            &&& b.spec_end() <= t.bounds.spec_end()
            &&& t.bounds.spec_end() <= f.len()
            &&& stbl.stco is Some ==> stbl.stco->0.bounds.anchored(f) && b.apart(
                stbl.stco->0.bounds,
            )
        }),
{
}

/// After patches that lie inside a file were written, and then one more,
/// the file holds the bytes of the last where it was written.
pub proof fn lemma_patched_last(g: Seq<u8>, ps: Seq<PatchView>, q: PatchView)
    requires
        all_within(ps, 0, g.len() as int),
        0 <= q.pos,
        q.pos + q.bytes.len() <= g.len(),
    ensures
        patched(g, ps.push(q)).len() == g.len(),
        patched(g, ps.push(q)).subrange(q.pos, q.pos + q.bytes.len()) == q.bytes,
{
    lemma_patched_outside(g, ps, 0, g.len() as int);
    assert(ps.push(q).drop_last() =~= ps);
    let before = patched(g, ps);
    let after = overwritten(before, q.pos, q.bytes);
    assert(after.subrange(q.pos, q.pos + q.bytes.len()) =~= q.bytes);
}

/// After the chunk offsets of a track were written over those of a file,
/// the table of its 64 bit chunk offset atom holds what was to be written
/// over it.
pub proof fn lemma_trak_patches_write64(f: Seq<u8>, g: Seq<u8>, t: TrakBounds, d: int)
    requires
        t.nested(f),
        g.len() == f.len(),
        stbl_of(t) is Some,
        stbl_of(t)->0.co64 is Some,
        trak_patches(f, t, d) is Ok,
    ensures
        ({
            let p = co64_patch(f, stbl_of(t)->0.co64->0, d)->Ok_0;
            let after = patched(g, trak_patches(f, t, d)->Ok_0);
            &&& co64_patch(f, stbl_of(t)->0.co64->0, d) is Ok
            &&& after.len() == f.len()
            &&& after.subrange(p.pos, p.pos + p.bytes.len()) == p.bytes
        }),
{
    let stbl = stbl_of(t)->0;
    let b = stbl.co64->0;
    lemma_co64_in_trak(f, t);
    let q = co64_patch(f, b, d)->Ok_0;
    lemma_co64_patch_within(f, b, d);
    if stbl.stco is Some {
        let s = stco_patch(f, stbl.stco->0, d)->Ok_0;
        lemma_stco_patch_within(f, stbl.stco->0, d);
        assert(trak_patches(f, t, d)->Ok_0 == seq![s].push(q));
        assert(within(seq![s][0], 0, g.len() as int));
        lemma_patched_last(g, seq![s], q);
    } else {
        assert(trak_patches(f, t, d)->Ok_0 == Seq::<PatchView>::empty().push(q));
        lemma_patched_last(g, Seq::empty(), q);
    }
}

/// After the chunk offsets of the tracks from the one at `from` on were
/// written over those of a file, the table of the 64 bit chunk offset atom of the
/// track at `t` holds what was to be written over it: nothing else that is
/// written touches it.
pub proof fn lemma_table_patches_write64(
    f: Seq<u8>,
    g: Seq<u8>,
    traks: Seq<TrakBounds>,
    d: int,
    from: int,
    t: int,
)
    requires
        0 <= from <= t < traks.len(),
        traks_apart(f, traks),
        g.len() == f.len(),
        stbl_of(traks[t]) is Some,
        stbl_of(traks[t])->0.co64 is Some,
        table_patches(f, traks, d, from) is Ok,
    ensures
        ({
            let p = co64_patch(f, stbl_of(traks[t])->0.co64->0, d)->Ok_0;
            let after = patched(g, table_patches(f, traks, d, from)->Ok_0);
            &&& co64_patch(f, stbl_of(traks[t])->0.co64->0, d) is Ok
            &&& after.len() == f.len()
            &&& after.subrange(p.pos, p.pos + p.bytes.len()) == p.bytes
        }),
    decreases t - from,
{
    let b = stbl_of(traks[t])->0.co64->0;
    let lo = b.bounds.pos as int;
    let hi = b.bounds.spec_end();
    let here = trak_patches(f, traks[from], d)->Ok_0;
    let rest = table_patches(f, traks, d, from + 1)->Ok_0;
    assert(traks[t].nested(f));
    assert(traks[from].nested(f));
    lemma_co64_in_trak(f, traks[t]);
    lemma_patched_concat(g, here, rest);
    if from < t {
        assert(traks[from].bounds.apart(traks[t].bounds));
        lemma_trak_patches_miss(f, traks[from], d, lo, hi);
        lemma_patched_misses(g, here, lo, hi);
        lemma_table_patches_write64(f, patched(g, here), traks, d, from + 1, t);
    } else {
        lemma_trak_patches_write64(f, g, traks[t], d);
        let p = co64_patch(f, b, d)->Ok_0;
        lemma_co64_patch_within(f, b, d);
        let r0 = p.pos;
        let r1 = p.pos + p.bytes.len();
        let g1 = patched(g, here);
        assert forall|i: int| from + 1 <= i < traks.len() implies (#[trigger] traks[i]).nested(f)
            && (traks[i].bounds.spec_end() <= lo || hi <= traks[i].bounds.pos) by {
            assert(traks[t].bounds.apart(traks[i].bounds));
        }
        lemma_table_patches_miss(f, traks, d, from + 1, lo, hi);
        lemma_patched_misses(g1, rest, lo, hi);
        let after = patched(g1, rest);
        assert(after.subrange(r0, r1) =~= after.subrange(lo, hi).subrange(r0 - lo, r1 - lo));
        assert(g1.subrange(r0, r1) =~= g1.subrange(lo, hi).subrange(r0 - lo, r1 - lo));
    }
}

/// What is written over the heads of the atoms around the metadata touches
/// no 64 bit chunk offset atom of a track.
pub proof fn lemma_sizes_miss_table64(f: Seq<u8>, moov: MoovBoundsView, t: int, d: int)
    requires
        moov.nested(f),
        0 <= t < moov.trak.len(),
        stbl_of(moov.trak[t]) is Some,
        stbl_of(moov.trak[t])->0.co64 is Some,
        size_patches(updates_of(moov), d, 0) is Ok,
    ensures
        all_miss(
            size_patches(updates_of(moov), d, 0)->Ok_0,
            stbl_of(moov.trak[t])->0.co64->0.bounds.pos as int,
            stbl_of(moov.trak[t])->0.co64->0.bounds.spec_end(),
            f.len() as int,
        ),
{
    let b = stbl_of(moov.trak[t])->0.co64->0;
    let lo = b.bounds.pos as int;
    let hi = b.bounds.spec_end();
    let tb = moov.trak[t].bounds;
    assert(moov.trak[t].nested(f));
    assert(moov.bounds.holds(tb));
    lemma_co64_in_trak(f, moov.trak[t]);
    let updates = updates_of(moov);
    assert forall|k: int| 0 <= k < updates.len() implies (#[trigger] updates[k]).wf()
        && updates[k].spec_end() <= f.len() && (updates[k].spec_content_pos() <= lo || hi
        <= updates[k].pos) by {
        if k >= 1 {
            assert(moov.udta is Some);
            assert(tb.apart(moov.udta->0.bounds));
        }
    }
    lemma_size_patches_miss(updates, d, 0, lo, hi, f.len() as int);
}

/// Where a file holds, in the place of a 64 bit chunk offset atom, the bytes
/// that stand there after the chunk offsets were written over those of the
/// file `f`, each offset of the table reads there as the offset of `f` moved
/// by `d`.
pub proof fn lemma_table_moved64(
    f: Seq<u8>,
    g: Seq<u8>,
    traks: Seq<TrakBounds>,
    t: int,
    d: int,
    i: int,
)
    requires
        0 <= t < traks.len(),
        traks_apart(f, traks),
        stbl_of(traks[t]) is Some,
        stbl_of(traks[t])->0.co64 is Some,
        table_patches(f, traks, d, 0) is Ok,
        offsets64_of(f, stbl_of(traks[t])->0.co64->0) is Ok,
        0 <= i < offsets64_of(f, stbl_of(traks[t])->0.co64->0)->Ok_0.offsets.len(),
        stbl_of(traks[t])->0.co64->0.bounds.spec_end() <= g.len(),
        g.subrange(
            stbl_of(traks[t])->0.co64->0.bounds.pos as int,
            stbl_of(traks[t])->0.co64->0.bounds.spec_end(),
        ) == patched(f, table_patches(f, traks, d, 0)->Ok_0).subrange(
            stbl_of(traks[t])->0.co64->0.bounds.pos as int,
            stbl_of(traks[t])->0.co64->0.bounds.spec_end(),
        ),
    ensures
        ({
            let v = offsets64_of(f, stbl_of(traks[t])->0.co64->0)->Ok_0;
            at64(g, v.table_pos + 8 * i) == shifted64(v.offsets[i], d)
        }),
{
    let b = stbl_of(traks[t])->0.co64->0;
    let v = offsets64_of(f, b)->Ok_0;
    let lo = b.bounds.pos as int;
    let hi = b.bounds.spec_end();
    let tp = v.table_pos as int;
    let n = v.offsets.len();
    let g1 = patched(f, table_patches(f, traks, d, 0)->Ok_0);
    assert(traks[t].nested(f));
    lemma_co64_in_trak(f, traks[t]);
    lemma_table_read64(f, b, i);
    lemma_table_patches_write64(f, f, traks, d, 0, t);
    lemma_co64_patch_within(f, b, d);
    lemma_subrange_twice(g, lo, hi, tp - lo, hi - lo);
    lemma_subrange_twice(g1, lo, hi, tp - lo, hi - lo);
    let want = shift64(v.offsets, d);
    lemma_table64_len(want);
    crate::atom::co64::lemma_table64(want, g, tp);
    assert(table64(g, tp, n)[i] == want[i]);
}

/// Where a file holds, in the place of a 64 bit chunk offset atom of the file
/// `f`, the bytes of `f`, each offset of the table reads there as it does in
/// `f`.
pub proof fn lemma_table_kept64(f: Seq<u8>, g: Seq<u8>, b: Co64Bounds, i: int)
    requires
        b.bounds.anchored(f),
        offsets64_of(f, b) is Ok,
        0 <= i < offsets64_of(f, b)->Ok_0.offsets.len(),
        b.bounds.spec_end() <= g.len(),
        g.subrange(b.bounds.pos as int, b.bounds.spec_end()) == f.subrange(
            b.bounds.pos as int,
            b.bounds.spec_end(),
        ),
    ensures
        at64(g, offsets64_of(f, b)->Ok_0.table_pos + 8 * i) == offsets64_of(f, b)->Ok_0.offsets[i],
{
    let v = offsets64_of(f, b)->Ok_0;
    let lo = b.bounds.pos as int;
    let hi = b.bounds.spec_end();
    let tp = v.table_pos as int;
    lemma_table_read64(f, b, i);
    lemma_subrange_twice(g, lo, hi, tp + 8 * i - lo, tp + 8 * i + 8 - lo);
    lemma_subrange_twice(f, lo, hi, tp + 8 * i - lo, tp + 8 * i + 8 - lo);
}

/// The chunk offsets follow the media data. Where the table of a 64 bit
/// chunk offset atom lies before the place of the new atoms, each of its offsets
/// is, in the rewritten file, the offset of the file moved by as much as the
/// file grows, in the arithmetic of 64 bits, where the media data lies
/// behind the movie atom; else it is the offset of the file.
#[verifier::spinoff_prover]
pub proof fn lemma_rewrite_moves_offsets64(f: Seq<u8>, items: Seq<MetaItemView>, t: int, i: int)
    requires
        f.len() <= u64::MAX,
        rewritten(f, items) is Ok,
        0 <= t < found_in(f).moov->0.trak.len(),
        stbl_of(found_in(f).moov->0.trak[t]) is Some,
        stbl_of(found_in(f).moov->0.trak[t])->0.co64 is Some,
        stbl_of(found_in(f).moov->0.trak[t])->0.co64->0.bounds.spec_end() <= new_atoms_start_of(
            found_in(f).moov->0,
        ),
        offsets64_of(f, stbl_of(found_in(f).moov->0.trak[t])->0.co64->0) is Ok,
        0
            <= i < offsets64_of(f, stbl_of(found_in(f).moov->0.trak[t])->0.co64->0)->Ok_0.offsets.len(),
    ensures
        ({
            let s = found_in(f);
            let v = offsets64_of(f, stbl_of(s.moov->0.trak[t])->0.co64->0)->Ok_0;
            let g = rewritten(f, items)->Ok_0;
            let d = planned(f, items)->Ok_0.len_diff();
            at64(g, v.table_pos + 8 * i) == (if mdat_pos_of(s) > s.moov->0.bounds.pos {
                shifted64(v.offsets[i], d)
            } else {
                v.offsets[i]
            })
        }),
{
    let s = found_in(f);
    let moov = s.moov->0;
    let b = stbl_of(moov.trak[t])->0.co64->0;
    let v = offsets64_of(f, b)->Ok_0;
    let plan = planned(f, items)->Ok_0;
    let g = rewritten(f, items)->Ok_0;
    let d = plan.len_diff();
    lemma_plan_shape(f, items);
    assert(moov.trak[t].nested(f));
    lemma_co64_in_trak(f, moov.trak[t]);
    lemma_sizes_miss_table64(f, moov, t, d);
    lemma_table_read64(f, b, i);
    let lo = b.bounds.pos as int;
    let hi = b.bounds.spec_end();
    let tp = v.table_pos as int;
    let n = v.offsets.len();
    lemma_rewrite_keeps_tables(f, items, lo, hi);
    if mdat_pos_of(s) > moov.bounds.pos && d != 0 {
        assert(traks_apart(f, moov.trak));
        lemma_table_moved64(f, g, moov.trak, t, d, i);
    } else {
        lemma_table_kept64(f, g, b, i);
    }
}

/// The offsets that are read from a 64 bit chunk offset atom of the file are the
/// numbers that stand in its table, which fills the atom behind the first
/// eight bytes of its content.
pub proof fn lemma_table_read64(f: Seq<u8>, b: Co64Bounds, i: int)
    requires
        b.bounds.anchored(f),
        offsets64_of(f, b) is Ok,
        0 <= i < offsets64_of(f, b)->Ok_0.offsets.len(),
    ensures
        ({
            let v = offsets64_of(f, b)->Ok_0;
            &&& v.table_pos == b.bounds.spec_content_pos() + 8
            &&& v.table_pos + 8 * v.offsets.len() == b.bounds.spec_end()
            &&& v.offsets[i] == at64(f, v.table_pos + 8 * i)
        }),
{
    reveal(Co64::parsed);
    let cp = b.bounds.spec_content_pos();
    let c = f.subrange(cp, b.bounds.spec_end());
    assert(c.subrange(8 + 8 * i, 8 + 8 * i + 8) =~= f.subrange(cp + 8 + 8 * i, cp + 8 + 8 * i + 8));
}

/// What reading the 64 bit chunk offset atom gives that lies at `b` in the file
/// `f`.
pub open spec fn offsets64_of(f: Seq<u8>, b: Co64Bounds) -> Result<
    crate::atom::co64::Co64View,
    ErrorView,
> {
    Co64::parsed(f, b.bounds.spec_content_pos(), 0, b.bounds.size)
}

/// Writing a tag keeps the samples: the bytes to which a chunk offset
/// of 64 bits points in the rewritten file are the bytes to which it pointed in the
/// file. This holds of a chunk behind the movie atom where the media data
/// lies behind it and the moved offset fits 64 bits, and of a chunk before
/// the movie atom where the media data lies before it; in both cases of a
/// table that lies before the place of the new atoms.
pub proof fn lemma_rewrite_keeps_chunks64(
    f: Seq<u8>,
    items: Seq<MetaItemView>,
    t: int,
    i: int,
    k: int,
)
    requires
        f.len() <= u64::MAX,
        rewritten(f, items) is Ok,
        0 <= t < found_in(f).moov->0.trak.len(),
        stbl_of(found_in(f).moov->0.trak[t]) is Some,
        stbl_of(found_in(f).moov->0.trak[t])->0.co64 is Some,
        stbl_of(found_in(f).moov->0.trak[t])->0.co64->0.bounds.spec_end() <= new_atoms_start_of(
            found_in(f).moov->0,
        ),
        offsets64_of(f, stbl_of(found_in(f).moov->0.trak[t])->0.co64->0) is Ok,
        0
            <= i < offsets64_of(f, stbl_of(found_in(f).moov->0.trak[t])->0.co64->0)->Ok_0.offsets.len(),
        0 <= k,
        ({
            let s = found_in(f);
            let m = s.moov->0.bounds;
            let o = offsets64_of(f, stbl_of(s.moov->0.trak[t])->0.co64->0)->Ok_0.offsets[i];
            let d = planned(f, items)->Ok_0.len_diff();
            if mdat_pos_of(s) > m.pos {
                m.spec_end() <= o && o + k < f.len() && 0 <= o + d <= u64::MAX
            } else {
                o + k < m.pos
            }
        }),
    ensures
        ({
            let s = found_in(f);
            let v = offsets64_of(f, stbl_of(s.moov->0.trak[t])->0.co64->0)->Ok_0;
            let g = rewritten(f, items)->Ok_0;
            g[at64(g, v.table_pos + 8 * i) + k] == f[v.offsets[i] + k]
        }),
{
    let o = offsets64_of(f, stbl_of(found_in(f).moov->0.trak[t])->0.co64->0)->Ok_0.offsets[i];
    let d = planned(f, items)->Ok_0.len_diff();
    if mdat_pos_of(found_in(f)) > found_in(f).moov->0.bounds.pos {
        assert(shifted64(o, d) == o + d) by {
            assert(0 <= o + d < 0x1_0000_0000_0000_0000);
            assert((o + d) % 0x1_0000_0000_0000_0000 == o + d);
        }
    }
    lemma_rewrite_moves_offsets64(f, items, t, i);
    lemma_rewrite_keeps_outside(f, items);
    lemma_plan_shape(f, items);
}

/// Writing a tag a second time leaves the file as the first writing made
/// it: the file that comes of giving a file the items, given the same items
/// again, is itself. This is stated of items whose list has a length that
/// does not read as the identifier of a handler reference or of an item
/// list: behind the version and flags of a metadata atom such a length would
/// be taken for the identifier.
pub proof fn lemma_rewrite_again(f: Seq<u8>, items: Seq<MetaItemView>)
    requires
        f.len() <= u64::MAX,
        rewritten(f, items) is Ok,
        rewritten(f, items)->Ok_0.len() <= u64::MAX,
        plain_len(items),
    ensures
        rewritten(rewritten(f, items)->Ok_0, items) == Ok::<Seq<u8>, ErrorView>(
            rewritten(f, items)->Ok_0,
        ),
{
    let g = rewritten(f, items)->Ok_0;
    let with_offsets = retabled(f, items);
    let moov = found_in(f).moov->0;
    lemma_planned_read(f, items);
    lemma_retabled_found(f, items);
    lemma_retabled_edited(f, items);
    lemma_swept_inside(
        with_offsets,
        ftyp_at(f, 0)->Ok_0.1,
        SweepView { moov: None, mdat: None },
    );
    assert(found_in(with_offsets) == found_in(f));
    assert(editable(with_offsets, moov, items));
    lemma_edited_file(with_offsets, items);
    lemma_planned_again(g, ilst_pos(moov, items), items);
    lemma_rewrite_identity(g, items);
}

} // verus!
