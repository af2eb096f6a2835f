//! The chunk offsets that writing a tag moves, as the one who reads the
//! file again sees them: they lie where finding the atoms does not read.

use crate::again::unread::{lemma_sweep_quiet, lemma_sweep_tables, moov_in_tables};
use crate::again::unread::{sweep_in_tables, sweep_unread, trak_in_tables};
use crate::again::sweep::lemma_sweep_target_pos;
use crate::again::whole::{edited, growth, lemma_ftyp_prefix};
use crate::atom::ftyp::ftyp_at;
use crate::atom::ilst::items_bytes;
use crate::atom::metaitem::MetaItemView;
use crate::atom::trak::TrakBounds;
use crate::laws::{all_miss, found_in, lemma_all_miss_concat, lemma_co64_in_trak};
use crate::laws::{lemma_co64_patch_within, lemma_patched_concat, lemma_patched_misses};
use crate::laws::{lemma_patched_outside, lemma_plan_shape, lemma_stco_in_trak};
use crate::laws::{lemma_stco_patch_within, tables_of, within};
use crate::rewrite::{mdat_pos_of, new_atoms_start_of, patched, planned, rewritten};
use crate::rewrite::{size_patches, stbl_of, swept, table_patches, trak_patches, updates_of};
use crate::rewrite::{PatchView, SweepView, MAX_ITEMS_LEN};
use vstd::prelude::*;

verus! {

/// What is written over the chunk offsets of a track touches no byte that
/// lies outside of the contents of its chunk offset atoms.
pub proof fn lemma_trak_patches_off(f: Seq<u8>, t: TrakBounds, d: int, j: int)
    requires
        t.nested(f),
        trak_patches(f, t, d) is Ok,
        !trak_in_tables(t, j),
    ensures
        all_miss(trak_patches(f, t, d)->Ok_0, j, j + 1, f.len() as int),
{
    match stbl_of(t) {
        None => {},
        Some(stbl) => {
            if stbl.stco is Some {
                lemma_stco_in_trak(f, t);
                lemma_stco_patch_within(f, stbl.stco->0, d);
            }
            if stbl.co64 is Some {
                lemma_co64_in_trak(f, t);
                lemma_co64_patch_within(f, stbl.co64->0, d);
            }
        },
    }
}

/// What is written over the chunk offsets of the tracks from the one at
/// `from` on touches no byte that lies outside of the contents of their
/// chunk offset atoms.
pub proof fn lemma_table_patches_off(
    f: Seq<u8>,
    traks: Seq<TrakBounds>,
    d: int,
    from: int,
    j: int,
)
    requires
        0 <= from,
        forall|t: int|
            from <= t < traks.len() ==> (#[trigger] traks[t]).nested(f) && !trak_in_tables(
                traks[t],
                j,
            ),
        table_patches(f, traks, d, from) is Ok,
    ensures
        all_miss(table_patches(f, traks, d, from)->Ok_0, j, j + 1, f.len() as int),
    decreases traks.len() - from,
{
    if from < traks.len() {
        assert(traks[from].nested(f));
        lemma_trak_patches_off(f, traks[from], d, j);
        lemma_table_patches_off(f, traks, d, from + 1, j);
        lemma_all_miss_concat(
            trak_patches(f, traks[from], d)->Ok_0,
            table_patches(f, traks, d, from + 1)->Ok_0,
            j,
            j + 1,
            f.len() as int,
        );
    }
}

/// Writing the chunk offsets over those of a file changes no byte that lies
/// outside of the contents of the chunk offset atoms of its tracks.
pub proof fn lemma_tables_off(f: Seq<u8>, s: SweepView, d: int)
    requires
        s.moov is Some,
        s.moov->0.nested(f),
        mdat_pos_of(s) > s.moov->0.bounds.pos && d != 0 ==> table_patches(
            f,
            s.moov->0.trak,
            d,
            0,
        ) is Ok,
    ensures
        patched(f, tables_of(f, s, d)).len() == f.len(),
        forall|j: int|
            0 <= j < f.len() && !moov_in_tables(s.moov->0, j) ==> #[trigger] patched(
                f,
                tables_of(f, s, d),
            )[j] == f[j],
{
    let moov = s.moov->0;
    let tables = tables_of(f, s, d);
    if mdat_pos_of(s) > moov.bounds.pos && d != 0 {
        assert forall|j: int| 0 <= j < f.len() && !moov_in_tables(moov, j) implies all_miss(
            tables,
            j,
            j + 1,
            f.len() as int,
        ) by {
            assert forall|t: int| 0 <= t < moov.trak.len() implies (#[trigger] moov.trak[t]).nested(
                f,
            ) && !trak_in_tables(moov.trak[t], j) by {}
            lemma_table_patches_off(f, moov.trak, d, 0, j);
        }
    }
    assert forall|j: int| 0 <= j < f.len() && !moov_in_tables(moov, j) implies #[trigger] patched(
        f,
        tables,
    )[j] == f[j] by {
        lemma_patched_misses(f, tables, j, j + 1);
        assert(patched(f, tables).subrange(j, j + 1)[0] == f.subrange(j, j + 1)[0]);
    }
    lemma_tables_len(f, s, d);
}

/// Writing the chunk offsets over those of a file leaves its length as it
/// is.
pub proof fn lemma_tables_len(f: Seq<u8>, s: SweepView, d: int)
    requires
        s.moov is Some,
        s.moov->0.nested(f),
        mdat_pos_of(s) > s.moov->0.bounds.pos && d != 0 ==> table_patches(
            f,
            s.moov->0.trak,
            d,
            0,
        ) is Ok,
    ensures
        patched(f, tables_of(f, s, d)).len() == f.len(),
{
    let moov = s.moov->0;
    if mdat_pos_of(s) > moov.bounds.pos && d != 0 {
        crate::laws::lemma_table_patches_within(
            f,
            moov.trak,
            d,
            0,
            moov.bounds.spec_content_pos(),
            moov.bounds.spec_end(),
        );
        lemma_patched_outside(
            f,
            tables_of(f, s, d),
            moov.bounds.spec_content_pos(),
            moov.bounds.spec_end(),
        );
    }
}

/// Patches change a byte of a file by what they write alone: where two
/// files of one length hold the same byte at a position, they hold the same
/// byte there after the same patches.
pub proof fn lemma_patched_local(x: Seq<u8>, y: Seq<u8>, ps: Seq<PatchView>, j: int)
    requires
        x.len() == y.len(),
        forall|i: int| 0 <= i < ps.len() ==> within(#[trigger] ps[i], 0, x.len() as int),
        0 <= j < x.len(),
        x[j] == y[j],
    ensures
        patched(x, ps).len() == x.len(),
        patched(y, ps).len() == x.len(),
        patched(x, ps)[j] == patched(y, ps)[j],
    decreases ps.len(),
{
    if ps.len() > 0 {
        let init = ps.drop_last();
        assert forall|i: int| 0 <= i < init.len() implies within(
            #[trigger] init[i],
            0,
            x.len() as int,
        ) by {
            assert(init[i] == ps[i]);
        }
        lemma_patched_local(x, y, init, j);
        assert(within(ps[ps.len() - 1], 0, x.len() as int));
    }
}

/// The file `f` with the chunk offsets written over it that writing the
/// items moves and that lie before the place of the new atoms.
pub open spec fn retabled(f: Seq<u8>, items: Seq<MetaItemView>) -> Seq<u8> {
    patched(f, tables_of(f, found_in(f), planned(f, items)->Ok_0.len_diff())).subrange(
        0,
        new_atoms_start_of(found_in(f).moov->0),
    ) + f.subrange(new_atoms_start_of(found_in(f).moov->0), f.len() as int)
}

/// A file that can be given a tag opens with a file type atom, the walk
/// over its atoms ends without an error, and the items are not too long.
pub proof fn lemma_planned_read(f: Seq<u8>, items: Seq<MetaItemView>)
    requires
        planned(f, items) is Ok,
    ensures
        ftyp_at(f, 0) is Ok,
        0 <= ftyp_at(f, 0)->Ok_0.1,
        swept(f, ftyp_at(f, 0)->Ok_0.1, SweepView { moov: None, mdat: None }) is Ok,
        found_in(f).moov is Some,
        items_bytes(items).len() <= MAX_ITEMS_LEN,
{
    reveal(planned);
}

/// The file with the chunk offsets written over it holds the bytes of the
/// file outside of the contents of the chunk offset atoms, and before the
/// movie atom.
pub proof fn lemma_retabled_bytes(f: Seq<u8>, items: Seq<MetaItemView>)
    requires
        f.len() <= u64::MAX,
        rewritten(f, items) is Ok,
    ensures
        retabled(f, items).len() == f.len(),
        forall|j: int|
            0 <= j < f.len() && !moov_in_tables(found_in(f).moov->0, j) ==> #[trigger] retabled(
                f,
                items,
            )[j] == f[j],
        retabled(f, items).subrange(0, found_in(f).moov->0.bounds.pos as int) == f.subrange(
            0,
            found_in(f).moov->0.bounds.pos as int,
        ),
{
    let s = found_in(f);
    let moov = s.moov->0;
    let d = planned(f, items)->Ok_0.len_diff();
    let tables = tables_of(f, s, d);
    let f2 = retabled(f, items);
    lemma_plan_shape(f, items);
    lemma_tables_off(f, s, d);
    assert forall|k: int| 0 <= k < tables.len() implies within(
        #[trigger] tables[k],
        moov.bounds.pos as int,
        moov.bounds.spec_end(),
    ) by {
        assert(tables[k] == planned(f, items)->Ok_0.patches[k]);
    }
    lemma_patched_outside(f, tables, moov.bounds.pos as int, moov.bounds.spec_end());
    assert(f.subrange(0, moov.bounds.pos as int) =~= f2.subrange(0, moov.bounds.pos as int));
}

/// In a file with the chunk offsets written over it, the atoms are found
/// that are found in the file.
pub proof fn lemma_retabled_found(f: Seq<u8>, items: Seq<MetaItemView>)
    requires
        f.len() <= u64::MAX,
        rewritten(f, items) is Ok,
    ensures
        retabled(f, items).len() == f.len(),
        ftyp_at(f, 0) is Ok,
        ftyp_at(retabled(f, items), 0) == ftyp_at(f, 0),
        swept(f, ftyp_at(f, 0)->Ok_0.1, SweepView { moov: None, mdat: None }) is Ok,
        swept(retabled(f, items), ftyp_at(f, 0)->Ok_0.1, SweepView { moov: None, mdat: None })
            == swept(f, ftyp_at(f, 0)->Ok_0.1, SweepView { moov: None, mdat: None }),
{
    let s = found_in(f);
    let t = ftyp_at(f, 0)->Ok_0.1;
    let init = SweepView { moov: None, mdat: None };
    let f2 = retabled(f, items);
    lemma_planned_read(f, items);
    lemma_retabled_bytes(f, items);
    lemma_sweep_tables(f, t, init);
    assert forall|j: int| t <= j < f.len() && !sweep_unread(f, t, j) implies f[j] == f2[j] by {
        assert(!sweep_in_tables(s, j));
    }
    lemma_sweep_quiet(f, f2, t, init);
    lemma_sweep_target_pos(f, t, init);
    lemma_ftyp_prefix(f, f2, s.moov->0.bounds.pos as int);
}

/// The rewritten file is the file with the chunk offsets written over it,
/// edited.
#[verifier::spinoff_prover]
pub proof fn lemma_retabled_edited(f: Seq<u8>, items: Seq<MetaItemView>)
    requires
        f.len() <= u64::MAX,
        rewritten(f, items) is Ok,
    ensures
        rewritten(f, items)->Ok_0 == edited(retabled(f, items), found_in(f).moov->0, items),
        growth(found_in(f).moov->0, items) == planned(f, items)->Ok_0.len_diff(),
        size_patches(updates_of(found_in(f).moov->0), growth(found_in(f).moov->0, items), 0) is Ok,
        rewritten(f, items)->Ok_0.len() == f.len() + growth(found_in(f).moov->0, items),
{
    let s = found_in(f);
    let moov = s.moov->0;
    let plan = planned(f, items)->Ok_0;
    let d = plan.len_diff();
    let start = new_atoms_start_of(moov);
    let tables = tables_of(f, s, d);
    let sizes = size_patches(updates_of(moov), d, 0)->Ok_0;
    let f1 = patched(f, tables);
    let f2 = retabled(f, items);
    let g = rewritten(f, items)->Ok_0;
    lemma_plan_shape(f, items);
    crate::again::offsets::lemma_tables_len(f, s, d);
    lemma_patched_concat(f, tables, sizes);
    assert forall|i: int| 0 <= i < sizes.len() implies within(
        #[trigger] sizes[i],
        0,
        f.len() as int,
    ) by {
        assert(sizes[i] == plan.patches[tables.len() + i]);
        assert(within(plan.patches[tables.len() + i], moov.bounds.pos as int, moov.bounds.spec_end()));
    }
    assert forall|j: int| 0 <= j < start implies patched(f1, sizes)[j] == patched(f2, sizes)[j] by {
        lemma_patched_local(f1, f2, sizes, j);
    }
    if f.len() > 0 {
        lemma_patched_local(f1, f2, sizes, 0);
    }
    assert(patched(f1, sizes).subrange(0, start) =~= patched(f2, sizes).subrange(0, start));
    assert(f2.subrange(plan.moved_data_start, f2.len() as int) =~= f.subrange(
        plan.moved_data_start,
        f.len() as int,
    ));
}

} // verus!
