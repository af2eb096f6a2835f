//! Rewriting the metadata of a file in place: where the atoms lie that the
//! change touches, what is to be written where, and the file that results.

use crate::atom::base::{found_at, lemma_boxed_bounds, view_of, ReadConfig};
use crate::atom::co64::{lemma_table64_len, table64_bytes, Co64, Co64Bounds};
use crate::atom::ftyp::{ftyp_at, Ftyp};
use crate::atom::hdlr::Hdlr;
use crate::atom::ilst::{item_views, items_bytes, lemma_items_take, Ilst};
use crate::atom::mdat::{Mdat, MdatBounds};
use crate::atom::meta::{canonical_hdlr, Meta, MetaView};
use crate::atom::metaitem::{data_atom_bytes, data_atoms_bytes, lemma_data_atoms_take};
use crate::atom::metaitem::{text_atom_bytes, MetaItem, MetaItemView};
use crate::atom::moov::{lemma_moov_nested, Moov, MoovBounds, MoovBoundsView};
use crate::atom::stbl::StblBounds;
use crate::atom::stco::{lemma_table32_len, table32_bytes, Stco, StcoBounds};
use crate::atom::trak::TrakBounds;
use crate::atom::udta::{Udta, UdtaView};
use crate::atom::zeros;
use crate::codec::{put_be_u32, put_be_u64, u32_be, u64_be};
use crate::data::Data;
use crate::error::{annotate, eof, error, Error, ErrorKind, ErrorKindView, ErrorView};
use crate::file::{next_top, top_at};
use crate::head::{bounds_at, AtomBounds, Size};
use crate::ident::{DataIdent, Ident, DATA, HANDLER_REFERENCE, ITEM_LIST, MEAN, MEDIA_DATA, MOVIE};
use crate::ident::{NAME, SAMPLE_TABLE_CHUNK_OFFSET, SAMPLE_TABLE_CHUNK_OFFSET_64};
use crate::reader::Reader;
use vstd::prelude::*;
use vstd::slice::{slice_subrange, slice_to_vec};
use vstd::string::*;
use vstd::utf8::encode_utf8;

verus! {

/// The highest number of bytes that the atoms of the items of a tag may
/// have, taken together.
pub const MAX_ITEMS_LEN: u64 = 0x3fff_ffff_ffff_ffff;

/// Bytes that are to be written over those at a position of the file.
#[derive(Clone, Debug, PartialEq, Eq)]
pub struct Patch {
    /// The position in the file of the first byte.
    pub pos: u64,
    /// The bytes.
    pub bytes: Vec<u8>,
}

/// The mathematical value of a [`Patch`].
pub struct PatchView {
    pub pos: int,
    pub bytes: Seq<u8>,
}

impl View for Patch {
    type V = PatchView;

    open spec fn view(&self) -> PatchView {
        PatchView { pos: self.pos as int, bytes: self.bytes@ }
    }
}

/// The values of a list of patches.
pub open spec fn patch_views(s: Seq<Patch>) -> Seq<PatchView> {
    Seq::new(s.len(), |i: int| s[i]@)
}

/// What is to be done to a file to give it new metadata.
#[derive(Clone, Debug, PartialEq, Eq)]
pub struct Plan {
    /// What is to be written over bytes of the file, in this order: the
    /// chunk offsets, then the lengths of the atoms around the metadata.
    pub patches: Vec<Patch>,
    /// The position at which the new atoms are written.
    pub new_atoms_start: u64,
    /// The position from which on the bytes of the file move, to behind the
    /// new atoms.
    pub moved_data_start: u64,
    /// The new atoms.
    pub new_atoms: Vec<u8>,
}

/// The mathematical value of a [`Plan`].
pub struct PlanView {
    pub patches: Seq<PatchView>,
    pub new_atoms_start: int,
    pub moved_data_start: int,
    pub new_atoms: Seq<u8>,
}

impl View for Plan {
    type V = PlanView;

    open spec fn view(&self) -> PlanView {
        PlanView {
            patches: patch_views(self.patches@),
            new_atoms_start: self.new_atoms_start as int,
            moved_data_start: self.moved_data_start as int,
            new_atoms: self.new_atoms@,
        }
    }
}

/// The file `f` with the bytes `bytes` written over those from position
/// `pos`.
pub open spec fn overwritten(f: Seq<u8>, pos: int, bytes: Seq<u8>) -> Seq<u8> {
    f.subrange(0, pos) + bytes + f.subrange(pos + bytes.len(), f.len() as int)
}

/// The file `f` with the patches applied, one after another.
pub open spec fn patched(f: Seq<u8>, patches: Seq<PatchView>) -> Seq<u8>
    decreases patches.len(),
{
    if patches.len() == 0 {
        f
    } else {
        overwritten(patched(f, patches.drop_last()), patches.last().pos, patches.last().bytes)
    }
}

/// All patches lie inside a file of `len` bytes.
pub open spec fn patches_inside(patches: Seq<PatchView>, len: int) -> bool {
    forall|i: int|
        0 <= i < patches.len() ==> 0 <= (#[trigger] patches[i]).pos && patches[i].pos
            + patches[i].bytes.len() <= len
}

impl PlanView {
    /// By how many bytes the file grows.
    pub open spec fn len_diff(self) -> int {
        self.new_atoms.len() - (self.moved_data_start - self.new_atoms_start)
    }

    /// The plan can be carried out on a file of `len` bytes: what it touches
    /// lies inside the file.
    pub open spec fn valid_for(self, len: int) -> bool {
        &&& 0 <= self.new_atoms_start <= self.moved_data_start <= len
        &&& patches_inside(self.patches, len)
    }

    /// The file that results from carrying out the plan on the file `f`: the
    /// patched file up to where the new atoms start, the new atoms, and the
    /// bytes of `f` from where the moved data starts, as they were before
    /// the patches.
    pub open spec fn applied(self, f: Seq<u8>) -> Seq<u8> {
        patched(f, self.patches).subrange(0, self.new_atoms_start) + self.new_atoms + f.subrange(
            self.moved_data_start,
            f.len() as int,
        )
    }
}

/// The movie atom and the media data atom that were found at the top of a
/// file.
#[derive(Clone, Debug, PartialEq, Eq)]
pub struct Sweep {
    /// Where the movie atom and the atoms that it holds lie.
    pub moov: Option<MoovBounds>,
    /// Where the media data atom lies.
    pub mdat: Option<MdatBounds>,
}

/// The mathematical value of a [`Sweep`].
pub struct SweepView {
    pub moov: Option<MoovBoundsView>,
    pub mdat: Option<MdatBounds>,
}

impl View for Sweep {
    type V = SweepView;

    open spec fn view(&self) -> SweepView {
        SweepView {
            moov: match self.moov {
                Some(m) => Some(m@),
                None => None,
            },
            mdat: self.mdat,
        }
    }
}

/// What going over the atoms at the top of the file `f` from position `p`
/// adds to what was found before. Of several movie or media data atoms the
/// last counts.
pub open spec fn swept(f: Seq<u8>, p: int, acc: SweepView) -> Result<SweepView, ErrorView>
    decreases f.len() - p,
{
    if p >= f.len() {
        Ok(acc)
    } else {
        match top_at(f, p) {
            Err(e) => Err(e),
            Ok(h) => {
                let size = h.spec_size();
                let cp = p + size.spec_head_len();
                let next = p + size.len;
                if h.fourcc == Ident(MOVIE) {
                    match Moov::found(f, cp, 0, size) {
                        Err(e) => Err(e),
                        Ok(b) => swept(f, next, SweepView { moov: Some(b), ..acc }),
                    }
                } else if h.fourcc == Ident(MEDIA_DATA) {
                    match found_at(f, cp, 0, size, h.fourcc) {
                        Err(e) => Err(e),
                        Ok(b) => swept(
                            f,
                            next,
                            SweepView { mdat: Some(MdatBounds { bounds: b }), ..acc },
                        ),
                    }
                } else {
                    swept(f, next, acc)
                }
            },
        }
    }
}

/// The movie atom that was found lies inside a file of `len` bytes, and what
/// was found in it fits together.
pub open spec fn sweep_ok(s: SweepView, f: Seq<u8>) -> bool {
    s.moov is Some ==> s.moov->0.nested(f)
}

/// What is found at the top of a file lies inside the file.
pub proof fn lemma_swept_inside(f: Seq<u8>, p: int, acc: SweepView)
    requires
        0 <= p,
        f.len() <= u64::MAX,
        sweep_ok(acc, f),
    ensures
        swept(f, p, acc) is Ok ==> sweep_ok(swept(f, p, acc)->Ok_0, f),
    decreases f.len() - p,
{
    if p < f.len() {
        match top_at(f, p) {
            Err(_) => {},
            Ok(h) => {
                let size = h.spec_size();
                let cp = p + size.spec_head_len();
                let next = p + size.len;
                if h.fourcc == Ident(MOVIE) {
                    assert(f.subrange(0, f.len() as int) =~= f);
                    assert(bounds_at(cp, size, Ident(MOVIE)).anchored(f)) by {
                        reveal(AtomBounds::headed);
                    }
                    lemma_moov_nested(f, f, cp, 0, size);
                    match Moov::found(f, cp, 0, size) {
                        Err(_) => {},
                        Ok(b) => {
                            lemma_swept_inside(f, next, SweepView { moov: Some(b), ..acc });
                        },
                    }
                } else if h.fourcc == Ident(MEDIA_DATA) {
                    match found_at(f, cp, 0, size, h.fourcc) {
                        Err(_) => {},
                        Ok(b) => {
                            lemma_swept_inside(
                                f,
                                next,
                                SweepView { mdat: Some(MdatBounds { bounds: b }), ..acc },
                            );
                        },
                    }
                } else {
                    lemma_swept_inside(f, next, acc);
                }
            },
        }
    }
}

/// The metadata atom that is written where a file has none: the handler
/// reference of metadata, and the items.
pub open spec fn fresh_meta(items: Seq<MetaItemView>) -> MetaView {
    MetaView { hdlr: Some(canonical_hdlr()), ilst: Some(items) }
}

/// The atoms that are written for the items into a file whose movie atom
/// was found as `moov`: the user data atom where the movie has none, else
/// the metadata atom where the user data has none, else the item list, with
/// a handler reference before it where the metadata atom has none.
pub open spec fn new_atoms_of(moov: MoovBoundsView, items: Seq<MetaItemView>) -> Seq<u8> {
    if moov.udta is None {
        (UdtaView { meta: Some(fresh_meta(items)) }).bytes()
    } else if moov.udta->0.meta is None {
        fresh_meta(items).bytes()
    } else if moov.udta->0.meta->0.hdlr is None {
        Hdlr::bytes(canonical_hdlr()) + Ilst::bytes(items)
    } else {
        Ilst::bytes(items)
    }
}

/// The position at which the new atoms are written: that of the item list,
/// or the end of the innermost atom around it that the file has.
pub open spec fn new_atoms_start_of(moov: MoovBoundsView) -> int {
    if moov.udta is None {
        moov.bounds.spec_end()
    } else if moov.udta->0.meta is None {
        moov.udta->0.bounds.spec_end()
    } else if moov.udta->0.meta->0.ilst is None {
        moov.udta->0.meta->0.bounds.spec_end()
    } else {
        moov.udta->0.meta->0.ilst->0.bounds.pos as int
    }
}

/// The position from which on the bytes of the file move: the end of the
/// item list, or where the new atoms are written.
pub open spec fn moved_data_start_of(moov: MoovBoundsView) -> int {
    if moov.udta is Some && moov.udta->0.meta is Some && moov.udta->0.meta->0.ilst is Some {
        moov.udta->0.meta->0.ilst->0.bounds.spec_end()
    } else {
        new_atoms_start_of(moov)
    }
}

/// The atoms whose length changes with the metadata, outermost first: the
/// movie atom, and the user data and metadata atoms where the file has
/// them.
pub open spec fn updates_of(moov: MoovBoundsView) -> Seq<AtomBounds> {
    if moov.udta is None {
        seq![moov.bounds]
    } else if moov.udta->0.meta is None {
        seq![moov.bounds, moov.udta->0.bounds]
    } else {
        seq![moov.bounds, moov.udta->0.bounds, moov.udta->0.meta->0.bounds]
    }
}

/// The error of a change that is not supported.
pub open spec fn unsupported(what: &str) -> ErrorView {
    error(ErrorKindView::Unsupported(what@), what)
}

/// What is written over the head of the atom `a` where its length changes by
/// `d`: the new length, in the form that the head has. An atom whose new
/// length does not fit its form is an error.
pub open spec fn size_patch(a: AtomBounds, d: int) -> Result<Seq<PatchView>, ErrorView> {
    let n = a.size.len + d;
    if n < a.size.spec_head_len() || n > u64::MAX {
        Err(unsupported("Atom length out of range"))
    } else if a.size.ext {
        Ok(
            seq![
                PatchView { pos: a.pos as int, bytes: u32_be(1) },
                PatchView { pos: a.pos + 8, bytes: u64_be(n as u64) },
            ],
        )
    } else if n > u32::MAX {
        Err(unsupported("Atom would need an extended head"))
    } else {
        Ok(seq![PatchView { pos: a.pos as int, bytes: u32_be(n as u32) }])
    }
}

/// What is written over the heads of the atoms from the one at `from` on,
/// where their lengths change by `d`.
pub open spec fn size_patches(updates: Seq<AtomBounds>, d: int, from: int) -> Result<
    Seq<PatchView>,
    ErrorView,
>
    decreases updates.len() - from,
{
    if from < 0 || from >= updates.len() {
        Ok(Seq::empty())
    } else {
        match size_patch(updates[from], d) {
            Err(e) => Err(e),
            Ok(ps) => match size_patches(updates, d, from + 1) {
                Err(e) => Err(e),
                Ok(rest) => Ok(ps + rest),
            },
        }
    }
}

/// The offset `o` of 32 bits moved by `d`, as far as 32 bits can say.
pub open spec fn shifted32(o: u32, d: int) -> u32 {
    if o + d < 0 {
        0
    } else if o + d > u32::MAX {
        u32::MAX
    } else {
        (o + d) as u32
    }
}

/// The offset `o` of 64 bits moved by `d`, in the arithmetic of 64 bits.
pub open spec fn shifted64(o: u64, d: int) -> u64 {
    ((o + d) % 0x1_0000_0000_0000_0000) as u64
}

/// The offsets of 32 bits moved by `d`.
pub open spec fn shift32(t: Seq<u32>, d: int) -> Seq<u32> {
    Seq::new(t.len(), |i: int| shifted32(t[i], d))
}

/// The offsets of 64 bits moved by `d`.
pub open spec fn shift64(t: Seq<u64>, d: int) -> Seq<u64> {
    Seq::new(t.len(), |i: int| shifted64(t[i], d))
}

/// What is written over the table of the chunk offset atom that lies at `b`
/// in the file `f`: its offsets moved by `d`.
pub open spec fn stco_patch(f: Seq<u8>, b: StcoBounds, d: int) -> Result<PatchView, ErrorView> {
    match Stco::parsed(f, b.bounds.spec_content_pos(), 0, b.bounds.size) {
        Err(e) => Err(e),
        Ok(v) => Ok(
            PatchView { pos: v.table_pos as int, bytes: table32_bytes(shift32(v.offsets, d)) },
        ),
    }
}

/// What is written over the table of the 64 bit chunk offset atom that lies
/// at `b` in the file `f`: its offsets moved by `d`.
pub open spec fn co64_patch(f: Seq<u8>, b: Co64Bounds, d: int) -> Result<PatchView, ErrorView> {
    match Co64::parsed(f, b.bounds.spec_content_pos(), 0, b.bounds.size) {
        Err(e) => Err(e),
        Ok(v) => Ok(
            PatchView { pos: v.table_pos as int, bytes: table64_bytes(shift64(v.offsets, d)) },
        ),
    }
}

/// The sample table of a track, where its media and media information lead
/// to one.
pub open spec fn stbl_of(t: TrakBounds) -> Option<StblBounds> {
    if t.mdia is Some && t.mdia->0.minf is Some {
        t.mdia->0.minf->0.stbl
    } else {
        None
    }
}

/// What is written over the chunk offsets of a track: those of 32 bits,
/// then those of 64 bits.
pub open spec fn trak_patches(f: Seq<u8>, t: TrakBounds, d: int) -> Result<
    Seq<PatchView>,
    ErrorView,
> {
    match stbl_of(t) {
        None => Ok(Seq::empty()),
        Some(stbl) => {
            match (match stbl.stco {
                None => Ok(Seq::empty()),
                Some(b) => match stco_patch(f, b, d) {
                    Err(e) => Err(e),
                    Ok(p) => Ok(seq![p]),
                },
            }) {
                Err(e) => Err(e),
                Ok(first) => match stbl.co64 {
                    None => Ok(first),
                    Some(b) => match co64_patch(f, b, d) {
                        Err(e) => Err(e),
                        Ok(p) => Ok(first.push(p)),
                    },
                },
            }
        },
    }
}

/// What is written over the chunk offsets of the tracks from the one at
/// `from` on.
pub open spec fn table_patches(f: Seq<u8>, traks: Seq<TrakBounds>, d: int, from: int) -> Result<
    Seq<PatchView>,
    ErrorView,
>
    decreases traks.len() - from,
{
    if from < 0 || from >= traks.len() {
        Ok(Seq::empty())
    } else {
        match trak_patches(f, traks[from], d) {
            Err(e) => Err(e),
            Ok(ps) => match table_patches(f, traks, d, from + 1) {
                Err(e) => Err(e),
                Ok(rest) => Ok(ps + rest),
            },
        }
    }
}

/// The position of the media data atom, or 0 where the file has none.
pub open spec fn mdat_pos_of(s: SweepView) -> int {
    match s.mdat {
        Some(m) => m.bounds.pos as int,
        None => 0,
    }
}

/// The plan for the movie atom `moov` of the file `f`. The chunk offsets are
/// absolute positions in the file, so they move with the media data: they
/// are rewritten where the media data lies behind the movie atom and the
/// length of the metadata changes.
#[verifier::opaque]
pub open spec fn plan_for(f: Seq<u8>, s: SweepView, items: Seq<MetaItemView>) -> Result<
    PlanView,
    ErrorView,
> {
    let moov = s.moov->0;
    let start = new_atoms_start_of(moov);
    let moved = moved_data_start_of(moov);
    let atoms = new_atoms_of(moov, items);
    let d = atoms.len() - (moved - start);
    match (if mdat_pos_of(s) > moov.bounds.pos && d != 0 {
        table_patches(f, moov.trak, d, 0)
    } else {
        Ok(Seq::empty())
    }) {
        Err(e) => Err(e),
        Ok(tables) => match size_patches(updates_of(moov), d, 0) {
            Err(e) => Err(e),
            Ok(sizes) => Ok(
                PlanView {
                    patches: tables + sizes,
                    new_atoms_start: start,
                    moved_data_start: moved,
                    new_atoms: atoms,
                },
            ),
        },
    }
}

/// The plan for giving the file `f` the items as its metadata. The file
/// must open with a file type atom of a supported brand and hold a movie
/// atom.
#[verifier::opaque]
pub open spec fn planned(f: Seq<u8>, items: Seq<MetaItemView>) -> Result<PlanView, ErrorView> {
    match ftyp_at(f, 0) {
        Err(e) => Err(e),
        Ok(t) => match swept(f, t.1, SweepView { moov: None, mdat: None }) {
            Err(e) => Err(e),
            Ok(s) => if s.moov is None {
                Err(
                    error(
                        ErrorKindView::AtomNotFound(Ident(MOVIE)),
                        "Missing necessary data, no movie (moov) atom found",
                    ),
                )
            } else if items_bytes(items).len() > MAX_ITEMS_LEN {
                Err(unsupported("Metadata too long"))
            } else {
                plan_for(f, s, items)
            },
        },
    }
}

/// The file that results from giving the file `f` the items as its
/// metadata.
pub open spec fn rewritten(f: Seq<u8>, items: Seq<MetaItemView>) -> Result<Seq<u8>, ErrorView> {
    match planned(f, items) {
        Err(e) => Err(e),
        Ok(plan) => Ok(plan.applied(f)),
    }
}

/// Goes over the atoms at the top of the file from the cursor on, and finds
/// the movie atom and the media data atom.
pub fn sweep(reader: &mut Reader) -> (r: Result<Sweep, Error>)
    requires
        old(reader).wf(),
        old(reader).base == 0,
    ensures
        view_of(r) == swept(
            old(reader).data@,
            old(reader).pos as int,
            SweepView { moov: None, mdat: None },
        ),
        final(reader).same_stream(old(reader)),
{
    let ghost f = reader.data@;
    let mut found = Sweep { moov: None, mdat: None };
    while reader.remaining() > 0
        invariant
            reader.same_stream(old(reader)),
            reader.base == 0,
            f == reader.data@,
            swept(f, reader.pos as int, found@) == swept(
                f,
                old(reader).pos as int,
                SweepView { moov: None, mdat: None },
            ),
        decreases reader.left(),
    {
        let head = match next_top(reader) {
            Ok(h) => h,
            Err(e) => {
                return Err(e);
            },
        };
        if head.fourcc.0 == MOVIE {
            match Moov::find(reader, head.size()) {
                Ok(b) => {
                    found.moov = Some(b);
                },
                Err(e) => {
                    return Err(e);
                },
            }
        } else if head.fourcc.0 == MEDIA_DATA {
            match Mdat::find(reader, head.size()) {
                Ok(b) => {
                    found.mdat = Some(b);
                },
                Err(e) => {
                    return Err(e);
                },
            }
        } else {
            match reader.skip(head.content_len()) {
                Ok(_) => {},
                Err(e) => {
                    return Err(e);
                },
            }
        }
    }
    Ok(found)
}

/// The length of the `data` atom that holds the value, where it is no more
/// than the highest length of the items of a tag.
pub fn data_atom_len(data: &Data) -> (r: Option<u64>)
    ensures
        match r {
            Some(n) => n == data_atom_bytes(data@).len() && n <= MAX_ITEMS_LEN,
            None => data_atom_bytes(data@).len() > MAX_ITEMS_LEN,
        },
{
    proof {
        reveal(data_atom_bytes);
        lemma_boxed_bounds(Ident(DATA), data@.typed_bytes());
    }
    let raw = data.len() as u64;
    if raw > MAX_ITEMS_LEN {
        return None;
    }
    let n = Size::from(8 + raw).len();
    if n > MAX_ITEMS_LEN {
        None
    } else {
        Some(n)
    }
}

/// The length of the `mean` or `name` atom with the identifier `code` that
/// holds the text, where it is no more than the highest length of the items
/// of a tag.
pub fn text_atom_len(code: u32, text: &str) -> (r: Option<u64>)
    ensures
        match r {
            Some(n) => n == text_atom_bytes(code, text@).len() && n <= MAX_ITEMS_LEN,
            None => text_atom_bytes(code, text@).len() > MAX_ITEMS_LEN,
        },
{
    proof {
        reveal(text_atom_bytes);
        lemma_boxed_bounds(Ident(code), zeros(4) + encode_utf8(text@));
    }
    let raw = text.as_bytes().len() as u64;
    if raw > MAX_ITEMS_LEN {
        return None;
    }
    let n = Size::from(4 + raw).len();
    if n > MAX_ITEMS_LEN {
        None
    } else {
        Some(n)
    }
}

/// The length of the atom of the item, where it is no more than the highest
/// length of the items of a tag.
pub fn item_len(item: &MetaItem) -> (r: Option<u64>)
    ensures
        match r {
            Some(n) => n == item@.bytes().len() && n <= MAX_ITEMS_LEN,
            None => item@.bytes().len() > MAX_ITEMS_LEN,
        },
{
    let ghost v = item@;
    proof {
        reveal(MetaItemView::bytes);
        lemma_boxed_bounds(v.fourcc(), v.content_bytes());
    }
    let mut n: u64 = 0;
    match &item.ident {
        DataIdent::Fourcc(_) => {},
        DataIdent::Freeform { mean, name } => {
            let m = match text_atom_len(MEAN, mean.as_str()) {
                Some(m) => m,
                None => {
                    return None;
                },
            };
            let k = match text_atom_len(NAME, name.as_str()) {
                Some(k) => k,
                None => {
                    return None;
                },
            };
            n = m + k;
            if n > MAX_ITEMS_LEN {
                return None;
            }
        },
    }
    let mut i: usize = 0;
    assert(data_atoms_bytes(v.data.take(0)).len() == 0);
    while i < item.data.len()
        invariant
            i <= item.data.len(),
            v == item@,
            n <= MAX_ITEMS_LEN,
            n == v.ident_bytes().len() + data_atoms_bytes(v.data.take(i as int)).len(),
            v.content_bytes().len() + 8 <= v.bytes().len(),
        decreases item.data.len() - i,
    {
        proof {
            lemma_data_atoms_take(v.data, i as int);
        }
        let d = match data_atom_len(&item.data[i]) {
            Some(d) => d,
            None => {
                return None;
            },
        };
        n = n + d;
        if n > MAX_ITEMS_LEN {
            return None;
        }
        i += 1;
    }
    assert(v.data.take(i as int) =~= v.data);
    let total = Size::from(n).len();
    if total > MAX_ITEMS_LEN {
        None
    } else {
        Some(total)
    }
}

/// The length of the atoms of the items, taken together, where it is no
/// more than the highest length of the items of a tag.
pub fn items_len(items: &[MetaItem]) -> (r: Option<u64>)
    ensures
        match r {
            Some(n) => n == items_bytes(item_views(items@)).len() && n <= MAX_ITEMS_LEN,
            None => items_bytes(item_views(items@)).len() > MAX_ITEMS_LEN,
        },
{
    let ghost v = item_views(items@);
    let mut n: u64 = 0;
    let mut i: usize = 0;
    assert(items_bytes(v.take(0)).len() == 0);
    while i < items.len()
        invariant
            i <= items.len(),
            v == item_views(items@),
            n <= MAX_ITEMS_LEN,
            n == items_bytes(v.take(i as int)).len(),
        decreases items.len() - i,
    {
        proof {
            lemma_items_take(v, i as int);
        }
        let k = match item_len(&items[i]) {
            Some(k) => k,
            None => {
                return None;
            },
        };
        n = n + k;
        if n > MAX_ITEMS_LEN {
            return None;
        }
        i += 1;
    }
    assert(v.take(i as int) =~= v);
    Some(n)
}

/// The atoms that are written for the items into a file whose movie atom
/// was found as `moov`.
pub fn new_atoms(moov: &MoovBounds, items: &[MetaItem]) -> (r: Vec<u8>)
    requires
        items_bytes(item_views(items@)).len() <= MAX_ITEMS_LEN,
    ensures
        r@ == new_atoms_of(moov@, item_views(items@)),
        r@.len() <= MAX_ITEMS_LEN + 128,
{
    let ghost v = item_views(items@);
    let mut out: Vec<u8> = Vec::new();
    let ilst = Ilst::Borrowed(items);
    proof {
        reveal(Ilst::bytes);
        reveal(Hdlr::bytes);
        reveal(MetaView::bytes);
        reveal(UdtaView::bytes);
        lemma_boxed_bounds(Ident(ITEM_LIST), items_bytes(v));
        lemma_boxed_bounds(Ident(HANDLER_REFERENCE), canonical_hdlr());
        lemma_boxed_bounds(
            crate::ident::Ident(crate::ident::METADATA),
            fresh_meta(v).content_bytes(),
        );
        lemma_boxed_bounds(
            crate::ident::Ident(crate::ident::USER_DATA),
            (UdtaView { meta: Some(fresh_meta(v)) }).content_bytes(),
        );
    }
    let meta = match &moov.udta {
        Some(udta) => match &udta.meta {
            Some(meta) => {
                if meta.hdlr.is_none() {
                    Meta::hdlr().write(&mut out);
                }
                ilst.write(&mut out);
                assert(out@ =~= new_atoms_of(moov@, v));
                return out;
            },
            None => {
                let meta = Meta { hdlr: Some(Meta::hdlr()), ilst: Some(ilst) };
                assert(meta@ == fresh_meta(v));
                meta.write(&mut out);
                assert(out@ =~= new_atoms_of(moov@, v));
                return out;
            },
        },
        None => Meta { hdlr: Some(Meta::hdlr()), ilst: Some(ilst) },
    };
    assert(meta@ == fresh_meta(v));
    let udta = Udta { meta: Some(meta) };
    udta.write(&mut out);
    assert(out@ =~= new_atoms_of(moov@, v));
    out
}

/// The patches read so far, followed by what the rest gives.
pub open spec fn patch_on(done: Seq<PatchView>, rest: Result<Seq<PatchView>, ErrorView>) -> Result<
    Seq<PatchView>,
    ErrorView,
> {
    match rest {
        Ok(v) => Ok(done + v),
        Err(e) => Err(e),
    }
}

/// Adds to `patches` what is written over the head of the atom `a` where its
/// length changes by `d`.
pub fn push_size_patch(patches: &mut Vec<Patch>, a: &AtomBounds, d: i128, len: u64) -> (r: Result<
    (),
    Error,
>)
    requires
        a.wf(),
        a.spec_end() <= len,
        patches_inside(patch_views(old(patches)@), len as int),
        -0x1_0000_0000_0000_0000 < d < 0x1_0000_0000_0000_0000,
    ensures
        match r {
            Ok(_) => size_patch(*a, d as int) is Ok && patch_views(final(patches)@) == patch_views(
                old(patches)@,
            ) + size_patch(*a, d as int)->Ok_0 && patches_inside(
                patch_views(final(patches)@),
                len as int,
            ),
            Err(e) => size_patch(*a, d as int) == Err::<Seq<PatchView>, ErrorView>(e@),
        },
{
    let n: i128 = a.size.len as i128 + d;
    if n < a.size.head_len() as i128 || n > u64::MAX as i128 {
        return Err(
            Error::new(
                ErrorKind::Unsupported("Atom length out of range".to_owned()),
                "Atom length out of range",
            ),
        );
    }
    let ghost before = patch_views(patches@);
    if a.size.ext {
        let mut first: Vec<u8> = Vec::new();
        put_be_u32(&mut first, 1);
        let mut second: Vec<u8> = Vec::new();
        put_be_u64(&mut second, n as u64);
        assert(first@ =~= u32_be(1));
        assert(second@ =~= u64_be(n as u64));
        let at1 = Patch { pos: a.pos, bytes: first };
        let at2 = Patch { pos: a.pos + 8, bytes: second };
        patches.push(at1);
        patches.push(at2);
        assert(patch_views(patches@) =~= before + size_patch(*a, d as int)->Ok_0);
        Ok(())
    } else if n > u32::MAX as i128 {
        Err(
            Error::new(
                ErrorKind::Unsupported("Atom would need an extended head".to_owned()),
                "Atom would need an extended head",
            ),
        )
    } else {
        let mut bytes: Vec<u8> = Vec::new();
        put_be_u32(&mut bytes, n as u32);
        assert(bytes@ =~= u32_be(n as u32));
        patches.push(Patch { pos: a.pos, bytes });
        assert(patch_views(patches@) =~= before + size_patch(*a, d as int)->Ok_0);
        Ok(())
    }
}

/// What is written over the table of a chunk offset atom of the file: its
/// offsets moved by `d`.
pub fn stco_patch_of(file: &[u8], b: &StcoBounds, d: i128) -> (r: Result<Patch, Error>)
    requires
        b.bounds.wf(),
        file@.len() <= u64::MAX,
        -0x1_0000_0000_0000_0000 < d < 0x1_0000_0000_0000_0000,
    ensures
        view_of(r) == stco_patch(file@, *b, d as int),
        r is Ok ==> r->Ok_0@.pos + r->Ok_0@.bytes.len() <= file@.len(),
{
    proof {
        reveal(Stco::parsed);
    }
    let mut reader = Reader::new(file);
    match reader.seek(b.bounds.content_pos()) {
        Ok(_) => {},
        Err(e) => {
            return Err(e.annotate("parsing", Ident(SAMPLE_TABLE_CHUNK_OFFSET)));
        },
    }
    let stco = Stco::parse(&mut reader, &ReadConfig::all(), b.bounds.size)?;
    let ghost want = shift32(stco@.offsets, d as int);
    let mut bytes: Vec<u8> = Vec::new();
    let mut i: usize = 0;
    assert(bytes@ =~= table32_bytes(want.take(0)));
    while i < stco.offsets.len()
        invariant
            i <= stco.offsets.len(),
            -0x1_0000_0000_0000_0000 < d < 0x1_0000_0000_0000_0000,
            want == shift32(stco@.offsets, d as int),
            bytes@ == table32_bytes(want.take(i as int)),
        decreases stco.offsets.len() - i,
    {
        let v: i128 = stco.offsets[i] as i128 + d;
        let n: u32 = if v < 0 {
            0
        } else if v > u32::MAX as i128 {
            u32::MAX
        } else {
            v as u32
        };
        put_be_u32(&mut bytes, n);
        proof {
            let next = want.take(i + 1);
            assert(next.drop_last() =~= want.take(i as int));
            assert(bytes@ =~= table32_bytes(next));
        }
        i += 1;
    }
    proof {
        assert(want.take(i as int) =~= want);
        lemma_table32_len(want);
    }
    Ok(Patch { pos: stco.table_pos, bytes })
}

/// What is written over the table of a 64 bit chunk offset atom of the
/// file: its offsets moved by `d`.
pub fn co64_patch_of(file: &[u8], b: &Co64Bounds, d: i128) -> (r: Result<Patch, Error>)
    requires
        b.bounds.wf(),
        file@.len() <= u64::MAX,
        -0x1_0000_0000_0000_0000 < d < 0x1_0000_0000_0000_0000,
    ensures
        view_of(r) == co64_patch(file@, *b, d as int),
        r is Ok ==> r->Ok_0@.pos + r->Ok_0@.bytes.len() <= file@.len(),
{
    proof {
        reveal(Co64::parsed);
    }
    let mut reader = Reader::new(file);
    match reader.seek(b.bounds.content_pos()) {
        Ok(_) => {},
        Err(e) => {
            return Err(e.annotate("parsing", Ident(SAMPLE_TABLE_CHUNK_OFFSET_64)));
        },
    }
    let co64 = Co64::parse(&mut reader, &ReadConfig::all(), b.bounds.size)?;
    let ghost want = shift64(co64@.offsets, d as int);
    let mut bytes: Vec<u8> = Vec::new();
    let mut i: usize = 0;
    assert(bytes@ =~= table64_bytes(want.take(0)));
    while i < co64.offsets.len()
        invariant
            i <= co64.offsets.len(),
            -0x1_0000_0000_0000_0000 < d < 0x1_0000_0000_0000_0000,
            want == shift64(co64@.offsets, d as int),
            bytes@ == table64_bytes(want.take(i as int)),
        decreases co64.offsets.len() - i,
    {
        let v: i128 = co64.offsets[i] as i128 + d;
        let n: u64 = if v < 0 {
            (v + 0x1_0000_0000_0000_0000) as u64
        } else if v > u64::MAX as i128 {
            (v - 0x1_0000_0000_0000_0000) as u64
        } else {
            v as u64
        };
        assert(n == shifted64(co64.offsets[i as int], d as int));
        put_be_u64(&mut bytes, n);
        proof {
            let next = want.take(i + 1);
            assert(next.drop_last() =~= want.take(i as int));
            assert(bytes@ =~= table64_bytes(next));
        }
        i += 1;
    }
    proof {
        assert(want.take(i as int) =~= want);
        lemma_table64_len(want);
    }
    Ok(Patch { pos: co64.table_pos, bytes })
}

/// Adds to `patches` what is written over the chunk offsets of a track.
pub fn push_trak_patches(
    patches: &mut Vec<Patch>,
    file: &[u8],
    t: &TrakBounds,
    d: i128,
) -> (r: Result<(), Error>)
    requires
        t.nested(file@),
        file@.len() <= u64::MAX,
        patches_inside(patch_views(old(patches)@), file@.len() as int),
        -0x1_0000_0000_0000_0000 < d < 0x1_0000_0000_0000_0000,
    ensures
        match r {
            Ok(_) => trak_patches(file@, *t, d as int) is Ok && patch_views(final(patches)@)
                == patch_views(old(patches)@) + trak_patches(file@, *t, d as int)->Ok_0
                && patches_inside(patch_views(final(patches)@), file@.len() as int),
            Err(e) => trak_patches(file@, *t, d as int) == Err::<Seq<PatchView>, ErrorView>(e@),
        },
{
    let ghost before = patch_views(patches@);
    let stbl = match &t.mdia {
        Some(mdia) => match &mdia.minf {
            Some(minf) => match &minf.stbl {
                Some(stbl) => stbl,
                None => {
                    assert(before + Seq::<PatchView>::empty() =~= before);
                    return Ok(());
                },
            },
            None => {
                assert(before + Seq::<PatchView>::empty() =~= before);
                return Ok(());
            },
        },
        None => {
            assert(before + Seq::<PatchView>::empty() =~= before);
            return Ok(());
        },
    };
    match &stbl.stco {
        Some(b) => {
            let p = stco_patch_of(file, b, d)?;
            patches.push(p);
            assert(patch_views(patches@) =~= before + seq![p@]);
        },
        None => {
            assert(patch_views(patches@) =~= before + Seq::<PatchView>::empty());
        },
    }
    let ghost middle = patch_views(patches@);
    match &stbl.co64 {
        Some(b) => {
            let p = co64_patch_of(file, b, d)?;
            patches.push(p);
            assert(patch_views(patches@) =~= middle.push(p@));
            assert(patch_views(patches@) =~= before + trak_patches(file@, *t, d as int)->Ok_0);
        },
        None => {},
    }
    Ok(())
}

/// Adds to `patches` what is written over the chunk offsets of the tracks.
pub fn push_table_patches(
    patches: &mut Vec<Patch>,
    file: &[u8],
    traks: &Vec<TrakBounds>,
    d: i128,
) -> (r: Result<(), Error>)
    requires
        forall|i: int| 0 <= i < traks@.len() ==> (#[trigger] traks@[i]).nested(file@),
        file@.len() <= u64::MAX,
        old(patches)@.len() == 0,
        -0x1_0000_0000_0000_0000 < d < 0x1_0000_0000_0000_0000,
    ensures
        match r {
            Ok(_) => table_patches(file@, traks@, d as int, 0) == Ok::<Seq<PatchView>, ErrorView>(
                patch_views(final(patches)@),
            ) && patches_inside(patch_views(final(patches)@), file@.len() as int),
            Err(e) => table_patches(file@, traks@, d as int, 0) == Err::<
                Seq<PatchView>,
                ErrorView,
            >(e@),
        },
{
    let mut i: usize = 0;
    assert(patch_views(patches@) =~= Seq::empty());
    proof {
        match table_patches(file@, traks@, d as int, 0) {
            Ok(v) => assert(Seq::<PatchView>::empty() + v =~= v),
            Err(_) => {},
        }
    }
    while i < traks.len()
        invariant
            i <= traks.len(),
            forall|i: int| 0 <= i < traks@.len() ==> (#[trigger] traks@[i]).nested(file@),
            file@.len() <= u64::MAX,
            -0x1_0000_0000_0000_0000 < d < 0x1_0000_0000_0000_0000,
            patches_inside(patch_views(patches@), file@.len() as int),
            patch_on(patch_views(patches@), table_patches(file@, traks@, d as int, i as int))
                == table_patches(file@, traks@, d as int, 0),
        decreases traks.len() - i,
    {
        let ghost before = patch_views(patches@);
        match push_trak_patches(patches, file, &traks[i], d) {
            Ok(_) => {},
            Err(e) => {
                return Err(e);
            },
        }
        proof {
            let here = trak_patches(file@, traks@[i as int], d as int)->Ok_0;
            match table_patches(file@, traks@, d as int, i + 1) {
                Ok(rest) => assert(before + (here + rest) =~= (before + here) + rest),
                Err(_) => {},
            }
        }
        i += 1;
    }
    proof {
        assert(patch_views(patches@) + Seq::<PatchView>::empty() =~= patch_views(patches@));
    }
    Ok(())
}

/// Where the new atoms are written and from where on the bytes of the file
/// move.
pub fn anchors(moov: &MoovBounds) -> (r: (u64, u64))
    requires
        updates_ok(updates_of(moov@), u64::MAX as int),
        moov@.udta is Some && moov@.udta->0.meta is Some && moov@.udta->0.meta->0.ilst is Some
            ==> moov@.udta->0.meta->0.ilst->0.bounds.wf(),
    ensures
        r.0 == new_atoms_start_of(moov@),
        r.1 == moved_data_start_of(moov@),
{
    let ghost ups = updates_of(moov@);
    assert(ups[0].wf());
    match &moov.udta {
        None => (moov.bounds.end(), moov.bounds.end()),
        Some(udta) => {
            assert(ups[1].wf());
            match &udta.meta {
                None => (udta.bounds.end(), udta.bounds.end()),
                Some(meta) => {
                    assert(ups[2].wf());
                    match &meta.ilst {
                        None => (meta.bounds.end(), meta.bounds.end()),
                        Some(ilst) => (ilst.bounds.pos, ilst.bounds.end()),
                    }
                },
            }
        },
    }
}

/// The atoms whose length changes with the metadata, outermost first.
pub fn updates(moov: &MoovBounds) -> (r: Vec<AtomBounds>)
    ensures
        r@ == updates_of(moov@),
{
    let mut v: Vec<AtomBounds> = Vec::new();
    v.push(moov.bounds);
    match &moov.udta {
        Some(udta) => {
            v.push(udta.bounds);
            match &udta.meta {
                Some(meta) => {
                    v.push(meta.bounds);
                },
                None => {},
            }
        },
        None => {},
    }
    assert(v@ =~= updates_of(moov@));
    v
}

/// The atoms are well-formed and lie inside a file of `len` bytes.
pub open spec fn updates_ok(updates: Seq<AtomBounds>, len: int) -> bool {
    forall|i: int| 0 <= i < updates.len()
        ==> (#[trigger] updates[i]).wf() && updates[i].spec_end() <= len
}

/// The atoms around the metadata of a file are well-formed and lie inside
/// the file.
pub proof fn lemma_updates_ok(f: Seq<u8>, moov: MoovBoundsView)
    requires
        moov.nested(f),
    ensures
        updates_ok(updates_of(moov), f.len() as int),
        0 <= new_atoms_start_of(moov) <= moved_data_start_of(moov) <= moov.bounds.spec_end(),
        moov.bounds.spec_end() <= f.len(),
        forall|i: int| 0 <= i < moov.trak.len() ==> (#[trigger] moov.trak[i]).nested(f),
{
}

/// Adds to `patches` what is written over the heads of the atoms whose
/// length changes by `d`.
pub fn push_size_patches(
    patches: &mut Vec<Patch>,
    updates: &Vec<AtomBounds>,
    d: i128,
    len: u64,
) -> (r: Result<(), Error>)
    requires
        updates_ok(updates@, len as int),
        patches_inside(patch_views(old(patches)@), len as int),
        -0x1_0000_0000_0000_0000 < d < 0x1_0000_0000_0000_0000,
    ensures
        match r {
            Ok(_) => size_patches(updates@, d as int, 0) is Ok && patch_views(final(patches)@)
                == patch_views(old(patches)@) + size_patches(updates@, d as int, 0)->Ok_0
                && patches_inside(patch_views(final(patches)@), len as int),
            Err(e) => size_patches(updates@, d as int, 0) == Err::<Seq<PatchView>, ErrorView>(e@),
        },
{
    let ghost before = patch_views(patches@);
    let ghost done: Seq<PatchView> = Seq::empty();
    let mut i: usize = 0;
    proof {
        assert(before + done =~= before);
        match size_patches(updates@, d as int, 0) {
            Ok(v) => assert(done + v =~= v),
            Err(_) => {},
        }
    }
    while i < updates.len()
        invariant
            i <= updates.len(),
            updates_ok(updates@, len as int),
            -0x1_0000_0000_0000_0000 < d < 0x1_0000_0000_0000_0000,
            patches_inside(patch_views(patches@), len as int),
            patch_views(patches@) == before + done,
            patch_on(done, size_patches(updates@, d as int, i as int)) == size_patches(
                updates@,
                d as int,
                0,
            ),
        decreases updates.len() - i,
    {
        assert(updates@[i as int].wf());
        match push_size_patch(patches, &updates[i], d, len) {
            Ok(_) => {},
            Err(e) => {
                return Err(e);
            },
        }
        proof {
            let here = size_patch(updates@[i as int], d as int)->Ok_0;
            match size_patches(updates@, d as int, i + 1) {
                Ok(rest) => assert(done + (here + rest) =~= (done + here) + rest),
                Err(_) => {},
            }
            assert((before + done) + here =~= before + (done + here));
            done = done + here;
        }
        i += 1;
    }
    proof {
        assert(done + Seq::<PatchView>::empty() =~= done);
    }
    Ok(())
}

/// Makes the plan for the movie atom and the media data atom that were
/// found in the file.
pub fn plan_found(file: &[u8], found: Sweep, items: &[MetaItem]) -> (r: Result<Plan, Error>)
    requires
        found@.moov is Some,
        sweep_ok(found@, file@),
        file@.len() <= u64::MAX,
        items_bytes(item_views(items@)).len() <= MAX_ITEMS_LEN,
    ensures
        view_of(r) == plan_for(file@, found@, item_views(items@)),
        r is Ok ==> r->Ok_0@.valid_for(file@.len() as int),
{
    proof {
        reveal(plan_for);
    }
    let mdat_pos: u64 = match found.mdat {
        Some(m) => m.bounds.pos,
        None => 0,
    };
    let moov = match found.moov {
        Some(m) => m,
        None => {
            return Err(Error::eof());
        },
    };
    proof {
        lemma_updates_ok(file@, moov@);
    }
    let atoms = new_atoms(&moov, items);
    let (start, moved) = anchors(&moov);
    let d: i128 = atoms.len() as i128 - (moved - start) as i128;
    let mut patches: Vec<Patch> = Vec::new();
    assert(patch_views(patches@) =~= Seq::empty());
    if mdat_pos > moov.bounds.pos && d != 0 {
        match push_table_patches(&mut patches, file, &moov.trak, d) {
            Ok(_) => {},
            Err(e) => {
                return Err(e);
            },
        }
    }
    let ups = updates(&moov);
    match push_size_patches(&mut patches, &ups, d, file.len() as u64) {
        Ok(_) => {},
        Err(e) => {
            return Err(e);
        },
    }
    Ok(Plan { patches, new_atoms_start: start, moved_data_start: moved, new_atoms: atoms })
}

/// Makes the plan for giving the file the items as its metadata. Nothing is
/// written.
pub fn plan_rewrite(file: &[u8], items: &[MetaItem]) -> (r: Result<Plan, Error>)
    ensures
        view_of(r) == planned(file@, item_views(items@)),
        r is Ok ==> r->Ok_0@.valid_for(file@.len() as int),
{
    proof {
        reveal(planned);
    }
    let ghost f = file@;
    let mut reader = Reader::new(file);
    let _ = Ftyp::parse(&mut reader)?;
    let ghost after = reader.pos as int;
    let found = sweep(&mut reader)?;
    proof {
        lemma_swept_inside(f, after, SweepView { moov: None, mdat: None });
    }
    if found.moov.is_none() {
        return Err(
            Error::new(
                ErrorKind::AtomNotFound(Ident(MOVIE)),
                "Missing necessary data, no movie (moov) atom found",
            ),
        );
    }
    if items_len(items).is_none() {
        return Err(
            Error::new(ErrorKind::Unsupported("Metadata too long".to_owned()), "Metadata too long"),
        );
    }
    plan_found(file, found, items)
}

/// Writes `bytes` over the bytes of the file from position `pos` on.
pub fn overwrite(file: &mut Vec<u8>, pos: usize, bytes: &Vec<u8>)
    requires
        pos + bytes@.len() <= old(file)@.len(),
    ensures
        final(file)@ == overwritten(old(file)@, pos as int, bytes@),
{
    let mut i: usize = 0;
    let total = file.len();
    assert(file@ =~= overwritten(old(file)@, pos as int, bytes@.take(0)));
    while i < bytes.len()
        invariant
            i <= bytes.len(),
            total == file@.len(),
            pos + bytes@.len() <= old(file)@.len(),
            file@.len() == old(file)@.len(),
            file@ == overwritten(old(file)@, pos as int, bytes@.take(i as int)),
        decreases bytes.len() - i,
    {
        file.set(pos + i, bytes[i]);
        assert(file@ =~= overwritten(old(file)@, pos as int, bytes@.take(i + 1)));
        i += 1;
    }
    assert(bytes@.take(i as int) =~= bytes@);
}

impl Plan {
    /// Carries out the plan on the file that it was made for: the bytes from
    /// where the moved data starts are kept, the patches are written, the
    /// file is cut where the new atoms start, and the new atoms and the
    /// bytes that were kept are added.
    pub fn apply(&self, file: &mut Vec<u8>)
        requires
            self@.valid_for(old(file)@.len() as int),
        ensures
            final(file)@ == self@.applied(old(file)@),
    {
        let n = file.len();
        let start = self.new_atoms_start as usize;
        let moved = self.moved_data_start as usize;
        let trailer = slice_to_vec(slice_subrange(file.as_slice(), moved, n));
        let ghost all = patch_views(self.patches@);
        let mut i: usize = 0;
        assert(all.take(0) =~= Seq::empty());
        while i < self.patches.len()
            invariant
                i <= self.patches.len(),
                n == old(file)@.len(),
                all == patch_views(self.patches@),
                patches_inside(all, old(file)@.len() as int),
                file@.len() == old(file)@.len(),
                file@ == patched(old(file)@, all.take(i as int)),
            decreases self.patches.len() - i,
        {
            let p = &self.patches[i];
            assert(all[i as int] == p@);
            proof {
                assert(all.take(i + 1).drop_last() =~= all.take(i as int));
                assert(all.take(i + 1).last() == all[i as int]);
                assert(all[i as int].pos + all[i as int].bytes.len() <= old(file)@.len());
            }
            overwrite(file, p.pos as usize, &p.bytes);
            i += 1;
        }
        assert(all.take(i as int) =~= all);
        file.truncate(start);
        file.extend_from_slice(self.new_atoms.as_slice());
        file.extend_from_slice(trailer.as_slice());
        assert(file@ =~= self@.applied(old(file)@));
    }
}

/// Gives the file the items as its metadata: the item list of the file is
/// replaced by one with the items, the atoms that should hold it are made
/// where the file lacks them, the lengths of the atoms around it follow, and
/// the chunk offsets move with the media data. Where it cannot be done the
/// file stays as it is.
pub fn write_tag_to(file: &mut Vec<u8>, items: &[MetaItem]) -> (r: Result<(), Error>)
    ensures
        match rewritten(old(file)@, item_views(items@)) {
            Ok(g) => r is Ok && final(file)@ == g,
            Err(e) => r is Err && r->Err_0@ == e && final(file)@ == old(file)@,
        },
{
    let plan = match plan_rewrite(file.as_slice(), items) {
        Ok(p) => p,
        Err(e) => {
            return Err(e);
        },
    };
    plan.apply(file);
    Ok(())
}

/// The content of the file type atom of a dump: the brand `M4A `, a minor
/// version, and the compatible brands `isom` and `iso2`.
pub open spec fn dump_brand() -> Seq<u8> {
    seq![
        0x4du8, 0x34u8, 0x41u8, 0x20u8, 0u8, 0u8, 2u8, 0u8, 0x69u8, 0x73u8, 0x6fu8, 0x6du8, 0x69u8,
        0x73u8, 0x6fu8, 0x32u8,
    ]
}

/// The movie of a dump: nothing but the user data with the metadata atom
/// that holds the items.
pub open spec fn dump_movie(items: Seq<MetaItemView>) -> crate::atom::moov::MoovView {
    crate::atom::moov::MoovView {
        mvhd: None,
        trak: Seq::empty(),
        udta: Some(UdtaView { meta: Some(fresh_meta(items)) }),
    }
}

/// The bytes of a dump of the items: a file type atom, and a movie atom
/// that holds the items and nothing else. It is no file that can be played.
pub open spec fn dumped(items: Seq<MetaItemView>) -> Result<Seq<u8>, ErrorView> {
    if items_bytes(items).len() > MAX_ITEMS_LEN {
        Err(unsupported("Metadata too long"))
    } else {
        Ok(
            crate::atom::base::boxed(Ident(crate::ident::FILE_TYPE), dump_brand()) + dump_movie(
                items,
            ).bytes(),
        )
    }
}

/// Writes a dump of the items: a file type atom with the brand `M4A `, and a
/// movie atom that holds the items and nothing else. Where the items are too
/// long nothing is written.
pub fn dump_tag_to(out: &mut Vec<u8>, items: &[MetaItem]) -> (r: Result<(), Error>)
    ensures
        match dumped(item_views(items@)) {
            Ok(b) => r is Ok && final(out)@ == old(out)@ + b,
            Err(e) => r is Err && r->Err_0@ == e && final(out)@ == old(out)@,
        },
{
    if items_len(items).is_none() {
        return Err(
            Error::new(ErrorKind::Unsupported("Metadata too long".to_owned()), "Metadata too long"),
        );
    }
    let ghost v = item_views(items@);
    let mut brand: Vec<u8> = Vec::new();
    put_be_u32(&mut brand, 0x4d34_4120);
    put_be_u32(&mut brand, 0x0000_0200);
    put_be_u32(&mut brand, 0x6973_6f6d);
    put_be_u32(&mut brand, 0x6973_6f32);
    assert(brand@ =~= dump_brand());
    crate::atom::base::write_boxed(out, Ident(crate::ident::FILE_TYPE), &brand);
    let meta = Meta { hdlr: Some(Meta::hdlr()), ilst: Some(Ilst::Borrowed(items)) };
    assert(meta@ == fresh_meta(v));
    let moov = Moov { mvhd: None, trak: Vec::new(), udta: Some(Udta { meta: Some(meta) }) };
    assert(moov@.trak =~= Seq::empty());
    assert(moov@ == dump_movie(v));
    proof {
        reveal(Ilst::bytes);
        reveal(Hdlr::bytes);
        reveal(MetaView::bytes);
        reveal(UdtaView::bytes);
        lemma_boxed_bounds(Ident(ITEM_LIST), items_bytes(v));
        lemma_boxed_bounds(Ident(HANDLER_REFERENCE), canonical_hdlr());
        lemma_boxed_bounds(Ident(crate::ident::METADATA), fresh_meta(v).content_bytes());
        lemma_boxed_bounds(
            Ident(crate::ident::USER_DATA),
            (UdtaView { meta: Some(fresh_meta(v)) }).content_bytes(),
        );
        assert(crate::atom::moov::traks_bytes(Seq::empty()).len() == 0);
    }
    moov.write(out);
    assert(out@ =~= old(out)@ + dumped(v)->Ok_0);
    Ok(())
}

} // verus!
