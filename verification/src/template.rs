//! The templates by which the generic atom tree of a file is read.

use crate::atom::{AtomT, AtomTView};
use crate::content::{ContentT, ContentTView};
use crate::data::{DataT, RESERVED, UTF8};
use crate::ident::{ADVISORY_RATING, ALBUM, ALBUM_ARTIST, ARTIST, BPM};
use crate::ident::{CATEGORY, COMMENT, COMPILATION, COMPOSER, COPYRIGHT};
use crate::ident::{CUSTOM_GENRE, DESCRIPTION, DISC_NUMBER, ENCODER, GAPLESS_PLAYBACK};
use crate::ident::{GROUPING, KEYWORD, LYRICS, MEDIA_TYPE, MOVEMENT_COUNT};
use crate::ident::{MOVEMENT_INDEX, MOVEMENT_NAME, PODCAST, PODCAST_EPISODE_GLOBAL_UNIQUE_ID, PODCAST_URL};
use crate::ident::{PURCHASE_DATE, SHOW_MOVEMENT, STANDARD_GENRE, TITLE, TRACK_NUMBER};
use crate::ident::{TV_EPISODE, TV_EPISODE_NUMBER, TV_NETWORK_NAME, TV_SEASON, TV_SHOW_NAME};
use crate::ident::{WORK, YEAR, ARTWORK};
use crate::ident::{Ident, DATA, FILE_TYPE, ITEM_LIST, MEDIA, MEDIA_HEADER, METADATA, MOVIE};
use crate::ident::{TRACK, USER_DATA};
use vstd::prelude::*;

verus! {

/// The identifiers of the metadata items that are read, in the order of the
/// template.
pub open spec fn item_codes() -> Seq<u32> {
    seq![
        ADVISORY_RATING,
        ALBUM,
        ALBUM_ARTIST,
        ARTIST,
        BPM,
        CATEGORY,
        COMMENT,
        COMPILATION,
        COMPOSER,
        COPYRIGHT,
        CUSTOM_GENRE,
        DESCRIPTION,
        DISC_NUMBER,
        ENCODER,
        GAPLESS_PLAYBACK,
        GROUPING,
        KEYWORD,
        LYRICS,
        MEDIA_TYPE,
        MOVEMENT_COUNT,
        MOVEMENT_INDEX,
        MOVEMENT_NAME,
        PODCAST,
        PODCAST_EPISODE_GLOBAL_UNIQUE_ID,
        PODCAST_URL,
        PURCHASE_DATE,
        SHOW_MOVEMENT,
        STANDARD_GENRE,
        TITLE,
        TRACK_NUMBER,
        TV_EPISODE,
        TV_EPISODE_NUMBER,
        TV_NETWORK_NAME,
        TV_SEASON,
        TV_SHOW_NAME,
        WORK,
        YEAR,
        ARTWORK,
    ]
}

/// The template of a `data` atom.
pub open spec fn data_template() -> AtomTView {
    AtomTView { ident: Ident(DATA), offset: 0, content: ContentTView::TypedData }
}

/// The template of a metadata item with the identifier `code`: an atom that
/// holds a `data` atom.
pub open spec fn item_template(code: u32) -> AtomTView {
    AtomTView {
        ident: Ident(code),
        offset: 0,
        content: ContentTView::Atoms(seq![data_template()]),
    }
}

/// The templates of the metadata items with the identifiers `codes`.
pub open spec fn item_templates(codes: Seq<u32>) -> Seq<AtomTView> {
    Seq::new(codes.len(), |i: int| item_template(codes[i]))
}

/// An atom template that holds the one child template `child`.
pub open spec fn parent_of(code: u32, offset: usize, child: AtomTView) -> AtomTView {
    AtomTView { ident: Ident(code), offset, content: ContentTView::Atoms(seq![child]) }
}

/// The template of the file type atom: `ftyp`, which holds UTF-8 text with
/// no type in front of it.
pub open spec fn filetype_template() -> AtomTView {
    AtomTView {
        ident: Ident(FILE_TYPE),
        offset: 0,
        content: ContentTView::RawData(DataT { code: UTF8 }),
    }
}

/// The template of the atoms that lead to the media header of a track:
/// `trak`, `mdia` and `mdhd`, whose content is read as bytes.
pub open spec fn track_template() -> AtomTView {
    parent_of(
        TRACK,
        0,
        parent_of(
            MEDIA,
            0,
            AtomTView {
                ident: Ident(MEDIA_HEADER),
                offset: 0,
                content: ContentTView::RawData(DataT { code: RESERVED }),
            },
        ),
    )
}

/// The template of the atoms that lead to the metadata item list: `udta`,
/// `meta` with its four bytes of version and flags, and `ilst` with the
/// templates `items`.
pub open spec fn user_data_template(items: Seq<AtomTView>) -> AtomTView {
    parent_of(
        USER_DATA,
        0,
        parent_of(
            METADATA,
            4,
            AtomTView { ident: Ident(ITEM_LIST), offset: 0, content: ContentTView::Atoms(items) },
        ),
    )
}

/// The template of all that is read of a file: `moov` with the track and the
/// user data that it holds.
pub open spec fn metadata_template() -> AtomTView {
    AtomTView {
        ident: Ident(MOVIE),
        offset: 0,
        content: ContentTView::Atoms(
            seq![track_template(), user_data_template(item_templates(item_codes()))],
        ),
    }
}

/// The template of what leads to the item list: `moov`, `udta`, `meta` and
/// an `ilst` without item templates.
pub open spec fn item_list_template() -> AtomTView {
    parent_of(MOVIE, 0, user_data_template(Seq::empty()))
}

/// The template by which the file type atom is read.
pub fn filetype_atom() -> (r: AtomT)
    ensures
        r@ == filetype_template(),
{
    AtomT::with_raw_data(Ident(FILE_TYPE), 0, DataT::with(UTF8))
}

/// The template by which the metadata of a file is read: the media header of
/// the track, and each metadata item of the item list that has one of the
/// known identifiers.
pub fn metadata_atom() -> (r: AtomT)
    ensures
        r@ == metadata_template(),
{
    let codes: [u32; 38] = [
        ADVISORY_RATING,
        ALBUM,
        ALBUM_ARTIST,
        ARTIST,
        BPM,
        CATEGORY,
        COMMENT,
        COMPILATION,
        COMPOSER,
        COPYRIGHT,
        CUSTOM_GENRE,
        DESCRIPTION,
        DISC_NUMBER,
        ENCODER,
        GAPLESS_PLAYBACK,
        GROUPING,
        KEYWORD,
        LYRICS,
        MEDIA_TYPE,
        MOVEMENT_COUNT,
        MOVEMENT_INDEX,
        MOVEMENT_NAME,
        PODCAST,
        PODCAST_EPISODE_GLOBAL_UNIQUE_ID,
        PODCAST_URL,
        PURCHASE_DATE,
        SHOW_MOVEMENT,
        STANDARD_GENRE,
        TITLE,
        TRACK_NUMBER,
        TV_EPISODE,
        TV_EPISODE_NUMBER,
        TV_NETWORK_NAME,
        TV_SEASON,
        TV_SHOW_NAME,
        WORK,
        YEAR,
        ARTWORK,
    ];
    assert(codes@ =~= item_codes());
    let mut items = ContentT::atoms_t();
    let mut i: usize = 0;
    assert(items@->Atoms_0 =~= item_templates(codes@.take(0)));
    while i < 38
        invariant
            i <= 38,
            codes@ == item_codes(),
            items@ == ContentTView::Atoms(item_templates(codes@.take(i as int))),
        decreases 38 - i,
    {
        let ghost before = items@->Atoms_0;
        items = items.add_atom_t_with(Ident(codes[i]), 0, ContentT::data_atom_t());
        assert(items@->Atoms_0 =~= item_templates(codes@.take(i + 1)));
        i += 1;
    }
    assert(codes@.take(38) =~= codes@);
    let track = ContentT::atoms_t().add_atom_t_with(
        Ident(MEDIA),
        0,
        ContentT::atoms_t().add_atom_t_with(
            Ident(MEDIA_HEADER),
            0,
            ContentT::RawData(DataT::with(RESERVED)),
        ),
    );
    let user_data = ContentT::atoms_t().add_atom_t_with(
        Ident(METADATA),
        4,
        ContentT::atoms_t().add_atom_t_with(Ident(ITEM_LIST), 0, items),
    );
    let r = AtomT::with(
        Ident(MOVIE),
        0,
        ContentT::atoms_t().add_atom_t_with(Ident(TRACK), 0, track).add_atom_t_with(
            Ident(USER_DATA),
            0,
            user_data,
        ),
    );
    proof {
        let e = Seq::<AtomTView>::empty();
        assert forall|a: AtomTView| #[trigger] e.push(a) =~= seq![a] by {}
        assert forall|a: AtomTView, b: AtomTView| #[trigger] e.push(a).push(b) =~= seq![a, b] by {}
        assert(r@.content->Atoms_0 =~= metadata_template().content->Atoms_0);
    }
    r
}

/// The template by which the item list of a file is found: the atoms that
/// lead to it, and no template for what it holds.
pub fn item_list_atom_t() -> (r: AtomT)
    ensures
        r@ == item_list_template(),
{
    AtomT::with(
        Ident(MOVIE),
        0,
        ContentT::atom_t_with(
            Ident(USER_DATA),
            0,
            ContentT::atom_t_with(
                Ident(METADATA),
                4,
                ContentT::atom_t_with(Ident(ITEM_LIST), 0, ContentT::atoms_t()),
            ),
        ),
    )
}

} // verus!
