//! The named values of a tag: for each, what reads it, what sets it and
//! what removes it.

use crate::ident::{ALBUM, ALBUM_ARTIST, ARTIST, BPM, COMMENT};
use crate::ident::{COMPILATION, COMPOSER, COPYRIGHT, DESCRIPTION, ENCODER};
use crate::ident::{GAPLESS_PLAYBACK, GROUPING, LYRICS, MOVEMENT_COUNT, MOVEMENT_INDEX};
use crate::ident::{MOVEMENT_NAME, PODCAST, SHOW_MOVEMENT, TITLE, TV_EPISODE};
use crate::ident::{TV_EPISODE_NUMBER, TV_NETWORK_NAME, TV_SEASON, TV_SHOW_NAME, WORK};
use crate::ident::{YEAR};
use crate::codec::u16_be;
use crate::data::DataView;
use crate::ident::{DataIdent, Ident};
use crate::tag::{first_flag, first_text, first_u16, fourcc, str_views, texts, Tag};
use vstd::prelude::*;

verus! {

impl Tag {
    /// All artists (`©ART`).
    pub fn artists(&self) -> (r: Vec<&str>)
        ensures
            str_views(r@) == texts(self@.data(fourcc(ARTIST))),
    {
        self.strings(&DataIdent::Fourcc(Ident(ARTIST)))
    }

    /// The first artist (`©ART`).
    pub fn artist(&self) -> (r: Option<&str>)
        ensures
            match first_text(self@.data(fourcc(ARTIST)), 0) {
                Some(s) => r is Some && r->0@ == s,
                None => r is None,
            },
    {
        self.string(&DataIdent::Fourcc(Ident(ARTIST)))
    }

    /// Sets the artist (`©ART`), which removes all other artists.
    pub fn set_artist(&mut self, artist: &str)
        ensures
            final(self)@ == old(self)@.set(fourcc(ARTIST), DataView::Utf8(artist@)),
    {
        self.set_string(DataIdent::Fourcc(Ident(ARTIST)), artist);
    }

    /// Adds one more artist (`©ART`).
    pub fn add_artist(&mut self, artist: &str)
        ensures
            final(self)@ == old(self)@.added(fourcc(ARTIST), DataView::Utf8(artist@)),
    {
        self.add_string(DataIdent::Fourcc(Ident(ARTIST)), artist);
    }

    /// Removes the artists (`©ART`).
    pub fn remove_artists(&mut self)
        ensures
            final(self)@ == old(self)@.removed(fourcc(ARTIST)),
    {
        self.remove(&DataIdent::Fourcc(Ident(ARTIST)));
    }

    /// All album artists (`aART`).
    pub fn album_artists(&self) -> (r: Vec<&str>)
        ensures
            str_views(r@) == texts(self@.data(fourcc(ALBUM_ARTIST))),
    {
        self.strings(&DataIdent::Fourcc(Ident(ALBUM_ARTIST)))
    }

    /// The first album artist (`aART`).
    pub fn album_artist(&self) -> (r: Option<&str>)
        ensures
            match first_text(self@.data(fourcc(ALBUM_ARTIST)), 0) {
                Some(s) => r is Some && r->0@ == s,
                None => r is None,
            },
    {
        self.string(&DataIdent::Fourcc(Ident(ALBUM_ARTIST)))
    }

    /// Sets the album artist (`aART`), which removes all other album artists.
    pub fn set_album_artist(&mut self, album_artist: &str)
        ensures
            final(self)@ == old(self)@.set(fourcc(ALBUM_ARTIST), DataView::Utf8(album_artist@)),
    {
        self.set_string(DataIdent::Fourcc(Ident(ALBUM_ARTIST)), album_artist);
    }

    /// Adds one more album artist (`aART`).
    pub fn add_album_artist(&mut self, album_artist: &str)
        ensures
            final(self)@ == old(self)@.added(fourcc(ALBUM_ARTIST), DataView::Utf8(album_artist@)),
    {
        self.add_string(DataIdent::Fourcc(Ident(ALBUM_ARTIST)), album_artist);
    }

    /// Removes the album artists (`aART`).
    pub fn remove_album_artists(&mut self)
        ensures
            final(self)@ == old(self)@.removed(fourcc(ALBUM_ARTIST)),
    {
        self.remove(&DataIdent::Fourcc(Ident(ALBUM_ARTIST)));
    }

    /// All composers (`©wrt`).
    pub fn composers(&self) -> (r: Vec<&str>)
        ensures
            str_views(r@) == texts(self@.data(fourcc(COMPOSER))),
    {
        self.strings(&DataIdent::Fourcc(Ident(COMPOSER)))
    }

    /// The first composer (`©wrt`).
    pub fn composer(&self) -> (r: Option<&str>)
        ensures
            match first_text(self@.data(fourcc(COMPOSER)), 0) {
                Some(s) => r is Some && r->0@ == s,
                None => r is None,
            },
    {
        self.string(&DataIdent::Fourcc(Ident(COMPOSER)))
    }

    /// Sets the composer (`©wrt`), which removes all other composers.
    pub fn set_composer(&mut self, composer: &str)
        ensures
            final(self)@ == old(self)@.set(fourcc(COMPOSER), DataView::Utf8(composer@)),
    {
        self.set_string(DataIdent::Fourcc(Ident(COMPOSER)), composer);
    }

    /// Adds one more composer (`©wrt`).
    pub fn add_composer(&mut self, composer: &str)
        ensures
            final(self)@ == old(self)@.added(fourcc(COMPOSER), DataView::Utf8(composer@)),
    {
        self.add_string(DataIdent::Fourcc(Ident(COMPOSER)), composer);
    }

    /// Removes the composers (`©wrt`).
    pub fn remove_composers(&mut self)
        ensures
            final(self)@ == old(self)@.removed(fourcc(COMPOSER)),
    {
        self.remove(&DataIdent::Fourcc(Ident(COMPOSER)));
    }

    /// The title (`©nam`).
    pub fn title(&self) -> (r: Option<&str>)
        ensures
            match first_text(self@.data(fourcc(TITLE)), 0) {
                Some(s) => r is Some && r->0@ == s,
                None => r is None,
            },
    {
        self.string(&DataIdent::Fourcc(Ident(TITLE)))
    }

    /// Sets the title (`©nam`).
    pub fn set_title(&mut self, title: &str)
        ensures
            final(self)@ == old(self)@.set(fourcc(TITLE), DataView::Utf8(title@)),
    {
        self.set_string(DataIdent::Fourcc(Ident(TITLE)), title);
    }

    /// Removes the title (`©nam`).
    pub fn remove_title(&mut self)
        ensures
            final(self)@ == old(self)@.removed(fourcc(TITLE)),
    {
        self.remove(&DataIdent::Fourcc(Ident(TITLE)));
    }

    /// The album (`©alb`).
    pub fn album(&self) -> (r: Option<&str>)
        ensures
            match first_text(self@.data(fourcc(ALBUM)), 0) {
                Some(s) => r is Some && r->0@ == s,
                None => r is None,
            },
    {
        self.string(&DataIdent::Fourcc(Ident(ALBUM)))
    }

    /// Sets the album (`©alb`).
    pub fn set_album(&mut self, album: &str)
        ensures
            final(self)@ == old(self)@.set(fourcc(ALBUM), DataView::Utf8(album@)),
    {
        self.set_string(DataIdent::Fourcc(Ident(ALBUM)), album);
    }

    /// Removes the album (`©alb`).
    pub fn remove_album(&mut self)
        ensures
            final(self)@ == old(self)@.removed(fourcc(ALBUM)),
    {
        self.remove(&DataIdent::Fourcc(Ident(ALBUM)));
    }

    /// The copyright (`cprt`).
    pub fn copyright(&self) -> (r: Option<&str>)
        ensures
            match first_text(self@.data(fourcc(COPYRIGHT)), 0) {
                Some(s) => r is Some && r->0@ == s,
                None => r is None,
            },
    {
        self.string(&DataIdent::Fourcc(Ident(COPYRIGHT)))
    }

    /// Sets the copyright (`cprt`).
    pub fn set_copyright(&mut self, copyright: &str)
        ensures
            final(self)@ == old(self)@.set(fourcc(COPYRIGHT), DataView::Utf8(copyright@)),
    {
        self.set_string(DataIdent::Fourcc(Ident(COPYRIGHT)), copyright);
    }

    /// Removes the copyright (`cprt`).
    pub fn remove_copyright(&mut self)
        ensures
            final(self)@ == old(self)@.removed(fourcc(COPYRIGHT)),
    {
        self.remove(&DataIdent::Fourcc(Ident(COPYRIGHT)));
    }

    /// The encoder (`©too`).
    pub fn encoder(&self) -> (r: Option<&str>)
        ensures
            match first_text(self@.data(fourcc(ENCODER)), 0) {
                Some(s) => r is Some && r->0@ == s,
                None => r is None,
            },
    {
        self.string(&DataIdent::Fourcc(Ident(ENCODER)))
    }

    /// Sets the encoder (`©too`).
    pub fn set_encoder(&mut self, encoder: &str)
        ensures
            final(self)@ == old(self)@.set(fourcc(ENCODER), DataView::Utf8(encoder@)),
    {
        self.set_string(DataIdent::Fourcc(Ident(ENCODER)), encoder);
    }

    /// Removes the encoder (`©too`).
    pub fn remove_encoder(&mut self)
        ensures
            final(self)@ == old(self)@.removed(fourcc(ENCODER)),
    {
        self.remove(&DataIdent::Fourcc(Ident(ENCODER)));
    }

    /// The comment (`©cmt`).
    pub fn comment(&self) -> (r: Option<&str>)
        ensures
            match first_text(self@.data(fourcc(COMMENT)), 0) {
                Some(s) => r is Some && r->0@ == s,
                None => r is None,
            },
    {
        self.string(&DataIdent::Fourcc(Ident(COMMENT)))
    }

    /// Sets the comment (`©cmt`).
    pub fn set_comment(&mut self, comment: &str)
        ensures
            final(self)@ == old(self)@.set(fourcc(COMMENT), DataView::Utf8(comment@)),
    {
        self.set_string(DataIdent::Fourcc(Ident(COMMENT)), comment);
    }

    /// Removes the comment (`©cmt`).
    pub fn remove_comment(&mut self)
        ensures
            final(self)@ == old(self)@.removed(fourcc(COMMENT)),
    {
        self.remove(&DataIdent::Fourcc(Ident(COMMENT)));
    }

    /// The description (`desc`).
    pub fn description(&self) -> (r: Option<&str>)
        ensures
            match first_text(self@.data(fourcc(DESCRIPTION)), 0) {
                Some(s) => r is Some && r->0@ == s,
                None => r is None,
            },
    {
        self.string(&DataIdent::Fourcc(Ident(DESCRIPTION)))
    }

    /// Sets the description (`desc`).
    pub fn set_description(&mut self, description: &str)
        ensures
            final(self)@ == old(self)@.set(fourcc(DESCRIPTION), DataView::Utf8(description@)),
    {
        self.set_string(DataIdent::Fourcc(Ident(DESCRIPTION)), description);
    }

    /// Removes the description (`desc`).
    pub fn remove_description(&mut self)
        ensures
            final(self)@ == old(self)@.removed(fourcc(DESCRIPTION)),
    {
        self.remove(&DataIdent::Fourcc(Ident(DESCRIPTION)));
    }

    /// The grouping (`©grp`).
    pub fn grouping(&self) -> (r: Option<&str>)
        ensures
            match first_text(self@.data(fourcc(GROUPING)), 0) {
                Some(s) => r is Some && r->0@ == s,
                None => r is None,
            },
    {
        self.string(&DataIdent::Fourcc(Ident(GROUPING)))
    }

    /// Sets the grouping (`©grp`).
    pub fn set_grouping(&mut self, grouping: &str)
        ensures
            final(self)@ == old(self)@.set(fourcc(GROUPING), DataView::Utf8(grouping@)),
    {
        self.set_string(DataIdent::Fourcc(Ident(GROUPING)), grouping);
    }

    /// Removes the grouping (`©grp`).
    pub fn remove_grouping(&mut self)
        ensures
            final(self)@ == old(self)@.removed(fourcc(GROUPING)),
    {
        self.remove(&DataIdent::Fourcc(Ident(GROUPING)));
    }

    /// The lyrics (`©lyr`).
    pub fn lyrics(&self) -> (r: Option<&str>)
        ensures
            match first_text(self@.data(fourcc(LYRICS)), 0) {
                Some(s) => r is Some && r->0@ == s,
                None => r is None,
            },
    {
        self.string(&DataIdent::Fourcc(Ident(LYRICS)))
    }

    /// Sets the lyrics (`©lyr`).
    pub fn set_lyrics(&mut self, lyrics: &str)
        ensures
            final(self)@ == old(self)@.set(fourcc(LYRICS), DataView::Utf8(lyrics@)),
    {
        self.set_string(DataIdent::Fourcc(Ident(LYRICS)), lyrics);
    }

    /// Removes the lyrics (`©lyr`).
    pub fn remove_lyrics(&mut self)
        ensures
            final(self)@ == old(self)@.removed(fourcc(LYRICS)),
    {
        self.remove(&DataIdent::Fourcc(Ident(LYRICS)));
    }

    /// The year (`©day`).
    pub fn year(&self) -> (r: Option<&str>)
        ensures
            match first_text(self@.data(fourcc(YEAR)), 0) {
                Some(s) => r is Some && r->0@ == s,
                None => r is None,
            },
    {
        self.string(&DataIdent::Fourcc(Ident(YEAR)))
    }

    /// Sets the year (`©day`).
    pub fn set_year(&mut self, year: &str)
        ensures
            final(self)@ == old(self)@.set(fourcc(YEAR), DataView::Utf8(year@)),
    {
        self.set_string(DataIdent::Fourcc(Ident(YEAR)), year);
    }

    /// Removes the year (`©day`).
    pub fn remove_year(&mut self)
        ensures
            final(self)@ == old(self)@.removed(fourcc(YEAR)),
    {
        self.remove(&DataIdent::Fourcc(Ident(YEAR)));
    }

    /// The tv show name (`tvsh`).
    pub fn tv_show_name(&self) -> (r: Option<&str>)
        ensures
            match first_text(self@.data(fourcc(TV_SHOW_NAME)), 0) {
                Some(s) => r is Some && r->0@ == s,
                None => r is None,
            },
    {
        self.string(&DataIdent::Fourcc(Ident(TV_SHOW_NAME)))
    }

    /// Sets the tv show name (`tvsh`).
    pub fn set_tv_show_name(&mut self, tv_show_name: &str)
        ensures
            final(self)@ == old(self)@.set(fourcc(TV_SHOW_NAME), DataView::Utf8(tv_show_name@)),
    {
        self.set_string(DataIdent::Fourcc(Ident(TV_SHOW_NAME)), tv_show_name);
    }

    /// Removes the tv show name (`tvsh`).
    pub fn remove_tv_show_name(&mut self)
        ensures
            final(self)@ == old(self)@.removed(fourcc(TV_SHOW_NAME)),
    {
        self.remove(&DataIdent::Fourcc(Ident(TV_SHOW_NAME)));
    }

    /// The tv episode number (`tven`).
    pub fn tv_episode_number(&self) -> (r: Option<&str>)
        ensures
            match first_text(self@.data(fourcc(TV_EPISODE_NUMBER)), 0) {
                Some(s) => r is Some && r->0@ == s,
                None => r is None,
            },
    {
        self.string(&DataIdent::Fourcc(Ident(TV_EPISODE_NUMBER)))
    }

    /// Sets the tv episode number (`tven`).
    pub fn set_tv_episode_number(&mut self, tv_episode_number: &str)
        ensures
            final(self)@
                == old(self)@.set(fourcc(TV_EPISODE_NUMBER), DataView::Utf8(tv_episode_number@)),
    {
        self.set_string(DataIdent::Fourcc(Ident(TV_EPISODE_NUMBER)), tv_episode_number);
    }

    /// Removes the tv episode number (`tven`).
    pub fn remove_tv_episode_number(&mut self)
        ensures
            final(self)@ == old(self)@.removed(fourcc(TV_EPISODE_NUMBER)),
    {
        self.remove(&DataIdent::Fourcc(Ident(TV_EPISODE_NUMBER)));
    }

    /// The tv network name (`tvnn`).
    pub fn tv_network_name(&self) -> (r: Option<&str>)
        ensures
            match first_text(self@.data(fourcc(TV_NETWORK_NAME)), 0) {
                Some(s) => r is Some && r->0@ == s,
                None => r is None,
            },
    {
        self.string(&DataIdent::Fourcc(Ident(TV_NETWORK_NAME)))
    }

    /// Sets the tv network name (`tvnn`).
    pub fn set_tv_network_name(&mut self, tv_network_name: &str)
        ensures
            final(self)@
                == old(self)@.set(fourcc(TV_NETWORK_NAME), DataView::Utf8(tv_network_name@)),
    {
        self.set_string(DataIdent::Fourcc(Ident(TV_NETWORK_NAME)), tv_network_name);
    }

    /// Removes the tv network name (`tvnn`).
    pub fn remove_tv_network_name(&mut self)
        ensures
            final(self)@ == old(self)@.removed(fourcc(TV_NETWORK_NAME)),
    {
        self.remove(&DataIdent::Fourcc(Ident(TV_NETWORK_NAME)));
    }

    /// The movement name (`©mvn`).
    pub fn movement_name(&self) -> (r: Option<&str>)
        ensures
            match first_text(self@.data(fourcc(MOVEMENT_NAME)), 0) {
                Some(s) => r is Some && r->0@ == s,
                None => r is None,
            },
    {
        self.string(&DataIdent::Fourcc(Ident(MOVEMENT_NAME)))
    }

    /// Sets the movement name (`©mvn`).
    pub fn set_movement_name(&mut self, movement_name: &str)
        ensures
            final(self)@ == old(self)@.set(fourcc(MOVEMENT_NAME), DataView::Utf8(movement_name@)),
    {
        self.set_string(DataIdent::Fourcc(Ident(MOVEMENT_NAME)), movement_name);
    }

    /// Removes the movement name (`©mvn`).
    pub fn remove_movement_name(&mut self)
        ensures
            final(self)@ == old(self)@.removed(fourcc(MOVEMENT_NAME)),
    {
        self.remove(&DataIdent::Fourcc(Ident(MOVEMENT_NAME)));
    }

    /// The work (`©wrk`).
    pub fn work(&self) -> (r: Option<&str>)
        ensures
            match first_text(self@.data(fourcc(WORK)), 0) {
                Some(s) => r is Some && r->0@ == s,
                None => r is None,
            },
    {
        self.string(&DataIdent::Fourcc(Ident(WORK)))
    }

    /// Sets the work (`©wrk`).
    pub fn set_work(&mut self, work: &str)
        ensures
            final(self)@ == old(self)@.set(fourcc(WORK), DataView::Utf8(work@)),
    {
        self.set_string(DataIdent::Fourcc(Ident(WORK)), work);
    }

    /// Removes the work (`©wrk`).
    pub fn remove_work(&mut self)
        ensures
            final(self)@ == old(self)@.removed(fourcc(WORK)),
    {
        self.remove(&DataIdent::Fourcc(Ident(WORK)));
    }

    /// The bpm (`tmpo`).
    pub fn bpm(&self) -> (r: Option<u16>)
        ensures
            r == first_u16(self@.data(fourcc(BPM))),
    {
        self.u16_value(&DataIdent::Fourcc(Ident(BPM)))
    }

    /// Sets the bpm (`tmpo`).
    pub fn set_bpm(&mut self, bpm: u16)
        ensures
            final(self)@ == old(self)@.set(fourcc(BPM), DataView::BeSigned(u16_be(bpm))),
    {
        self.set_u16(DataIdent::Fourcc(Ident(BPM)), bpm);
    }

    /// Removes the bpm (`tmpo`).
    pub fn remove_bpm(&mut self)
        ensures
            final(self)@ == old(self)@.removed(fourcc(BPM)),
    {
        self.remove(&DataIdent::Fourcc(Ident(BPM)));
    }

    /// The tv season (`tvsn`).
    pub fn tv_season(&self) -> (r: Option<u16>)
        ensures
            r == first_u16(self@.data(fourcc(TV_SEASON))),
    {
        self.u16_value(&DataIdent::Fourcc(Ident(TV_SEASON)))
    }

    /// Sets the tv season (`tvsn`).
    pub fn set_tv_season(&mut self, tv_season: u16)
        ensures
            final(self)@
                == old(self)@.set(fourcc(TV_SEASON), DataView::BeSigned(u16_be(tv_season))),
    {
        self.set_u16(DataIdent::Fourcc(Ident(TV_SEASON)), tv_season);
    }

    /// Removes the tv season (`tvsn`).
    pub fn remove_tv_season(&mut self)
        ensures
            final(self)@ == old(self)@.removed(fourcc(TV_SEASON)),
    {
        self.remove(&DataIdent::Fourcc(Ident(TV_SEASON)));
    }

    /// The tv episode (`tves`).
    pub fn tv_episode(&self) -> (r: Option<u16>)
        ensures
            r == first_u16(self@.data(fourcc(TV_EPISODE))),
    {
        self.u16_value(&DataIdent::Fourcc(Ident(TV_EPISODE)))
    }

    /// Sets the tv episode (`tves`).
    pub fn set_tv_episode(&mut self, tv_episode: u16)
        ensures
            final(self)@
                == old(self)@.set(fourcc(TV_EPISODE), DataView::BeSigned(u16_be(tv_episode))),
    {
        self.set_u16(DataIdent::Fourcc(Ident(TV_EPISODE)), tv_episode);
    }

    /// Removes the tv episode (`tves`).
    pub fn remove_tv_episode(&mut self)
        ensures
            final(self)@ == old(self)@.removed(fourcc(TV_EPISODE)),
    {
        self.remove(&DataIdent::Fourcc(Ident(TV_EPISODE)));
    }

    /// The movement count (`©mvc`).
    pub fn movement_count(&self) -> (r: Option<u16>)
        ensures
            r == first_u16(self@.data(fourcc(MOVEMENT_COUNT))),
    {
        self.u16_value(&DataIdent::Fourcc(Ident(MOVEMENT_COUNT)))
    }

    /// Sets the movement count (`©mvc`).
    pub fn set_movement_count(&mut self, movement_count: u16)
        ensures
            final(self)@
                == old(self)@.set(fourcc(MOVEMENT_COUNT), DataView::BeSigned(u16_be(movement_count))),
    {
        self.set_u16(DataIdent::Fourcc(Ident(MOVEMENT_COUNT)), movement_count);
    }

    /// Removes the movement count (`©mvc`).
    pub fn remove_movement_count(&mut self)
        ensures
            final(self)@ == old(self)@.removed(fourcc(MOVEMENT_COUNT)),
    {
        self.remove(&DataIdent::Fourcc(Ident(MOVEMENT_COUNT)));
    }

    /// The movement index (`©mvi`).
    pub fn movement_index(&self) -> (r: Option<u16>)
        ensures
            r == first_u16(self@.data(fourcc(MOVEMENT_INDEX))),
    {
        self.u16_value(&DataIdent::Fourcc(Ident(MOVEMENT_INDEX)))
    }

    /// Sets the movement index (`©mvi`).
    pub fn set_movement_index(&mut self, movement_index: u16)
        ensures
            final(self)@
                == old(self)@.set(fourcc(MOVEMENT_INDEX), DataView::BeSigned(u16_be(movement_index))),
    {
        self.set_u16(DataIdent::Fourcc(Ident(MOVEMENT_INDEX)), movement_index);
    }

    /// Removes the movement index (`©mvi`).
    pub fn remove_movement_index(&mut self)
        ensures
            final(self)@ == old(self)@.removed(fourcc(MOVEMENT_INDEX)),
    {
        self.remove(&DataIdent::Fourcc(Ident(MOVEMENT_INDEX)));
    }

    /// The compilation flag (`cpil`).
    pub fn compilation(&self) -> (r: bool)
        ensures
            r == first_flag(self@.data(fourcc(COMPILATION))),
    {
        self.flag(&DataIdent::Fourcc(Ident(COMPILATION)))
    }

    /// Sets the compilation flag (`cpil`) where `value` is true, and removes it
    /// where `value` is false.
    pub fn set_compilation(&mut self, value: bool)
        ensures
            final(self)@ == (if value {
                old(self)@.set(fourcc(COMPILATION), DataView::BeSigned(seq![1u8]))
            } else {
                old(self)@.removed(fourcc(COMPILATION))
            }),
    {
        self.set_flag(DataIdent::Fourcc(Ident(COMPILATION)), value);
    }

    /// Removes the compilation flag (`cpil`).
    pub fn remove_compilation(&mut self)
        ensures
            final(self)@ == old(self)@.removed(fourcc(COMPILATION)),
    {
        self.remove(&DataIdent::Fourcc(Ident(COMPILATION)));
    }

    /// The podcast flag (`pcst`).
    pub fn podcast(&self) -> (r: bool)
        ensures
            r == first_flag(self@.data(fourcc(PODCAST))),
    {
        self.flag(&DataIdent::Fourcc(Ident(PODCAST)))
    }

    /// Sets the podcast flag (`pcst`) where `value` is true, and removes it
    /// where `value` is false.
    pub fn set_podcast(&mut self, value: bool)
        ensures
            final(self)@ == (if value {
                old(self)@.set(fourcc(PODCAST), DataView::BeSigned(seq![1u8]))
            } else {
                old(self)@.removed(fourcc(PODCAST))
            }),
    {
        self.set_flag(DataIdent::Fourcc(Ident(PODCAST)), value);
    }

    /// Removes the podcast flag (`pcst`).
    pub fn remove_podcast(&mut self)
        ensures
            final(self)@ == old(self)@.removed(fourcc(PODCAST)),
    {
        self.remove(&DataIdent::Fourcc(Ident(PODCAST)));
    }

    /// The gapless playback flag (`pgap`).
    pub fn gapless_playback(&self) -> (r: bool)
        ensures
            r == first_flag(self@.data(fourcc(GAPLESS_PLAYBACK))),
    {
        self.flag(&DataIdent::Fourcc(Ident(GAPLESS_PLAYBACK)))
    }

    /// Sets the gapless playback flag (`pgap`) where `value` is true, and removes it
    /// where `value` is false.
    pub fn set_gapless_playback(&mut self, value: bool)
        ensures
            final(self)@ == (if value {
                old(self)@.set(fourcc(GAPLESS_PLAYBACK), DataView::BeSigned(seq![1u8]))
            } else {
                old(self)@.removed(fourcc(GAPLESS_PLAYBACK))
            }),
    {
        self.set_flag(DataIdent::Fourcc(Ident(GAPLESS_PLAYBACK)), value);
    }

    /// Removes the gapless playback flag (`pgap`).
    pub fn remove_gapless_playback(&mut self)
        ensures
            final(self)@ == old(self)@.removed(fourcc(GAPLESS_PLAYBACK)),
    {
        self.remove(&DataIdent::Fourcc(Ident(GAPLESS_PLAYBACK)));
    }

    /// The show movement flag (`shwm`).
    pub fn show_movement(&self) -> (r: bool)
        ensures
            r == first_flag(self@.data(fourcc(SHOW_MOVEMENT))),
    {
        self.flag(&DataIdent::Fourcc(Ident(SHOW_MOVEMENT)))
    }

    /// Sets the show movement flag (`shwm`) where `value` is true, and removes it
    /// where `value` is false.
    pub fn set_show_movement(&mut self, value: bool)
        ensures
            final(self)@ == (if value {
                old(self)@.set(fourcc(SHOW_MOVEMENT), DataView::BeSigned(seq![1u8]))
            } else {
                old(self)@.removed(fourcc(SHOW_MOVEMENT))
            }),
    {
        self.set_flag(DataIdent::Fourcc(Ident(SHOW_MOVEMENT)), value);
    }

    /// Removes the show movement flag (`shwm`).
    pub fn remove_show_movement(&mut self)
        ensures
            final(self)@ == old(self)@.removed(fourcc(SHOW_MOVEMENT)),
    {
        self.remove(&DataIdent::Fourcc(Ident(SHOW_MOVEMENT)));
    }
}

} // verus!
