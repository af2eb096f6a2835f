//! Reading the tag of a file: the atoms at the top of the file, and what the
//! movie atom among them says.

use crate::atom::base::{view_of, ReadConfig};
use crate::atom::ftyp::{ftyp_at, Ftyp};
use crate::atom::ilst::item_views;
use crate::atom::metaitem::{MetaItem, MetaItemView};
use crate::atom::moov::{Moov, MoovView};
use crate::atom::mp4a::Mp4a;
use crate::atom::trak::{Trak, TrakView};
use crate::audio::AudioInfo;
use crate::error::{error, Error, ErrorKind, ErrorKindView, ErrorView, IoErrorKind};
use crate::head::{head_at, parse_head, Head};
use crate::ident::{Ident, MEDIA_DATA, MOVIE};
use crate::reader::Reader;
use crate::tag::{Tag, TagView};
use vstd::prelude::*;

verus! {

/// The head of the atom that stands at position `p` of the file `f`, at the
/// top of the file. Only the media data atom may declare to reach to the end
/// of the file, and no atom may declare to reach beyond it.
pub open spec fn top_at(f: Seq<u8>, p: int) -> Result<Head, ErrorView> {
    match head_at(f, p) {
        Err(e) => Err(e),
        Ok(h) => if h.size == 0 && h.fourcc != Ident(MEDIA_DATA) {
            Err(error(ErrorKindView::Parsing, "Atom of open length that is not the media data"))
        } else if h.spec_size().len > f.len() - p {
            Err(
                error(
                    ErrorKindView::Io(IoErrorKind::UnexpectedEof),
                    "Atom reaches beyond the end of the file",
                ),
            )
        } else {
            Ok(h)
        },
    }
}

/// Reads the head of the next atom at the top of the file.
pub fn next_top(reader: &mut Reader) -> (r: Result<Head, Error>)
    requires
        old(reader).wf(),
    ensures
        match r {
            Ok(h) => top_at(old(reader).data@, old(reader).pos as int) == Ok::<Head, ErrorView>(h)
                && h.wf() && final(reader).moved(
                old(reader),
                h.spec_size().spec_head_len() as int,
            ) && h.spec_size().spec_content_len() <= final(reader).left(),
            Err(e) => top_at(old(reader).data@, old(reader).pos as int) == Err::<Head, ErrorView>(
                e@,
            ) && final(reader).same_stream(old(reader)),
        },
{
    let left = reader.remaining();
    let head = parse_head(reader)?;
    if head.size == 0 && head.fourcc.0 != MEDIA_DATA {
        return Err(
            Error::new(ErrorKind::Parsing, "Atom of open length that is not the media data"),
        );
    }
    if head.len() > left {
        return Err(
            Error::new(
                ErrorKind::Io(IoErrorKind::UnexpectedEof),
                "Atom reaches beyond the end of the file",
            ),
        );
    }
    Ok(head)
}

/// What reading the first movie atom at or behind position `p` of the file
/// `f` gives: the atoms before it are passed over, and a file without one is
/// an error.
pub open spec fn movie_read(f: Seq<u8>, p: int, base: int, cfg: ReadConfig) -> Result<
    MoovView,
    ErrorView,
>
    decreases f.len() - p,
{
    if p >= f.len() {
        Err(
            error(
                ErrorKindView::AtomNotFound(Ident(MOVIE)),
                "Missing necessary data, no movie (moov) atom found",
            ),
        )
    } else {
        match top_at(f, p) {
            Err(e) => Err(e),
            Ok(h) => if h.fourcc == Ident(MOVIE) {
                Moov::parsed(f, p + h.spec_size().spec_head_len(), base, cfg, h.spec_size())
            } else {
                movie_read(f, p + h.spec_size().len, base, cfg)
            },
        }
    }
}

/// The audio sample entry of a track, where its media, media information,
/// sample table and sample description lead to one.
pub open spec fn mp4a_of(t: TrakView) -> Option<Mp4a> {
    if t.mdia is Some && t.mdia->0.minf is Some && t.mdia->0.minf->0.stbl is Some
        && t.mdia->0.minf->0.stbl->0.stsd is Some {
        t.mdia->0.minf->0.stbl->0.stsd->0.mp4a
    } else {
        None
    }
}

/// The audio sample entry of the first track at or behind `from` that has
/// one.
pub open spec fn first_mp4a(traks: Seq<TrakView>, from: int) -> Option<Mp4a>
    decreases traks.len() - from,
{
    if from < 0 || from >= traks.len() {
        None
    } else if mp4a_of(traks[from]) is Some {
        mp4a_of(traks[from])
    } else {
        first_mp4a(traks, from + 1)
    }
}

/// What a movie says of the audio: the duration of its movie header, and the
/// format of the first track that has an audio sample entry.
pub open spec fn info_of(moov: MoovView) -> AudioInfo {
    let duration = match moov.mvhd {
        Some(h) => Some(h.duration),
        None => None,
    };
    match first_mp4a(moov.trak, 0) {
        Some(a) => AudioInfo {
            duration,
            channel_config: a.channel_config,
            sample_rate: a.sample_rate,
            max_bitrate: a.max_bitrate,
            avg_bitrate: a.avg_bitrate,
        },
        None => AudioInfo {
            duration,
            channel_config: None,
            sample_rate: None,
            max_bitrate: None,
            avg_bitrate: None,
        },
    }
}

/// The metadata items of a movie: those of the item list of the metadata
/// atom of its user data, none where one of these is missing.
pub open spec fn items_of(moov: MoovView) -> Seq<MetaItemView> {
    if moov.udta is Some && moov.udta->0.meta is Some && moov.udta->0.meta->0.ilst is Some {
        moov.udta->0.meta->0.ilst->0
    } else {
        Seq::empty()
    }
}

/// What reading the tag of the file `f` from position `p` gives: the file
/// type atom must stand there, with a supported brand, and a movie atom
/// must follow.
pub open spec fn tag_read(f: Seq<u8>, p: int, base: int) -> Result<TagView, ErrorView> {
    match ftyp_at(f, p) {
        Err(e) => Err(e),
        Ok(t) => match movie_read(f, p + t.1, base, ReadConfig::spec_all()) {
            Err(e) => Err(e),
            Ok(moov) => Ok(TagView { ftyp: t.0, info: info_of(moov), items: items_of(moov) }),
        },
    }
}

/// The audio sample entry of a track.
pub fn track_mp4a(t: &Trak) -> (r: Option<Mp4a>)
    ensures
        r == mp4a_of(t@),
{
    match &t.mdia {
        Some(mdia) => match &mdia.minf {
            Some(minf) => match &minf.stbl {
                Some(stbl) => match &stbl.stsd {
                    Some(stsd) => stsd.mp4a,
                    None => None,
                },
                None => None,
            },
            None => None,
        },
        None => None,
    }
}

/// What a movie says of the audio.
pub fn movie_info(moov: &Moov) -> (r: AudioInfo)
    ensures
        r == info_of(moov@),
{
    let mut info = AudioInfo::none();
    match moov.mvhd {
        Some(h) => {
            info.duration = Some(h.duration);
        },
        None => {},
    }
    let mut i: usize = 0;
    while i < moov.trak.len()
        invariant
            i <= moov.trak.len(),
            first_mp4a(moov@.trak, i as int) == first_mp4a(moov@.trak, 0),
            info == (AudioInfo { duration: info.duration, ..AudioInfo::spec_none() }),
            info.duration == info_of(moov@).duration,
        decreases moov.trak.len() - i,
    {
        match track_mp4a(&moov.trak[i]) {
            Some(a) => {
                info.channel_config = a.channel_config;
                info.sample_rate = a.sample_rate;
                info.max_bitrate = a.max_bitrate;
                info.avg_bitrate = a.avg_bitrate;
                return info;
            },
            None => {},
        }
        i += 1;
    }
    info
}

/// The metadata items of a movie, which is given away for them.
pub fn movie_items(moov: Moov) -> (r: Vec<MetaItem>)
    ensures
        item_views(r@) == items_of(moov@),
{
    match moov.udta {
        Some(udta) => match udta.meta {
            Some(meta) => match meta.ilst {
                Some(ilst) => ilst.into_items(),
                None => {
                    let v: Vec<MetaItem> = Vec::new();
                    assert(item_views(v@) =~= Seq::empty());
                    v
                },
            },
            None => {
                let v: Vec<MetaItem> = Vec::new();
                assert(item_views(v@) =~= Seq::empty());
                v
            },
        },
        None => {
            let v: Vec<MetaItem> = Vec::new();
            assert(item_views(v@) =~= Seq::empty());
            v
        },
    }
}

/// Reads the first movie atom at or behind the cursor, passing over the
/// atoms before it.
pub fn read_movie(reader: &mut Reader, cfg: &ReadConfig) -> (r: Result<Moov<'static>, Error>)
    requires
        old(reader).wf(),
    ensures
        view_of(r) == movie_read(
            old(reader).data@,
            old(reader).pos as int,
            old(reader).base as int,
            *cfg,
        ),
        final(reader).same_stream(old(reader)),
{
    let ghost f = reader.data@;
    let ghost base = reader.base as int;
    loop
        invariant
            reader.same_stream(old(reader)),
            f == reader.data@,
            base == reader.base,
            movie_read(f, reader.pos as int, base, *cfg) == movie_read(
                f,
                old(reader).pos as int,
                base,
                *cfg,
            ),
        decreases reader.left(),
    {
        if reader.remaining() == 0 {
            return Err(
                Error::new(
                    ErrorKind::AtomNotFound(Ident(MOVIE)),
                    "Missing necessary data, no movie (moov) atom found",
                ),
            );
        }
        let head = match next_top(reader) {
            Ok(h) => h,
            Err(e) => {
                return Err(e);
            },
        };
        if head.fourcc.0 == MOVIE {
            return Moov::parse(reader, cfg, head.size());
        }
        match reader.skip(head.content_len()) {
            Ok(_) => {},
            Err(e) => {
                return Err(e);
            },
        }
    }
}

/// Reads the tag of a file: the brand of the file type atom, which must be
/// supported, what the movie atom says of the audio, and the metadata items.
pub fn read_tag_from(reader: &mut Reader) -> (r: Result<Tag, Error>)
    requires
        old(reader).wf(),
    ensures
        view_of(r) == tag_read(old(reader).data@, old(reader).pos as int, old(reader).base as int),
        final(reader).same_stream(old(reader)),
{
    let ftyp = Ftyp::parse(reader)?;
    let cfg = ReadConfig::all();
    let moov = read_movie(reader, &cfg)?;
    let info = movie_info(&moov);
    let items = movie_items(moov);
    Ok(Tag { ftyp: ftyp.0, info, items })
}

} // verus!
