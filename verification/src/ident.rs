//! Four byte atom identifiers.

use vstd::prelude::*;
use vstd::string::*;

verus! {

/// File type atom (`ftyp`).
pub const FILE_TYPE: u32 = 0x6674_7970;
/// Media data atom (`mdat`).
pub const MEDIA_DATA: u32 = 0x6d64_6174;
/// Movie atom (`moov`).
pub const MOVIE: u32 = 0x6d6f_6f76;
/// Movie header atom (`mvhd`).
pub const MOVIE_HEADER: u32 = 0x6d76_6864;
/// Track atom (`trak`).
pub const TRACK: u32 = 0x7472_616b;
/// Track header atom (`tkhd`).
pub const TRACK_HEADER: u32 = 0x746b_6864;
/// Track reference atom (`tref`).
pub const TRACK_REFERENCE: u32 = 0x7472_6566;
/// Media atom (`mdia`).
pub const MEDIA: u32 = 0x6d64_6961;
/// Media header atom (`mdhd`).
pub const MEDIA_HEADER: u32 = 0x6d64_6864;
/// Handler reference atom (`hdlr`).
pub const HANDLER_REFERENCE: u32 = 0x6864_6c72;
/// Media information atom (`minf`).
pub const MEDIA_INFORMATION: u32 = 0x6d69_6e66;
/// Sample table atom (`stbl`).
pub const SAMPLE_TABLE: u32 = 0x7374_626c;
/// Sample table sample description atom (`stsd`).
pub const SAMPLE_TABLE_SAMPLE_DESCRIPTION: u32 = 0x7374_7364;
/// Sample table chunk offset atom (`stco`).
pub const SAMPLE_TABLE_CHUNK_OFFSET: u32 = 0x7374_636f;
/// 64 bit sample table chunk offset atom (`co64`).
pub const SAMPLE_TABLE_CHUNK_OFFSET_64: u32 = 0x636f_3634;
/// MPEG-4 audio sample entry atom (`mp4a`).
pub const MP4_AUDIO: u32 = 0x6d70_3461;
/// Elementary stream description atom (`esds`).
pub const ELEMENTARY_STREAM_DESCRIPTION: u32 = 0x6573_6473;
/// User data atom (`udta`).
pub const USER_DATA: u32 = 0x7564_7461;
/// Metadata atom (`meta`).
pub const METADATA: u32 = 0x6d65_7461;
/// Metadata item list atom (`ilst`).
pub const ITEM_LIST: u32 = 0x696c_7374;
/// Typed data atom (`data`).
pub const DATA: u32 = 0x6461_7461;
/// Mean atom of a freeform item (`mean`).
pub const MEAN: u32 = 0x6d65_616e;
/// Name atom of a freeform item (`name`).
pub const NAME: u32 = 0x6e61_6d65;
/// Freeform item (`----`).
pub const FREEFORM: u32 = 0x2d2d_2d2d;

/// Album (`©alb`).
pub const ALBUM: u32 = 0xa961_6c62;
/// Album artist (`aART`).
pub const ALBUM_ARTIST: u32 = 0x6141_5254;
/// Artist (`©ART`).
pub const ARTIST: u32 = 0xa941_5254;
/// Artwork (`covr`).
pub const ARTWORK: u32 = 0x636f_7672;
/// Beats per minute (`tmpo`).
pub const BPM: u32 = 0x746d_706f;
/// Comment (`©cmt`).
pub const COMMENT: u32 = 0xa963_6d74;
/// Compilation flag (`cpil`).
pub const COMPILATION: u32 = 0x6370_696c;
/// Composer (`©wrt`).
pub const COMPOSER: u32 = 0xa977_7274;
/// Copyright (`cprt`).
pub const COPYRIGHT: u32 = 0x6370_7274;
/// Custom genre (`©gen`).
pub const CUSTOM_GENRE: u32 = 0xa967_656e;
/// Disc number (`disk`).
pub const DISC_NUMBER: u32 = 0x6469_736b;
/// Encoder (`©too`).
pub const ENCODER: u32 = 0xa974_6f6f;
/// Advisory rating (`rtng`).
pub const ADVISORY_RATING: u32 = 0x7274_6e67;
/// Standard genre (`gnre`).
pub const STANDARD_GENRE: u32 = 0x676e_7265;
/// Title (`©nam`).
pub const TITLE: u32 = 0xa96e_616d;
/// Track number (`trkn`).
pub const TRACK_NUMBER: u32 = 0x7472_6b6e;
/// Year (`©day`).
pub const YEAR: u32 = 0xa964_6179;
/// Grouping (`©grp`).
pub const GROUPING: u32 = 0xa967_7270;
/// Media type (`stik`).
pub const MEDIA_TYPE: u32 = 0x7374_696b;
/// Category (`catg`).
pub const CATEGORY: u32 = 0x6361_7467;
/// Keyword (`keyw`).
pub const KEYWORD: u32 = 0x6b65_7977;
/// Podcast flag (`pcst`).
pub const PODCAST: u32 = 0x7063_7374;
/// Podcast episode global unique id (`egid`).
pub const PODCAST_EPISODE_GLOBAL_UNIQUE_ID: u32 = 0x6567_6964;
/// Podcast url (`purl`).
pub const PODCAST_URL: u32 = 0x7075_726c;
/// Description (`desc`).
pub const DESCRIPTION: u32 = 0x6465_7363;
/// Lyrics (`©lyr`).
pub const LYRICS: u32 = 0xa96c_7972;
/// Tv episode (`tves`).
pub const TV_EPISODE: u32 = 0x7476_6573;
/// Tv episode number (`tven`).
pub const TV_EPISODE_NUMBER: u32 = 0x7476_656e;
/// Tv network name (`tvnn`).
pub const TV_NETWORK_NAME: u32 = 0x7476_6e6e;
/// Tv season (`tvsn`).
pub const TV_SEASON: u32 = 0x7476_736e;
/// Tv show name (`tvsh`).
pub const TV_SHOW_NAME: u32 = 0x7476_7368;
/// Purchase date (`purd`).
pub const PURCHASE_DATE: u32 = 0x7075_7264;
/// Gapless playback flag (`pgap`).
pub const GAPLESS_PLAYBACK: u32 = 0x7067_6170;
/// Movement name (`©mvn`).
pub const MOVEMENT_NAME: u32 = 0xa96d_766e;
/// Movement count (`©mvc`).
pub const MOVEMENT_COUNT: u32 = 0xa96d_7663;
/// Movement index (`©mvi`).
pub const MOVEMENT_INDEX: u32 = 0xa96d_7669;
/// Work (`©wrk`).
pub const WORK: u32 = 0xa977_726b;
/// Show movement flag (`shwm`).
pub const SHOW_MOVEMENT: u32 = 0x7368_776d;

/// A four byte atom identifier. The field holds the four bytes as one number,
/// the first byte in the most significant place, so that two identifiers are
/// equal exactly when their bytes are.
#[derive(Clone, Copy, Debug, PartialEq, Eq, Hash, Structural)]
pub struct Ident(pub u32);

impl Ident {
    /// The identifier made of the four bytes, in the order of the file.
    pub fn new(bytes: [u8; 4]) -> (r: Ident)
        ensures
            r.bytes() == bytes@,
    {
        let n: u32 = (bytes[0] as u32) * 0x100_0000 + (bytes[1] as u32) * 0x1_0000
            + (bytes[2] as u32)
            * 0x100 + (bytes[3] as u32);
        proof {
            assert(n == crate::codec::be_u32(bytes@));
            crate::codec::lemma_bytes_of_be_u32(bytes@);
        }
        Ident(n)
    }

    /// The four bytes of the identifier, in the order of the file.
    pub open spec fn bytes(self) -> Seq<u8> {
        crate::codec::u32_be(self.0)
    }

    /// The four bytes of the identifier, in the order of the file.
    pub fn to_bytes(self) -> (r: [u8; 4])
        ensures
            r@ == self.bytes(),
    {
        let r = [
            (self.0 / 0x100_0000) as u8,
            (self.0 / 0x1_0000 % 0x100) as u8,
            (self.0 / 0x100 % 0x100) as u8,
            (self.0 % 0x100) as u8,
        ];
        assert(r@ =~= self.bytes());
        r
    }

    /// The text of the identifier: each byte as the character with that code.
    pub open spec fn chars(self) -> Seq<char> {
        seq![
            self.bytes()[0] as char,
            self.bytes()[1] as char,
            self.bytes()[2] as char,
            self.bytes()[3] as char,
        ]
    }

    /// The text of the identifier: each byte as the character with that code,
    /// so that `0xa9` reads `©`.
    pub fn to_string(self) -> (r: String)
        ensures
            r@ == self.chars(),
    {
        let b = self.to_bytes();
        let mut s = String::new();
        push_char(&mut s, b[0] as char);
        push_char(&mut s, b[1] as char);
        push_char(&mut s, b[2] as char);
        push_char(&mut s, b[3] as char);
        assert(s@ =~= self.chars());
        s
    }
}

/// `String::push` of std: the character is added at the end.
#[verifier::external_body]
pub(crate) fn push_char(s: &mut String, c: char)
    ensures
        final(s)@ == old(s)@.push(c),
{
    s.push(c);
}

/// What identifies a metadata item: a four byte identifier, or the domain and
/// the name of a freeform (`----`) item.
#[derive(Clone, Debug, PartialEq, Eq, Hash)]
pub enum DataIdent {
    /// An item with a four byte identifier.
    Fourcc(Ident),
    /// A freeform item.
    Freeform {
        /// The domain, mostly in reverse DNS form.
        mean: String,
        /// The name of the field.
        name: String,
    },
}

/// The mathematical value of a [`DataIdent`].
pub enum DataIdentView {
    Fourcc(Ident),
    Freeform { mean: Seq<char>, name: Seq<char> },
}

impl View for DataIdent {
    type V = DataIdentView;

    open spec fn view(&self) -> DataIdentView {
        match self {
            DataIdent::Fourcc(i) => DataIdentView::Fourcc(*i),
            DataIdent::Freeform { mean, name } => DataIdentView::Freeform {
                mean: mean@,
                name: name@,
            },
        }
    }
}

impl DataIdent {
    /// The identifier of the four bytes held in `code`.
    pub fn fourcc(code: u32) -> (r: DataIdent)
        ensures
            r@ == DataIdentView::Fourcc(Ident(code)),
    {
        DataIdent::Fourcc(Ident(code))
    }

    /// The identifier of a freeform item.
    pub fn freeform(mean: &str, name: &str) -> (r: DataIdent)
        ensures
            r@ == (DataIdentView::Freeform { mean: mean@, name: name@ }),
    {
        DataIdent::Freeform { mean: mean.to_owned(), name: name.to_owned() }
    }

    /// Whether the two identifiers are the same.
    pub fn same(&self, other: &DataIdent) -> (r: bool)
        ensures
            r == (self@ == other@),
    {
        match self {
            DataIdent::Fourcc(a) => match other {
                DataIdent::Fourcc(b) => a.0 == b.0,
                _ => false,
            },
            DataIdent::Freeform { mean, name } => match other {
                DataIdent::Freeform { mean: m, name: n } => *mean == *m && *name == *n,
                _ => false,
            },
        }
    }
}

} // verus!
