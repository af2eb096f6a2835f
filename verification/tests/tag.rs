use mp4ameta::atom::metaitem::MetaItem;
use mp4ameta::audio::{AudioInfo, ChannelConfig, Duration, SampleRate};
use mp4ameta::data::Data;
use mp4ameta::error::ErrorKind;
use mp4ameta::schedule::{base_values, headline, remove_quotes, split_at_commas};
use mp4ameta::schedule::underscores_to_spaces;
use mp4ameta::ident::{DataIdent, ARTIST, ARTWORK, BPM, COMPILATION, TITLE};
use mp4ameta::tag::Tag;

fn empty() -> Tag {
    Tag::new("M4A ".to_string(), AudioInfo::none(), Vec::new())
}

fn text(s: &str) -> Data {
    Data::Utf8(s.to_string())
}

#[test]
fn set_replaces_and_add_appends() {
    let mut tag = empty();
    let artist = DataIdent::fourcc(ARTIST);
    tag.add(artist.clone(), text("a"));
    tag.add(DataIdent::fourcc(TITLE), text("t"));
    tag.add(artist.clone(), text("b"));
    assert_eq!(tag.items.len(), 2);
    assert_eq!(tag.get(&artist), vec![&text("a"), &text("b")]);
    assert_eq!(tag.items[0], MetaItem::new(artist.clone(), vec![text("a"), text("b")]));
    tag.items.push(MetaItem::new(artist.clone(), vec![text("c")]));
    assert_eq!(tag.get(&artist), vec![&text("a"), &text("b"), &text("c")]);
    tag.add(artist.clone(), text("d"));
    assert_eq!(tag.get(&artist), vec![&text("a"), &text("b"), &text("d"), &text("c")]);
    tag.set(artist.clone(), text("z"));
    assert_eq!(tag.items, vec![MetaItem::new(DataIdent::fourcc(TITLE), vec![text("t")]), MetaItem::new(artist.clone(), vec![text("z")])]);
    tag.remove(&artist);
    assert_eq!(tag.items, vec![MetaItem::new(DataIdent::fourcc(TITLE), vec![text("t")])]);
    tag.remove(&artist);
    assert_eq!(tag.items.len(), 1);
    assert!(tag.get(&artist).is_empty());
    assert_eq!(tag.filetype(), "M4A ");
}

#[test]
fn strings_skip_what_is_no_text() {
    let mut tag = empty();
    let cover = DataIdent::fourcc(ARTWORK);
    tag.add(cover.clone(), Data::Jpeg(vec![1]));
    assert_eq!(tag.string(&cover), None);
    tag.add(cover.clone(), Data::Utf16("w".to_string()));
    tag.add(cover.clone(), text("x"));
    assert_eq!(tag.string(&cover), Some("w"));
    assert_eq!(tag.strings(&cover), vec!["w", "x"]);
    assert_eq!(tag.u16_value(&cover), None);
    assert!(!tag.flag(&cover));
}

#[test]
fn named_strings() {
    let mut tag = empty();
    assert_eq!(tag.title(), None);
    tag.set_title("one");
    tag.set_title("two");
    assert_eq!(tag.title(), Some("two"));
    assert_eq!(tag.items.len(), 1);
    tag.set_album("album");
    tag.set_year("2020");
    tag.set_lyrics("la");
    tag.set_work("w");
    assert_eq!((tag.album(), tag.year(), tag.lyrics(), tag.work()), (Some("album"), Some("2020"), Some("la"), Some("w")));
    tag.remove_title();
    assert_eq!(tag.title(), None);
    assert_eq!(tag.album(), Some("album"));
    tag.add_artist("x");
    tag.add_artist("y");
    assert_eq!(tag.artist(), Some("x"));
    assert_eq!(tag.artists(), vec!["x", "y"]);
    tag.set_artist("z");
    assert_eq!(tag.artists(), vec!["z"]);
    tag.add_composer("c");
    tag.add_album_artist("aa");
    assert_eq!((tag.composer(), tag.album_artist()), (Some("c"), Some("aa")));
    tag.remove_artists();
    tag.remove_composers();
    assert!(tag.artists().is_empty() && tag.composers().is_empty());
    assert_eq!(tag.album_artists(), vec!["aa"]);
    tag.set_tv_show_name("show");
    tag.set_movement_name("m");
    tag.set_copyright("c");
    tag.set_encoder("e");
    tag.set_comment("k");
    tag.set_description("d");
    tag.set_grouping("g");
    tag.set_tv_episode_number("n");
    tag.set_tv_network_name("net");
    assert_eq!(tag.tv_show_name(), Some("show"));
    assert_eq!(tag.movement_name(), Some("m"));
    assert_eq!((tag.copyright(), tag.encoder(), tag.comment()), (Some("c"), Some("e"), Some("k")));
    assert_eq!((tag.description(), tag.grouping()), (Some("d"), Some("g")));
    assert_eq!((tag.tv_episode_number(), tag.tv_network_name()), (Some("n"), Some("net")));
    tag.remove_album();
    tag.remove_year();
    assert_eq!((tag.album(), tag.year()), (None, None));
}

#[test]
fn named_numbers_and_flags() {
    let mut tag = empty();
    assert_eq!(tag.bpm(), None);
    tag.set_bpm(0x0178);
    assert_eq!(tag.bpm(), Some(0x0178));
    assert_eq!(tag.get(&DataIdent::fourcc(BPM)), vec![&Data::BeSigned(vec![1, 0x78])]);
    tag.set(DataIdent::fourcc(BPM), Data::Reserved(vec![0, 9, 1]));
    assert_eq!(tag.bpm(), Some(9));
    tag.set(DataIdent::fourcc(BPM), Data::Reserved(vec![9]));
    assert_eq!(tag.bpm(), None);
    tag.set(DataIdent::fourcc(BPM), text("120"));
    assert_eq!(tag.bpm(), None);
    tag.remove_bpm();
    assert!(tag.items.is_empty());
    tag.set_tv_season(3);
    tag.set_tv_episode(4);
    tag.set_movement_count(5);
    tag.set_movement_index(6);
    assert_eq!((tag.tv_season(), tag.tv_episode()), (Some(3), Some(4)));
    assert_eq!((tag.movement_count(), tag.movement_index()), (Some(5), Some(6)));
    tag.remove_tv_season();
    assert_eq!(tag.tv_season(), None);
    assert!(!tag.compilation());
    tag.set_compilation(true);
    assert!(tag.compilation());
    assert_eq!(tag.get(&DataIdent::fourcc(COMPILATION)), vec![&Data::BeSigned(vec![1])]);
    tag.set_compilation(false);
    assert!(!tag.compilation());
    assert!(tag.get(&DataIdent::fourcc(COMPILATION)).is_empty());
    tag.set(DataIdent::fourcc(COMPILATION), Data::Reserved(vec![0]));
    assert!(!tag.compilation());
    tag.set(DataIdent::fourcc(COMPILATION), Data::Reserved(vec![1, 0]));
    assert!(tag.compilation());
    tag.remove_compilation();
    tag.set_podcast(true);
    tag.set_gapless_playback(true);
    tag.set_show_movement(true);
    assert!(tag.podcast() && tag.gapless_playback() && tag.show_movement());
    tag.remove_podcast();
    tag.set_gapless_playback(false);
    assert!(!tag.podcast() && !tag.gapless_playback());
}

fn with_duration(secs: u64, nanos: u32) -> Tag {
    let mut info = AudioInfo::none();
    info.duration = Some(Duration { secs, nanos });
    Tag::new("M4A ".to_string(), info, Vec::new())
}

#[test]
fn duration_in_words() {
    assert_eq!(empty().format_duration(), "");
    assert_eq!(with_duration(0, 7).format_duration(), "duration: 7ns\n");
    assert_eq!(with_duration(0, 0).format_duration(), "duration: 0ns\n");
    assert_eq!(with_duration(0, 7_999).format_duration(), "duration: 7\u{b5}s\n");
    assert_eq!(with_duration(0, 12_345_678).format_duration(), "duration: 12ms\n");
    assert_eq!(with_duration(59, 999_999_999).format_duration(), "duration: 59s\n");
    assert_eq!(with_duration(60, 0).format_duration(), "duration: 1:00\n");
    assert_eq!(with_duration(605, 0).format_duration(), "duration: 10:05\n");
    assert_eq!(with_duration(3600, 0).format_duration(), "duration: 1:00:00\n");
    assert_eq!(with_duration(360_000 + 62, 0).format_duration(), "duration: 100:01:02\n");
}

#[test]
fn format_of_the_audio_in_words() {
    let mut info = AudioInfo::none();
    info.channel_config = Some(ChannelConfig::FiveOne);
    info.sample_rate = Some(SampleRate::Hz44100);
    info.avg_bitrate = Some(128 * 1024 + 1023);
    info.max_bitrate = Some(1023);
    let tag = Tag::new("M4A ".to_string(), info, Vec::new());
    assert_eq!(tag.format_channel_config(), "channel config: 5.1\n");
    assert_eq!(tag.format_sample_rate(), "sample rate: 44100Hz\n");
    assert_eq!(tag.format_avg_bitrate(), "average bitrate: 128kbps\n");
    assert_eq!(tag.format_max_bitrate(), "maximum bitrate: 0kbps\n");
    let none = empty();
    assert_eq!(none.format_channel_config(), "");
    assert_eq!(none.format_sample_rate(), "");
    assert_eq!(none.format_avg_bitrate(), "");
    assert_eq!(none.format_max_bitrate(), "");
    let names: Vec<String> = [
        ChannelConfig::Mono,
        ChannelConfig::Stereo,
        ChannelConfig::Three,
        ChannelConfig::Four,
        ChannelConfig::Five,
        ChannelConfig::FiveOne,
        ChannelConfig::SevenOne,
    ]
    .iter()
    .map(|c| c.to_string())
    .collect();
    assert_eq!(names, vec!["Mono", "Stereo", "3.0", "4.0", "5.0", "5.1", "7.1"]);
    assert_eq!(SampleRate::Hz8000.to_string(), "8000Hz");
}

#[test]
fn rows_of_the_schedule() {
    let v = base_values(" tv_show_name , \"tvsh\" ").unwrap();
    assert_eq!(v.value_ident, "tv_show_name");
    assert_eq!(v.name, "tv show name");
    assert_eq!(v.headline, "Tv show name");
    assert_eq!(v.atom_ident, "atom::TV_SHOW_NAME");
    assert_eq!(v.atom_ident_string, "tvsh");
    let v = base_values("\"title\",\u{a9}nam,  ").unwrap();
    assert_eq!((v.value_ident.as_str(), v.atom_ident_string.as_str()), ("title", "\u{a9}nam"));
    let v = base_values("\u{df}x, y").unwrap();
    assert_eq!(v.headline, "SSx");
    assert_eq!(v.atom_ident, "atom::SSX");
    let message = |input: &str| {
        let e = base_values(input).unwrap_err();
        assert_eq!(e.kind, ErrorKind::Parsing);
        e.description
    };
    assert_eq!(message(""), "Found empty value identifier.");
    assert_eq!(message(" \"\" , x"), "Found empty value identifier.");
    assert_eq!(message("title"), "Missing second positional argument: atom ident string");
    assert_eq!(message("title, \"\""), "Found empty atom identifier string.");
    assert_eq!(message("title, x, y"), "Found unexpected third positional argument.");
    assert_eq!(split_at_commas("a,,b,"), vec!["a", "", "b", ""]);
    assert_eq!(split_at_commas(""), vec![""]);
    assert_eq!(remove_quotes("\"a\"b\"\""), "ab");
    assert_eq!(underscores_to_spaces("_a_b"), " a b");
    assert_eq!(headline(""), "");
    assert_eq!(headline("\u{e4}b"), "\u{c4}b");
}
