use mp4ameta::atom::base::ReadConfig;
use mp4ameta::atom::co64::Co64;
use mp4ameta::atom::ftyp::Ftyp;
use mp4ameta::atom::hdlr::Hdlr;
use mp4ameta::atom::ilst::Ilst;
use mp4ameta::atom::mdat::Mdat;
use mp4ameta::atom::mdhd::Mdhd;
use mp4ameta::atom::mdia::Mdia;
use mp4ameta::atom::meta::Meta;
use mp4ameta::atom::metaitem::MetaItem;
use mp4ameta::atom::minf::Minf;
use mp4ameta::atom::moov::Moov;
use mp4ameta::atom::mp4a::Mp4a;
use mp4ameta::atom::mvhd::Mvhd;
use mp4ameta::atom::stbl::Stbl;
use mp4ameta::atom::stco::Stco;
use mp4ameta::atom::stsd::Stsd;
use mp4ameta::atom::tkhd::Tkhd;
use mp4ameta::atom::trak::Trak;
use mp4ameta::atom::tref::Tref;
use mp4ameta::atom::udta::Udta;
use mp4ameta::audio::{ChannelConfig, Duration, SampleRate};
use mp4ameta::data::Data;
use mp4ameta::error::{ErrorKind, IoErrorKind};
use mp4ameta::file::read_tag_from;
use mp4ameta::head::{parse_head, Size};
use mp4ameta::ident::{DataIdent, Ident, ELEMENTARY_STREAM_DESCRIPTION, FREEFORM, TITLE};
use mp4ameta::reader::Reader;

fn atom(name: &[u8; 4], content: &[u8]) -> Vec<u8> {
    let mut v = ((content.len() + 8) as u32).to_be_bytes().to_vec();
    v.extend_from_slice(name);
    v.extend_from_slice(content);
    v
}

fn cat(parts: &[Vec<u8>]) -> Vec<u8> {
    let mut v = Vec::new();
    for p in parts {
        v.extend_from_slice(p);
    }
    v
}

fn after_head(bytes: &[u8]) -> (Reader<'_>, Size) {
    let mut reader = Reader::new(bytes);
    let head = parse_head(&mut reader).unwrap();
    (reader, head.size())
}

fn cfg() -> ReadConfig {
    ReadConfig::all()
}

fn esds_atom() -> Vec<u8> {
    let ds = vec![5, 2, 0x12, 0x10];
    let dc = cat(&[vec![4, 17, 0x40, 0x15, 0, 0, 0], 256_000u32.to_be_bytes().to_vec(), 128_000u32.to_be_bytes().to_vec(), ds]);
    let es = cat(&[vec![3, 0x80, 0x80, 22, 0, 1, 0], dc, vec![6, 1, 2]]);
    atom(b"esds", &cat(&[vec![0; 4], es]))
}

fn mp4a_atom() -> Vec<u8> {
    atom(b"mp4a", &cat(&[vec![0; 28], esds_atom()]))
}

fn sample_mp4a() -> Mp4a {
    Mp4a {
        channel_config: Some(ChannelConfig::Stereo),
        sample_rate: Some(SampleRate::Hz44100),
        max_bitrate: Some(256_000),
        avg_bitrate: Some(128_000),
    }
}

#[test]
fn mp4a_is_read_from_its_descriptors() {
    let bytes = mp4a_atom();
    let (mut reader, size) = after_head(&bytes);
    assert_eq!(Mp4a::parse(&mut reader, &cfg(), size).unwrap(), sample_mp4a());
    assert_eq!(reader.remaining(), 0);
    let no_esds = atom(b"mp4a", &cat(&[vec![0; 28], atom(b"free", &[])]));
    let (mut reader, size) = after_head(&no_esds);
    let e = Mp4a::parse(&mut reader, &cfg(), size).unwrap_err();
    assert_eq!(e.kind, ErrorKind::AtomNotFound(Ident(ELEMENTARY_STREAM_DESCRIPTION)));
    assert_eq!(e.to_string(), "Error parsing mp4a: Missing esds atom");
    let version = atom(b"mp4a", &cat(&[vec![0; 28], atom(b"esds", &[2, 0, 0, 0, 3, 3, 0, 0, 0])]));
    let (mut reader, size) = after_head(&version);
    assert_eq!(Mp4a::parse(&mut reader, &cfg(), size).unwrap_err().kind, ErrorKind::UnknownVersion(2));
    let long = atom(b"mp4a", &cat(&[vec![0; 28], atom(b"esds", &[0, 0, 0, 0, 3, 9, 0, 0, 0])]));
    let (mut reader, size) = after_head(&long);
    assert_eq!(Mp4a::parse(&mut reader, &cfg(), size).unwrap_err().kind, ErrorKind::Parsing);
}

#[test]
fn mp4a_round_trips() {
    let all = [
        sample_mp4a(),
        Mp4a { channel_config: None, sample_rate: None, max_bitrate: None, avg_bitrate: None },
        Mp4a { channel_config: None, sample_rate: None, max_bitrate: Some(1), avg_bitrate: Some(2) },
        Mp4a { channel_config: Some(ChannelConfig::SevenOne), sample_rate: None, max_bitrate: Some(1), avg_bitrate: Some(2) },
        Mp4a { channel_config: None, sample_rate: Some(SampleRate::Hz7350), max_bitrate: Some(0), avg_bitrate: Some(u32::MAX) },
    ];
    for v in all {
        let mut out = Vec::new();
        v.write(&mut out);
        assert_eq!(out.len() as u64, v.len());
        assert_eq!(v.size().len(), v.len());
        let (mut reader, size) = after_head(&out);
        assert_eq!(size, v.size());
        assert_eq!(Mp4a::parse(&mut reader, &cfg(), size).unwrap(), v);
    }
    assert_eq!(sample_mp4a().len(), 72);
}

#[test]
fn movie_header_gives_the_duration() {
    let mut c = vec![0; 12];
    c.extend_from_slice(&44100u32.to_be_bytes());
    c.extend_from_slice(&(44100u32 * 3 + 22050).to_be_bytes());
    c.extend_from_slice(&[0; 80]);
    let bytes = atom(b"mvhd", &c);
    let (mut reader, size) = after_head(&bytes);
    let mvhd = Mvhd::parse(&mut reader, &cfg(), size).unwrap();
    assert_eq!(mvhd.duration, Duration { secs: 3, nanos: 500_000_000 });
    let mut c = vec![1, 0, 0, 0];
    c.extend_from_slice(&[0; 16]);
    c.extend_from_slice(&3u32.to_be_bytes());
    c.extend_from_slice(&10u64.to_be_bytes());
    let bytes = atom(b"mvhd", &c);
    let (mut reader, size) = after_head(&bytes);
    let mvhd = Mvhd::parse(&mut reader, &cfg(), size).unwrap();
    assert_eq!(mvhd.duration, Duration { secs: 3, nanos: 333_333_333 });
    let mut out = Vec::new();
    mvhd.write(&mut out);
    assert_eq!(out.len(), 120);
    assert_eq!(mvhd.len(), 120);
    let (mut reader, size) = after_head(&out);
    assert_eq!(Mvhd::parse(&mut reader, &cfg(), size).unwrap(), mvhd);
    let zero = atom(b"mvhd", &[0; 100]);
    let (mut reader, size) = after_head(&zero);
    assert_eq!(Mvhd::parse(&mut reader, &cfg(), size).unwrap_err().kind, ErrorKind::Parsing);
    let version = atom(b"mvhd", &[7; 100]);
    let (mut reader, size) = after_head(&version);
    assert_eq!(Mvhd::parse(&mut reader, &cfg(), size).unwrap_err().kind, ErrorKind::UnknownVersion(7));
    let short = atom(b"mvhd", &[0; 19]);
    let (mut reader, size) = after_head(&short);
    let e = Mvhd::parse(&mut reader, &cfg(), size).unwrap_err();
    assert_eq!(e.kind, ErrorKind::Io(IoErrorKind::UnexpectedEof));
}

#[test]
fn durations() {
    assert_eq!(Duration::from_nanos(1_500_000_001), Duration { secs: 1, nanos: 500_000_001 });
    assert_eq!(Duration::from_scaled(90_000, 600), Duration { secs: 150, nanos: 0 });
    assert_eq!(Duration::from_scaled(1, 3), Duration { secs: 0, nanos: 333_333_333 });
    assert_eq!(Duration::from_scaled(u64::MAX, 1), Duration { secs: u64::MAX, nanos: 0 });
    assert_eq!(Duration::from_scaled(u64::MAX, u32::MAX).secs, 4_294_967_297);
    let d = Duration { secs: 5, nanos: 6 };
    assert_eq!(d.as_secs(), 5);
    assert_eq!(d.subsec_nanos(), 6);
}

#[test]
fn audio_formats() {
    for code in 0..=255u8 {
        match ChannelConfig::from_code(code) {
            Some(c) => assert_eq!(c.code(), code),
            None => assert!(code == 0 || code > 7),
        }
        match SampleRate::from_index(code) {
            Some(r) => assert_eq!(r.index(), code),
            None => assert!(code > 12),
        }
    }
    assert_eq!(ChannelConfig::SevenOne.channel_count(), 8);
    assert_eq!(ChannelConfig::FiveOne.channel_count(), 6);
    assert_eq!(ChannelConfig::Mono.channel_count(), 1);
    assert_eq!(SampleRate::from_index(4).unwrap().hz(), 44100);
    assert_eq!(SampleRate::Hz96000.hz(), 96000);
    assert_eq!(SampleRate::Hz7350.index(), 12);
}

#[test]
fn headers_round_trip() {
    let tkhd = Tkhd { id: 0x0102_0304 };
    let mut out = Vec::new();
    tkhd.write(&mut out);
    assert_eq!(out.len(), 92);
    assert_eq!(tkhd.len(), 92);
    assert_eq!(&out[20..24], &[1, 2, 3, 4]);
    let (mut reader, size) = after_head(&out);
    assert_eq!(Tkhd::parse(&mut reader, &cfg(), size).unwrap(), tkhd);
    let mut v1 = vec![1, 0, 0, 0];
    v1.extend_from_slice(&[0; 16]);
    v1.extend_from_slice(&[0, 0, 0, 9]);
    let bytes = atom(b"tkhd", &v1);
    let (mut reader, size) = after_head(&bytes);
    assert_eq!(Tkhd::parse(&mut reader, &cfg(), size).unwrap(), Tkhd { id: 9 });
    let mdhd = Mdhd { timescale: 48000, duration: 0x1_0000_0000 };
    let mut out = Vec::new();
    mdhd.write(&mut out);
    assert_eq!(out.len(), 44);
    assert_eq!(mdhd.len(), 44);
    let (mut reader, size) = after_head(&out);
    assert_eq!(Mdhd::parse(&mut reader, &cfg(), size).unwrap(), mdhd);
    let mut v0 = vec![0; 12];
    v0.extend_from_slice(&[0, 0, 0, 5, 0, 0, 0, 6, 0, 0, 0, 0]);
    let bytes = atom(b"mdhd", &v0);
    let (mut reader, size) = after_head(&bytes);
    assert_eq!(Mdhd::parse(&mut reader, &cfg(), size).unwrap(), Mdhd { timescale: 5, duration: 6 });
    for raw in [vec![], vec![1, 2, 3]] {
        let hdlr = Hdlr(raw.clone());
        let mut out = Vec::new();
        hdlr.write(&mut out);
        assert_eq!(out, atom(b"hdlr", &raw));
        assert_eq!(hdlr.len() as usize, out.len());
        let (mut reader, size) = after_head(&out);
        assert_eq!(Hdlr::parse(&mut reader, &cfg(), size).unwrap(), hdlr);
        let tref = Tref(raw.clone());
        let mut out = Vec::new();
        tref.write(&mut out);
        assert_eq!(out, atom(b"tref", &raw));
        let (mut reader, size) = after_head(&out);
        assert_eq!(Tref::parse(&mut reader, &cfg(), size).unwrap(), tref);
    }
}

#[test]
fn chunk_offset_tables() {
    let stco = Stco { table_pos: 16, offsets: vec![1, 0xffff_ffff, 3] };
    let mut out = Vec::new();
    stco.write(&mut out);
    assert_eq!(out, atom(b"stco", &[0, 0, 0, 0, 0, 0, 0, 3, 0, 0, 0, 1, 0xff, 0xff, 0xff, 0xff, 0, 0, 0, 3]));
    assert_eq!(stco.len(), 28);
    let (mut reader, size) = after_head(&out);
    assert_eq!(Stco::parse(&mut reader, &cfg(), size).unwrap(), stco);
    let co64 = Co64 { table_pos: 16, offsets: vec![0x1_0000_0000, 2] };
    let mut out = Vec::new();
    co64.write(&mut out);
    assert_eq!(out.len(), 32);
    assert_eq!(co64.len(), 32);
    assert_eq!(&out[16..24], &[0, 0, 0, 1, 0, 0, 0, 0]);
    let (mut reader, size) = after_head(&out);
    assert_eq!(Co64::parse(&mut reader, &cfg(), size).unwrap(), co64);
    let wrong = atom(b"stco", &[0, 0, 0, 0, 0, 0, 0, 2, 0, 0, 0, 1]);
    let (mut reader, size) = after_head(&wrong);
    let e = Stco::parse(&mut reader, &cfg(), size).unwrap_err();
    assert_eq!(e.kind, ErrorKind::Parsing);
    let wrong = atom(b"co64", &[1, 0, 0, 0, 0, 0, 0, 0]);
    let (mut reader, size) = after_head(&wrong);
    assert_eq!(Co64::parse(&mut reader, &cfg(), size).unwrap_err().kind, ErrorKind::UnknownVersion(1));
    let (mut reader, size) = after_head(&out);
    let b = Co64::find(&mut reader, size).unwrap();
    assert_eq!((b.bounds.pos, b.bounds.len()), (0, 32));
    let (mut reader, size) = after_head(&out);
    assert_eq!(Mdat::find(&mut reader, size).unwrap().bounds.end(), 32);
}

fn sample_trak() -> Trak {
    Trak {
        tkhd: Some(Tkhd { id: 1 }),
        tref: Some(Tref(vec![0, 0, 0, 12, b'c', b'h', b'a', b'p', 0, 0, 0, 2])),
        mdia: Some(Mdia {
            mdhd: Some(Mdhd { timescale: 44100, duration: 88200 }),
            hdlr: Some(Hdlr(vec![0; 25])),
            minf: Some(Minf {
                stbl: Some(Stbl {
                    stsd: Some(Stsd { mp4a: Some(sample_mp4a()) }),
                    stco: None,
                    co64: None,
                }),
            }),
        }),
    }
}

#[test]
fn track_round_trips() {
    let trak = sample_trak();
    let mut out = Vec::new();
    trak.write(&mut out);
    assert_eq!(out.len() as u64, trak.len());
    let (mut reader, size) = after_head(&out);
    assert_eq!(Trak::parse(&mut reader, &cfg(), size).unwrap(), trak);
    let (mut reader, size) = after_head(&out);
    let audio = ReadConfig { read_audio_info: true, read_chapters: false, read_tag: false };
    let read = Trak::parse(&mut reader, &audio, size).unwrap();
    assert_eq!(read.tkhd, None);
    assert_eq!(read.tref, None);
    let mdia = read.mdia.unwrap();
    assert_eq!((mdia.mdhd, mdia.hdlr), (None, None));
    assert_eq!(mdia.minf.unwrap().stbl.unwrap().stsd.unwrap().mp4a, Some(sample_mp4a()));
    let (mut reader, size) = after_head(&out);
    let none = ReadConfig { read_audio_info: false, read_chapters: false, read_tag: true };
    assert_eq!(Trak::parse(&mut reader, &none, size).unwrap(), Trak::default());
    let (mut reader, size) = after_head(&out);
    let b = Trak::find(&mut reader, size).unwrap();
    assert_eq!(b.tkhd, Some(Tkhd { id: 1 }));
    assert_eq!(b.bounds.len(), trak.len());
    assert_eq!(b.tref.unwrap().bounds.pos, 8 + 92);
    let mdia = b.mdia.unwrap();
    assert_eq!(mdia.bounds.pos, 8 + 92 + 20);
    assert_eq!(mdia.bounds.end(), trak.len());
    let stbl = mdia.minf.unwrap().stbl.unwrap();
    assert_eq!(stbl.bounds.end(), trak.len());
    assert!(stbl.stco.is_none() && stbl.co64.is_none());
}

#[test]
fn table_positions_are_those_of_the_file() {
    let stbl = atom(b"stbl", &cat(&[atom(b"stco", &[0, 0, 0, 0, 0, 0, 0, 1, 0, 0, 0, 9]), atom(b"co64", &[0, 0, 0, 0, 0, 0, 0, 0])]));
    let bytes = cat(&[vec![0; 5], stbl]);
    let mut reader = Reader::new(&bytes);
    reader.skip(5).unwrap();
    let head = parse_head(&mut reader).unwrap();
    let read = Stbl::parse(&mut reader, &cfg(), head.size()).unwrap();
    assert_eq!(read.stco, Some(Stco { table_pos: 5 + 8 + 8 + 8, offsets: vec![9] }));
    assert_eq!(read.co64, Some(Co64 { table_pos: 5 + 8 + 20 + 8 + 8, offsets: vec![] }));
    let mut out = Vec::new();
    read.write(&mut out);
    assert_eq!(out, bytes[5..]);
    let mut reader = Reader::new(&bytes);
    reader.skip(13).unwrap();
    let b = Stbl::find(&mut reader, head.size()).unwrap();
    assert_eq!(b.stco.unwrap().bounds.content_pos(), 21);
    assert_eq!(b.co64.unwrap().bounds.pos, 33);
}

fn title_item(title: &str) -> MetaItem {
    MetaItem::new(DataIdent::fourcc(TITLE), vec![Data::Utf8(title.to_string())])
}

#[test]
fn items_round_trip() {
    let items = vec![
        title_item("a"),
        MetaItem::new(DataIdent::freeform("com.apple.iTunes", "ISRC"), vec![Data::Utf8("X".to_string()), Data::Utf16("\u{1f3b5}".to_string())]),
        MetaItem::new(DataIdent::fourcc(FREEFORM), vec![Data::Jpeg(vec![1, 2]), Data::Png(vec![3])]),
        MetaItem::new(DataIdent::fourcc(TITLE), vec![]),
    ];
    for item in &items {
        let mut out = Vec::new();
        item.write(&mut out);
        assert_eq!(out.len() as u64, item.len());
        let mut reader = Reader::new(&out);
        let head = parse_head(&mut reader).unwrap();
        assert_eq!(&MetaItem::parse(&mut reader, head.fourcc, head.size()).unwrap(), item);
        assert_eq!(&item.duplicate(), item);
    }
    let ilst = Ilst::Borrowed(&items);
    let mut out = Vec::new();
    ilst.write(&mut out);
    assert_eq!(out.len() as u64, ilst.len());
    let (mut reader, size) = after_head(&out);
    let read = Ilst::parse(&mut reader, &cfg(), size).unwrap();
    assert_eq!(read.items(), &items[..]);
    assert_eq!(read.clone().owned(), Some(items.clone()));
    assert_eq!(read.into_items(), items);
    assert_eq!(Ilst::Borrowed(&items).owned(), None);
    assert_eq!(Ilst::Borrowed(&items).into_items(), items);
    let (mut reader, size) = after_head(&out);
    assert_eq!(Ilst::find(&mut reader, size).unwrap().bounds.len(), out.len() as u64);
}

#[test]
fn freeform_needs_mean_and_name() {
    let data = atom(b"data", &[0, 0, 0, 1, 0, 0, 0, 0, b'v']);
    let mean = atom(b"mean", &[0, 0, 0, 0, b'm']);
    let name = atom(b"name", &[0, 0, 0, 0, b'n']);
    let parse = |bytes: &[u8]| {
        let mut reader = Reader::new(bytes);
        let head = parse_head(&mut reader).unwrap();
        MetaItem::parse(&mut reader, head.fourcc, head.size())
    };
    let full = parse(&atom(b"----", &cat(&[mean.clone(), name.clone(), data.clone()]))).unwrap();
    assert_eq!(full.ident, DataIdent::freeform("m", "n"));
    assert_eq!(full.data, vec![Data::Utf8("v".to_string())]);
    let half = parse(&atom(b"----", &cat(&[mean.clone(), data.clone()]))).unwrap();
    assert_eq!(half.ident, DataIdent::fourcc(FREEFORM));
    let other = parse(&atom(b"\xa9nam", &cat(&[mean.clone(), name.clone(), atom(b"free", &[]), data.clone()]))).unwrap();
    assert_eq!(other.ident, DataIdent::fourcc(TITLE));
    let e = parse(&atom(b"----", &cat(&[atom(b"mean", &[1, 0, 0, 0, b'm']), name, data]))).unwrap_err();
    assert_eq!(e.kind, ErrorKind::UnknownVersion(1));
    assert_eq!(e.to_string(), "Error parsing ----: Error parsing mean: Unknown version of a freeform atom");
    let e = parse(&atom(b"\xa9nam", &atom(b"data", &[0, 0, 0, 1, 0, 0, 0, 0, 0xff]))).unwrap_err();
    assert_eq!(e.kind, ErrorKind::Parsing);
    let e = parse(&atom(b"\xa9nam", &atom(b"data", &[0, 0, 0, 99, 0, 0, 0, 0, 1]))).unwrap_err();
    assert_eq!(e.kind, ErrorKind::Parsing);
    assert_eq!(e.to_string(), "Error parsing \u{a9}nam: Error parsing data: Unknown data type code");
}

#[test]
fn meta_and_udta_round_trip() {
    let items = vec![title_item("t")];
    let meta = Meta { hdlr: Some(Meta::hdlr()), ilst: Some(Ilst::Owned(items.clone())) };
    let mut out = Vec::new();
    meta.write(&mut out);
    assert_eq!(out.len() as u64, meta.len());
    assert_eq!(&out[8..12], &[0, 0, 0, 0]);
    assert_eq!(&out[12..45], &atom(b"hdlr", &cat(&[vec![0; 8], b"mdirappl".to_vec(), vec![0; 9]]))[..]);
    let (mut reader, size) = after_head(&out);
    assert_eq!(Meta::parse(&mut reader, &cfg(), size).unwrap(), meta);
    let (mut reader, size) = after_head(&out);
    let no_tag = ReadConfig { read_audio_info: true, read_chapters: true, read_tag: false };
    assert_eq!(Meta::parse(&mut reader, &no_tag, size).unwrap(), Meta { hdlr: Some(Meta::hdlr()), ilst: None });
    let (mut reader, size) = after_head(&out);
    let b = Meta::find(&mut reader, size).unwrap();
    assert_eq!(b.hdlr.unwrap().bounds.pos, 12);
    assert_eq!(b.ilst.unwrap().bounds.pos, 45);
    assert_eq!(b.ilst.unwrap().bounds.end(), out.len() as u64);
    let version = atom(b"meta", &[1, 0, 0, 0]);
    let (mut reader, size) = after_head(&version);
    assert_eq!(Meta::parse(&mut reader, &cfg(), size).unwrap_err().kind, ErrorKind::UnknownVersion(1));
    let (mut reader, size) = after_head(&version);
    assert_eq!(Meta::find(&mut reader, size).unwrap_err().kind, ErrorKind::UnknownVersion(1));
    let udta = Udta { meta: Some(meta) };
    let mut out = Vec::new();
    udta.write(&mut out);
    assert_eq!(out.len() as u64, udta.len());
    let (mut reader, size) = after_head(&out);
    assert_eq!(Udta::parse(&mut reader, &cfg(), size).unwrap(), udta);
    let (mut reader, size) = after_head(&out);
    assert_eq!(Udta::parse(&mut reader, &no_tag, size).unwrap(), Udta { meta: None });
    let (mut reader, size) = after_head(&out);
    let b = Udta::find(&mut reader, size).unwrap();
    assert_eq!(b.meta.unwrap().ilst.unwrap().bounds.pos, 8 + 45);
    let empty = Udta { meta: None };
    assert_eq!(empty.len(), 8);
}

#[test]
fn movie_round_trips() {
    let moov = Moov {
        mvhd: Some(Mvhd { duration: Duration { secs: 61, nanos: 5 } }),
        trak: vec![sample_trak(), Trak::default()],
        udta: Some(Udta { meta: Some(Meta { hdlr: None, ilst: Some(Ilst::Owned(vec![title_item("t")])) }) }),
    };
    let mut out = Vec::new();
    moov.write(&mut out);
    assert_eq!(out.len() as u64, moov.len());
    let (mut reader, size) = after_head(&out);
    assert_eq!(Moov::parse(&mut reader, &cfg(), size).unwrap(), moov);
    let (mut reader, size) = after_head(&out);
    let b = Moov::find(&mut reader, size).unwrap();
    assert_eq!(b.trak.len(), 2);
    assert_eq!(b.trak[0].bounds.pos, 8 + 120);
    assert_eq!(b.trak[1].bounds.len(), 8);
    assert_eq!(b.udta.unwrap().bounds.end(), out.len() as u64);
    let file = cat(&[atom(b"ftyp", b"M4B "), atom(b"free", &[]), out.clone(), atom(b"moov", &[])]);
    let tag = read_tag_from(&mut Reader::new(&file)).unwrap();
    assert_eq!(tag.filetype(), "M4B ");
    assert_eq!(tag.duration(), Some(Duration { secs: 61, nanos: 5 }));
    assert_eq!(tag.channel_config(), Some(ChannelConfig::Stereo));
    assert_eq!(tag.sample_rate(), Some(SampleRate::Hz44100));
    assert_eq!(tag.max_bitrate(), Some(256_000));
    assert_eq!(tag.avg_bitrate(), Some(128_000));
    assert_eq!(tag.audio_info().duration, tag.duration());
    assert_eq!(tag.items, vec![title_item("t")]);
}

#[test]
fn stsd_round_trips() {
    for stsd in [Stsd { mp4a: None }, Stsd { mp4a: Some(sample_mp4a()) }] {
        let mut out = Vec::new();
        stsd.write(&mut out);
        assert_eq!(out.len() as u64, stsd.len());
        let (mut reader, size) = after_head(&out);
        assert_eq!(Stsd::parse(&mut reader, &cfg(), size).unwrap(), stsd);
    }
    let with_other = atom(b"stsd", &cat(&[vec![0, 0, 0, 0, 0, 0, 0, 2], atom(b"alac", &[1]), mp4a_atom()]));
    let (mut reader, size) = after_head(&with_other);
    assert_eq!(Stsd::parse(&mut reader, &cfg(), size).unwrap().mp4a, Some(sample_mp4a()));
    let version = atom(b"stsd", &[3, 0, 0, 0, 0, 0, 0, 0]);
    let (mut reader, size) = after_head(&version);
    assert_eq!(Stsd::parse(&mut reader, &cfg(), size).unwrap_err().kind, ErrorKind::UnknownVersion(3));
}

#[test]
fn file_type_atom() {
    let bytes = atom(b"ftyp", b"M4A \0\0\x02\0isomiso2");
    let ftyp = Ftyp::parse(&mut Reader::new(&bytes)).unwrap();
    assert_eq!(ftyp.0, "M4A \u{0}\u{0}\u{2}\u{0}isomiso2");
    let mut out = Vec::new();
    ftyp.write(&mut out);
    assert_eq!(out, bytes);
    let e = Ftyp::parse(&mut Reader::new(&atom(b"ftyp", b"mp42isom"))).unwrap_err();
    assert_eq!(e.kind, ErrorKind::InvalidFiletype("mp42isom".to_string()));
    let e = Ftyp::parse(&mut Reader::new(&atom(b"moov", b"M4A "))).unwrap_err();
    assert_eq!(e.kind, ErrorKind::NoTag);
    let e = Ftyp::parse(&mut Reader::new(&atom(b"ftyp", &[b'M', b'4', b'A', b' ', 0xff]))).unwrap_err();
    assert_eq!(e.kind, ErrorKind::NoTag);
    let e = Ftyp::parse(&mut Reader::new(&bytes[..20])).unwrap_err();
    assert_eq!(e.kind, ErrorKind::Io(IoErrorKind::UnexpectedEof));
}
