use mp4ameta::codec::{put_be_u16, put_be_u32, put_be_u64, put_bytes, put_u8};
use mp4ameta::data::{Data, DataT, BE_SIGNED, BMP, JPEG, PNG, RESERVED, UTF16, UTF8};
use mp4ameta::error::{Error, ErrorKind, IoErrorKind};
use mp4ameta::head::{find_bounds, parse_full_head, parse_head, write_full_head, write_head};
use mp4ameta::head::{AtomBounds, Head, Size};
use mp4ameta::ident::{DataIdent, Ident, FREEFORM, MOVIE, TITLE};
use mp4ameta::reader::Reader;

#[test]
fn big_endian_bytes() {
    let mut out = Vec::new();
    put_u8(&mut out, 0xab);
    put_be_u16(&mut out, 0x0102);
    put_be_u32(&mut out, 0x0304_0506);
    put_be_u64(&mut out, 0x0708_090a_0b0c_0d0e);
    put_bytes(&mut out, &[0xff, 0xfe]);
    assert_eq!(out, vec![0xab, 1, 2, 3, 4, 5, 6, 7, 8, 9, 10, 11, 12, 13, 14, 0xff, 0xfe]);
    let mut reader = Reader::new(&out);
    assert_eq!(reader.read_u8().unwrap(), 0xab);
    assert_eq!(reader.read_be_u16().unwrap(), 0x0102);
    assert_eq!(reader.peek_be_u32(), Some(0x0304_0506));
    assert_eq!(reader.read_be_u32().unwrap(), 0x0304_0506);
    assert_eq!(reader.read_be_u64().unwrap(), 0x0708_090a_0b0c_0d0e);
    assert_eq!(reader.position(), 15);
    assert_eq!(reader.remaining(), 2);
    assert_eq!(reader.read_u8_vec(2).unwrap(), vec![0xff, 0xfe]);
    assert_eq!(reader.peek_be_u32(), None);
}

#[test]
fn reads_past_the_end_fail_and_leave_the_cursor() {
    let bytes = [1u8, 2, 3];
    let mut reader = Reader::new(&bytes);
    let e = reader.read_be_u32().unwrap_err();
    assert_eq!(e.kind, ErrorKind::Io(IoErrorKind::UnexpectedEof));
    assert_eq!(e.to_string(), "failed to fill whole buffer");
    assert_eq!(reader.position(), 0);
    assert!(reader.read_be_u64().is_err());
    assert!(reader.read_u8_vec(4).is_err());
    assert!(reader.skip(4).is_err());
    assert!(reader.seek(4).is_err());
    assert!(reader.take(4).is_err());
    reader.skip(1).unwrap();
    assert_eq!(reader.read_be_u16().unwrap(), 0x0203);
    assert!(reader.read_u8().is_err());
    assert!(reader.read_be_u16().is_err());
    reader.seek(1).unwrap();
    let mut sub = reader.take(2).unwrap();
    assert_eq!(sub.position(), 1);
    assert_eq!(sub.remaining(), 2);
    assert_eq!(sub.read_u8().unwrap(), 2);
    sub.skip_to_end();
    assert_eq!(sub.remaining(), 0);
    assert_eq!(reader.remaining(), 0);
}

#[test]
fn head_round_trip_plain() {
    let head = Head { size: 24, fourcc: Ident(MOVIE), ext_size: None };
    let mut out = Vec::new();
    write_head(&mut out, head);
    assert_eq!(out, vec![0, 0, 0, 24, b'm', b'o', b'o', b'v']);
    let mut reader = Reader::new(&out);
    assert_eq!(parse_head(&mut reader).unwrap(), head);
    assert_eq!(head.len(), 24);
    assert_eq!(head.head_len(), 8);
    assert_eq!(head.content_len(), 16);
    assert_eq!(head.fourcc(), Ident(MOVIE));
    assert_eq!(head.size(), Size { ext: false, len: 24 });
}

#[test]
fn head_round_trip_extended() {
    let head = Head { size: 1, fourcc: Ident(MOVIE), ext_size: Some(0x1_0000_0010) };
    let mut out = Vec::new();
    write_head(&mut out, head);
    assert_eq!(out, vec![0, 0, 0, 1, b'm', b'o', b'o', b'v', 0, 0, 0, 1, 0, 0, 0, 0x10]);
    let mut reader = Reader::new(&out);
    assert_eq!(parse_head(&mut reader).unwrap(), head);
    assert_eq!(reader.position(), 16);
    assert_eq!(head.head_len(), 16);
    assert_eq!(head.content_len(), 0x1_0000_0000);
    assert_eq!(Head::from(Size::from(0x1_0000_0000), Ident(MOVIE)), head);
    assert_eq!(Head::from(Size::from(16), Ident(MOVIE)).size, 24);
}

#[test]
fn head_of_open_length_reaches_to_the_end() {
    let bytes = [0, 0, 0, 0, b'm', b'd', b'a', b't', 1, 2, 3];
    let mut reader = Reader::new(&bytes);
    let head = parse_head(&mut reader).unwrap();
    assert_eq!(head.ext_size, Some(11));
    assert_eq!(head.size(), Size { ext: false, len: 11 });
    assert_eq!(head.content_len(), 3);
}

#[test]
fn heads_that_cannot_be() {
    let short = [0, 0, 0, 7, b'f', b'r', b'e', b'e'];
    let e = parse_head(&mut Reader::new(&short)).unwrap_err();
    assert_eq!(e.kind, ErrorKind::Parsing);
    let ext = [0, 0, 0, 1, b'f', b'r', b'e', b'e', 0, 0, 0, 0, 0, 0, 0, 15];
    let e = parse_head(&mut Reader::new(&ext)).unwrap_err();
    assert_eq!(e.kind, ErrorKind::Parsing);
    let e = parse_head(&mut Reader::new(&ext[..12])).unwrap_err();
    assert_eq!(e.kind, ErrorKind::Io(IoErrorKind::UnexpectedEof));
    assert_eq!(e.to_string(), "Error reading extended atom length");
    let e = parse_head(&mut Reader::new(&ext[..6])).unwrap_err();
    assert_eq!(e.to_string(), "Error reading atom identifier");
}

#[test]
fn size_of_content() {
    assert_eq!(Size::from(0), Size { ext: false, len: 8 });
    assert_eq!(Size::from(0xffff_fff7), Size { ext: false, len: 0xffff_ffff });
    assert_eq!(Size::from(0xffff_fff8), Size { ext: true, len: 0x1_0000_0008 });
    let size = Size::from(100);
    assert_eq!(size.len(), size.head_len() + size.content_len());
    assert!(!size.ext());
    let size = Size::from(0x2_0000_0000);
    assert_eq!(size.len(), size.head_len() + size.content_len());
    assert_eq!(size.head_len(), 16);
}

#[test]
fn bounds_of_an_atom() {
    let b = AtomBounds { pos: 100, size: Size { ext: true, len: 50 }, fourcc: Ident(MOVIE) };
    assert_eq!(b.pos(), 100);
    assert_eq!(b.len(), 50);
    assert_eq!(b.end(), 150);
    assert_eq!(b.content_pos(), 116);
    assert_eq!(b.content_end(), 150);
    assert!(b.ext());
    assert_eq!(b.size(), Size { ext: true, len: 50 });
    let bytes = [0u8; 30];
    let mut reader = Reader::new(&bytes);
    reader.skip(8).unwrap();
    let content = reader.take(12).unwrap();
    let found = find_bounds(&content, Size { ext: false, len: 20 }, Ident(MOVIE));
    assert_eq!(found, AtomBounds { pos: 0, size: Size { ext: false, len: 20 }, fourcc: Ident(MOVIE) });
}

#[test]
fn full_head() {
    let mut out = Vec::new();
    write_full_head(&mut out, 1, [2, 3, 4]);
    assert_eq!(out, vec![1, 2, 3, 4]);
    let mut reader = Reader::new(&out);
    assert_eq!(parse_full_head(&mut reader).unwrap(), (1, [2, 3, 4]));
    assert!(parse_full_head(&mut Reader::new(&out[..3])).is_err());
}

#[test]
fn identifiers() {
    assert_eq!(Ident::new(*b"moov"), Ident(MOVIE));
    assert_eq!(Ident(MOVIE).to_bytes(), *b"moov");
    assert_eq!(Ident(MOVIE).to_string(), "moov");
    assert_eq!(Ident(TITLE).to_bytes(), [0xa9, b'n', b'a', b'm']);
    assert_eq!(Ident(TITLE).to_string(), "\u{a9}nam");
    assert_eq!(Ident(FREEFORM).to_string(), "----");
    let a = DataIdent::fourcc(TITLE);
    let b = DataIdent::freeform("com.apple.iTunes", "ISRC");
    assert!(a.same(&DataIdent::Fourcc(Ident(TITLE))));
    assert!(!a.same(&b));
    assert!(b.same(&DataIdent::freeform("com.apple.iTunes", "ISRC")));
    assert!(!b.same(&DataIdent::freeform("com.apple.iTunes", "isrc")));
    assert!(!a.same(&DataIdent::fourcc(MOVIE)));
}

#[test]
fn errors_name_the_atom() {
    let e = Error::new(ErrorKind::Parsing, "broken").annotate("parsing", Ident(TITLE));
    assert_eq!(e.kind, ErrorKind::Parsing);
    assert_eq!(e.to_string(), "Error parsing \u{a9}nam: broken");
    assert_eq!(Error::eof().kind, ErrorKind::Io(IoErrorKind::UnexpectedEof));
}

#[test]
fn data_of_each_type() {
    let bytes = [b'a', b'b', 0xc3, 0xa4];
    let parse = |code: u32| DataT::new(code).parse(&mut Reader::new(&bytes), 4).unwrap();
    assert_eq!(parse(RESERVED), Data::Reserved(bytes.to_vec()));
    assert_eq!(parse(UTF8), Data::Utf8("ab\u{e4}".to_string()));
    assert_eq!(parse(JPEG), Data::Jpeg(bytes.to_vec()));
    assert_eq!(parse(PNG), Data::Png(bytes.to_vec()));
    assert_eq!(parse(BE_SIGNED), Data::BeSigned(bytes.to_vec()));
    assert_eq!(parse(BMP), Data::Bmp(bytes.to_vec()));
    assert_eq!(DataT::with(UTF8), DataT { code: 1 });
    let e = DataT::new(3).parse(&mut Reader::new(&bytes), 4).unwrap_err();
    assert_eq!(e.kind, ErrorKind::Parsing);
    let e = DataT::new(UTF8).parse(&mut Reader::new(&bytes), 3).unwrap_err();
    assert_eq!(e.kind, ErrorKind::Parsing);
    let e = DataT::new(UTF8).parse(&mut Reader::new(&bytes), 5).unwrap_err();
    assert_eq!(e.kind, ErrorKind::Io(IoErrorKind::UnexpectedEof));
}

#[test]
fn utf16_data() {
    let text = "a\u{e4}\u{1f3b5}";
    let data = Data::Utf16(text.to_string());
    assert_eq!(data.code(), UTF16);
    assert_eq!(data.len(), 8);
    let mut out = Vec::new();
    data.write_raw(&mut out);
    assert_eq!(out, vec![0, b'a', 0, 0xe4, 0xd8, 0x3c, 0xdf, 0xb5]);
    let read = DataT::new(UTF16).parse(&mut Reader::new(&out), 8).unwrap();
    assert_eq!(read, data);
    let e = DataT::new(UTF16).parse(&mut Reader::new(&out), 7).unwrap_err();
    assert_eq!(e.kind, ErrorKind::Parsing);
    let e = DataT::new(UTF16).parse(&mut Reader::new(&out), 6).unwrap_err();
    assert_eq!(e.kind, ErrorKind::Parsing);
    assert_eq!(e.to_string(), "Data is not valid utf-16");
}

#[test]
fn typed_data_bytes() {
    let data = Data::Utf8("h\u{e9}".to_string());
    assert_eq!(data.len(), 3);
    assert!(!data.is_empty());
    assert!(Data::Jpeg(Vec::new()).is_empty());
    let mut out = vec![9];
    data.write_typed(&mut out);
    assert_eq!(out, vec![9, 0, 0, 0, 1, 0, 0, 0, 0, b'h', 0xc3, 0xa9]);
    assert_eq!(data.duplicate(), data);
    assert_eq!(Data::BeSigned(vec![1, 2]).code(), 21);
    assert_eq!(Data::Bmp(vec![]).code(), 27);
    assert_eq!(Data::Png(vec![]).code(), 14);
    assert_eq!(Data::Jpeg(vec![]).code(), 13);
    assert_eq!(Data::Reserved(vec![]).code(), 0);
}
