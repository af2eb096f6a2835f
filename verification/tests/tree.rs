use mp4ameta::atom::{valid_filetype, Atom, AtomT};
use mp4ameta::content::{Content, ContentT};
use mp4ameta::data::{Data, DataT, RESERVED, UTF8};
use mp4ameta::error::{ErrorKind, IoErrorKind};
use mp4ameta::head::Size;
use mp4ameta::ident::{Ident, ALBUM, DATA, FILE_TYPE, ITEM_LIST, MEDIA_HEADER, METADATA, MOVIE};
use mp4ameta::ident::{TITLE, TRACK, USER_DATA};
use mp4ameta::reader::Reader;
use mp4ameta::template::{filetype_atom, item_list_atom_t, metadata_atom};

fn atom(name: &[u8; 4], content: &[u8]) -> Vec<u8> {
    let mut v = ((content.len() + 8) as u32).to_be_bytes().to_vec();
    v.extend_from_slice(name);
    v.extend_from_slice(content);
    v
}

fn cat(parts: &[Vec<u8>]) -> Vec<u8> {
    let mut v = Vec::new();
    for p in parts {
        v.extend_from_slice(p);
    }
    v
}

fn text_item(name: &[u8; 4], text: &str) -> Vec<u8> {
    let mut d = vec![0, 0, 0, 1, 0, 0, 0, 0];
    d.extend_from_slice(text.as_bytes());
    atom(name, &atom(b"data", &d))
}

fn title_atom(text: &str) -> Atom {
    Atom::with(Ident(TITLE), 0, Content::data_atom_with(Data::Utf8(text.to_string())))
}

#[test]
fn atom_constructors() {
    let data = Data::Utf8("x".to_string());
    let a = Atom::with_raw_data(Ident(FILE_TYPE), 0, data.clone());
    assert_eq!(a, Atom { ident: Ident(FILE_TYPE), offset: 0, content: Content::RawData(data.clone()) });
    let b = Atom::with_typed_data(Ident(ALBUM), 4, data.clone());
    assert_eq!(b.content, Content::TypedData(data.clone()));
    assert_eq!(b.offset, 4);
    let c = Atom::data_atom_with(data.clone());
    assert_eq!(c, Atom { ident: Ident(DATA), offset: 0, content: Content::TypedData(data.clone()) });
    assert_eq!(Content::atom(c), Content::data_atom_with(data));
    assert_eq!(Content::atoms(), Content::Atoms(Vec::new()));
    assert_eq!(Content::default(), Content::Empty);
    assert_eq!(ContentT::default(), ContentT::Empty);
}

#[test]
fn atom_lengths() {
    let a = title_atom("abc");
    assert_eq!(a.len(), 8 + 8 + 8 + 3);
    assert_eq!(a.byte_len(), 27);
    assert_eq!(a.content.len(), 19);
    assert!(!a.is_empty());
    assert!(!a.content.is_empty());
    let e = Atom::with(Ident(ALBUM), 0, Content::Empty);
    assert_eq!(e.len(), 8);
    assert!(e.is_empty());
    assert!(e.content.is_empty());
    assert!(Content::atoms().is_empty());
    let o = Atom::with(Ident(ALBUM), 4, Content::RawData(Data::Reserved(vec![1, 2])));
    assert_eq!(o.len(), 14);
    assert!(!o.is_empty());
    assert_eq!(Content::RawData(Data::Reserved(vec![1, 2])).len(), 2);
    assert_eq!(Content::TypedData(Data::Reserved(vec![1, 2])).len(), 10);
}

#[test]
fn atom_bytes() {
    let a = Atom::with(
        Ident(METADATA),
        4,
        Content::atom(Atom::with(Ident(ITEM_LIST), 0, Content::atom(title_atom("hi")))),
    );
    let mut out = Vec::new();
    a.write_to(&mut out).unwrap();
    let want = atom(b"meta", &cat(&[vec![0; 4], atom(b"ilst", &text_item(b"\xa9nam", "hi"))]));
    assert_eq!(out, want);
    assert_eq!(out.len(), a.len());
    let mut out = vec![7];
    a.content.write_to(&mut out).unwrap();
    assert_eq!(&out[1..], &want[12..]);
    let mut out = Vec::new();
    Content::RawData(Data::Utf8("M4A ".to_string())).write_to(&mut out).unwrap();
    assert_eq!(out, b"M4A ");
    Content::Empty.write_to(&mut out).unwrap();
    assert_eq!(out, b"M4A ");
}

#[test]
fn children_of_an_atom() {
    let mut a = Atom::with(
        Ident(ITEM_LIST),
        0,
        Content::Atoms(vec![title_atom("one"), Atom::with(Ident(ALBUM), 0, Content::Empty), title_atom("two")]),
    );
    assert_eq!(a.child(Ident(TITLE)), Some(&title_atom("one")));
    assert_eq!(a.child(Ident(ALBUM)).unwrap().ident, Ident(ALBUM));
    assert_eq!(a.child(Ident(MOVIE)), None);
    assert_eq!(a.first_child(), Some(&title_atom("one")));
    assert_eq!(a.content.iter().len(), 3);
    assert_eq!(a.content.child(Ident(ALBUM)).unwrap().len(), 8);
    assert_eq!(a.content.first_child(), Some(&title_atom("one")));
    a.mut_child(Ident(ALBUM)).unwrap().offset = 2;
    assert_eq!(a.content.iter()[1].offset, 2);
    a.mut_first_child().unwrap().ident = Ident(ALBUM);
    assert_eq!(a.child(Ident(ALBUM)).unwrap().len(), 27);
    assert!(a.mut_child(Ident(MOVIE)).is_none());
    a.content.child_mut(Ident(TITLE)).unwrap().offset = 1;
    assert_eq!(a.content.iter()[2].offset, 1);
    a.content.first_child_mut().unwrap().offset = 3;
    assert_eq!(a.content.iter()[0].offset, 3);
    a.content.iter_mut()[1].offset = 9;
    assert_eq!(a.content.iter()[1].offset, 9);
    let leaf = Atom::with_raw_data(Ident(ALBUM), 0, Data::Reserved(vec![]));
    assert_eq!(leaf.child(Ident(ALBUM)), None);
    assert_eq!(leaf.first_child(), None);
    assert!(leaf.content.iter().is_empty());
    let mut leaf = leaf;
    assert!(leaf.mut_first_child().is_none());
    assert!(leaf.content.iter_mut().is_empty());
    assert!(leaf.content.first_child_mut().is_none());
    assert!(leaf.content.child_mut(Ident(ALBUM)).is_none());
}

#[test]
fn taking_from_a_content() {
    let kids = || Content::Atoms(vec![title_atom("one"), Atom::with(Ident(ALBUM), 0, Content::Empty)]);
    assert_eq!(kids().take_child(Ident(ALBUM)), Some(Atom::with(Ident(ALBUM), 0, Content::Empty)));
    assert_eq!(kids().take_child(Ident(MOVIE)), None);
    assert_eq!(kids().take_first_child(), Some(title_atom("one")));
    assert_eq!(Content::atoms().take_first_child(), None);
    assert_eq!(Content::Empty.take_first_child(), None);
    assert_eq!(Content::Empty.take_child(Ident(ALBUM)), None);
    let mut c = Content::TypedData(Data::Reserved(vec![1]));
    assert_eq!(c.take_data(), Some(Data::Reserved(vec![1])));
    assert_eq!(c, Content::Empty);
    assert_eq!(c.take_data(), None);
    let mut c = Content::RawData(Data::Reserved(vec![2]));
    assert_eq!(c.take_data(), Some(Data::Reserved(vec![2])));
    let mut c = kids();
    assert_eq!(c.take_data(), None);
    assert_eq!(c, Content::Empty);
}

#[test]
fn templates() {
    let f = filetype_atom();
    assert_eq!(f, AtomT::with_raw_data(Ident(FILE_TYPE), 0, DataT::new(UTF8)));
    let m = metadata_atom();
    assert_eq!(m.ident, Ident(MOVIE));
    assert_eq!(m.content.iter().len(), 2);
    let mdhd = m.child(Ident(TRACK)).unwrap().first_child().unwrap().first_child().unwrap();
    assert_eq!(*mdhd, AtomT::with_raw_data(Ident(MEDIA_HEADER), 0, DataT::with(RESERVED)));
    let meta = m.child(Ident(USER_DATA)).unwrap().child(Ident(METADATA)).unwrap();
    assert_eq!(meta.offset, 4);
    let ilst = meta.child(Ident(ITEM_LIST)).unwrap();
    assert_eq!(ilst.content.iter().len(), 38);
    assert_eq!(ilst.first_child().unwrap().ident.to_string(), "rtng");
    assert_eq!(ilst.content.iter()[37].ident.to_string(), "covr");
    assert_eq!(ilst.child(Ident(TITLE)).unwrap().content, ContentT::data_atom_t());
    assert_eq!(ContentT::data_atom_t(), ContentT::atom_t(AtomT::data_atom()));
    assert_eq!(AtomT::data_atom(), AtomT::with(Ident(DATA), 0, ContentT::TypedData));
    let l = item_list_atom_t();
    let ilst = l.first_child().unwrap().first_child().unwrap().first_child().unwrap();
    assert_eq!(*ilst, AtomT::with(Ident(ITEM_LIST), 0, ContentT::atoms_t()));
    assert_eq!(ContentT::atoms_t().add_atom_t_with(Ident(DATA), 0, ContentT::TypedData), ContentT::data_atom_t());
    assert_eq!(ContentT::atom_t_with(Ident(DATA), 0, ContentT::TypedData), ContentT::data_atom_t());
    assert_eq!(ContentT::Empty.add_atom_t_with(Ident(DATA), 0, ContentT::TypedData), ContentT::Empty);
}

#[test]
fn children_of_a_template() {
    let mut t = metadata_atom();
    assert!(t.child(Ident(ITEM_LIST)).is_none());
    assert_eq!(t.first_child().unwrap().ident, Ident(TRACK));
    t.mut_child(Ident(USER_DATA)).unwrap().offset = 7;
    assert_eq!(t.content.iter()[1].offset, 7);
    t.mut_first_child().unwrap().offset = 5;
    assert_eq!(t.content.child(Ident(TRACK)).unwrap().offset, 5);
    t.content.child_mut(Ident(TRACK)).unwrap().offset = 6;
    t.content.first_child_mut().unwrap().ident = Ident(ALBUM);
    t.content.iter_mut()[1].ident = Ident(TITLE);
    assert_eq!(t.content.first_child().unwrap(), t.child(Ident(ALBUM)).unwrap());
    assert_eq!(t.content.first_child().unwrap().offset, 6);
    let c = metadata_atom().content;
    assert_eq!(c.take_child(Ident(USER_DATA)).unwrap().ident, Ident(USER_DATA));
    assert_eq!(metadata_atom().content.take_first_child().unwrap().ident, Ident(TRACK));
    assert!(metadata_atom().content.take_child(Ident(ALBUM)).is_none());
    assert!(ContentT::TypedData.take_first_child().is_none());
    assert!(ContentT::TypedData.take_child(Ident(ALBUM)).is_none());
    assert!(ContentT::TypedData.iter().is_empty());
    let mut leaf = AtomT::data_atom();
    assert!(leaf.first_child().is_none());
    assert!(leaf.mut_first_child().is_none());
    assert!(leaf.mut_child(Ident(ALBUM)).is_none());
    assert!(leaf.content.first_child_mut().is_none());
    assert!(leaf.content.child_mut(Ident(ALBUM)).is_none());
    assert!(leaf.content.iter_mut().is_empty());
}

#[test]
fn filetype_is_read_and_checked() {
    let bytes = atom(b"ftyp", b"M4A \0\0\x02\0isomiso2");
    let a = filetype_atom().parse(&mut Reader::new(&bytes)).unwrap();
    assert_eq!(a.content, Content::RawData(Data::Utf8("M4A \u{0}\u{0}\u{2}\u{0}isomiso2".to_string())));
    assert!(a.check_filetype().is_ok());
    for brand in ["M4A ", "M4B ", "M4P ", "M4V ", "isom", "isomiso2"] {
        assert!(valid_filetype(brand));
    }
    for brand in ["", "M4A", "M4C ", "mp42", "ISOM", " M4A "] {
        assert!(!valid_filetype(brand));
    }
    let a = filetype_atom().parse(&mut Reader::new(&atom(b"ftyp", b"mp42"))).unwrap();
    let e = a.check_filetype().unwrap_err();
    assert_eq!(e.kind, ErrorKind::InvalidFiletype("mp42".to_string()));
    let e = Atom::with(Ident(FILE_TYPE), 0, Content::Empty).check_filetype().unwrap_err();
    assert_eq!(e.kind, ErrorKind::NoTag);
    let e = filetype_atom().parse(&mut Reader::new(&atom(b"moov", b"M4A "))).unwrap_err();
    assert_eq!(e.kind, ErrorKind::AtomNotFound(Ident(FILE_TYPE)));
    assert_eq!(e.to_string(), "Expected ftyp found moov");
    let e = filetype_atom().parse(&mut Reader::new(&atom(b"ftyp", &[0xff, 0xfe]))).unwrap_err();
    assert_eq!(e.kind, ErrorKind::Parsing);
    assert_eq!(e.to_string(), "Error reading ftyp: Data is not valid utf-8");
}

#[test]
fn tree_is_read_by_template() {
    let mdhd = atom(b"mdhd", &[1, 2, 3]);
    let udta = atom(
        b"udta",
        &atom(
            b"meta",
            &cat(&[
                vec![0; 4],
                atom(b"hdlr", &[0; 25]),
                atom(b"ilst", &cat(&[text_item(b"\xa9nam", "t"), text_item(b"xxxx", "u"), text_item(b"\xa9alb", "a")])),
            ]),
        ),
    );
    let moov = atom(b"moov", &cat(&[atom(b"mvhd", &[0; 20]), atom(b"trak", &atom(b"mdia", &mdhd)), udta]));
    let bytes = cat(&[atom(b"free", &[1]), moov.clone(), atom(b"mdat", &[2, 2])]);
    let mut reader = Reader::new(&bytes);
    let atoms = AtomT::parse_atoms(&vec![metadata_atom()], &mut reader, bytes.len() as u64).unwrap();
    assert_eq!(reader.remaining(), 0);
    assert_eq!(atoms.len(), 1);
    let moov_atom = &atoms[0];
    let read_mdhd = moov_atom.child(Ident(TRACK)).unwrap().first_child().unwrap().first_child().unwrap();
    assert_eq!(read_mdhd.content, Content::RawData(Data::Reserved(vec![1, 2, 3])));
    let ilst = moov_atom.child(Ident(USER_DATA)).unwrap().first_child().unwrap().first_child().unwrap();
    assert_eq!(ilst.content, Content::Atoms(vec![title_atom("t"), Atom::with(Ident(ALBUM), 0, Content::data_atom_with(Data::Utf8("a".to_string())))]));
    let mut reader = Reader::new(&bytes);
    reader.skip(9).unwrap();
    let one = metadata_atom().parse(&mut reader).unwrap();
    assert_eq!(&one, moov_atom);
    assert_eq!(reader.position() as usize, 9 + moov.len());
    let mut reader = Reader::new(&bytes);
    reader.skip(17).unwrap();
    let content = metadata_atom().parse_content(&mut reader, Size { ext: false, len: moov.len() as u64 }).unwrap();
    assert_eq!(content, one.content);
    let mut reader = Reader::new(&bytes);
    reader.skip(17).unwrap();
    let content = metadata_atom().content.parse(&mut reader, moov.len() as u64 - 8).unwrap();
    assert_eq!(content, one.content);
}

#[test]
fn tree_errors() {
    let inner = atom(b"moov", &[0, 0, 0, 20, b'u', b'd', b't', b'a']);
    let e = AtomT::parse_atoms(&vec![metadata_atom()], &mut Reader::new(&inner), inner.len() as u64).unwrap_err();
    assert_eq!(e.kind, ErrorKind::Parsing);
    assert_eq!(e.to_string(), "Error reading moov: Atom reaches beyond the atom around it");
    let short = atom(b"moov", &atom(b"udta", &atom(b"meta", &cat(&[vec![0; 4], atom(b"ilst", &atom(b"\xa9nam", &atom(b"data", &[0, 0, 0, 1])))]))));
    let e = metadata_atom().parse(&mut Reader::new(&short)).unwrap_err();
    assert_eq!(e.kind, ErrorKind::Parsing);
    assert_eq!(
        e.to_string(),
        "Error reading moov: Error reading udta: Error reading meta: Error reading ilst: Error reading \u{a9}nam: Error reading data: Typed data head to short"
    );
    let free = atom(b"free", &[1, 2]);
    let e = AtomT::parse_atoms(&vec![metadata_atom()], &mut Reader::new(&free), free.len() as u64 + 8).unwrap_err();
    assert_eq!(e.kind, ErrorKind::Io(IoErrorKind::UnexpectedEof));
    assert_eq!(e.to_string(), "Error reading atom length");
    let open = [0, 0, 0, 0, b'm', b'o', b'o', b'v'];
    let e = AtomT::parse_atoms(&vec![metadata_atom()], &mut Reader::new(&open), 8).unwrap_err();
    assert_eq!(e.kind, ErrorKind::Parsing);
    let offset = atom(b"meta", &[0, 0]);
    let t = AtomT::with(Ident(METADATA), 4, ContentT::atoms_t());
    let e = t.parse(&mut Reader::new(&offset)).unwrap_err();
    assert_eq!(e.kind, ErrorKind::Io(IoErrorKind::UnexpectedEof));
    let empty = atom(b"meta", &[]);
    assert_eq!(t.parse(&mut Reader::new(&empty)).unwrap().content, Content::Empty);
    let t = AtomT::with(Ident(METADATA), 0, ContentT::Empty);
    assert_eq!(t.parse(&mut Reader::new(&offset)).unwrap().content, Content::Empty);
    assert_eq!(AtomT::parse_atoms(&vec![t], &mut Reader::new(&offset), 0).unwrap(), Vec::new());
}
