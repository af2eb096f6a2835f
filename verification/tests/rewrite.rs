use mp4ameta::atom::metaitem::MetaItem;
use mp4ameta::data::Data;
use mp4ameta::error::{ErrorKind, IoErrorKind};
use mp4ameta::file::read_tag_from;
use mp4ameta::head::{parse_head, AtomBounds, Size};
use mp4ameta::ident::{DataIdent, Ident, ARTWORK, MOVIE, TITLE};
use mp4ameta::reader::Reader;
use mp4ameta::rewrite::{dump_tag_to, plan_rewrite, push_size_patch, write_tag_to, Patch};
use mp4ameta::tag::Tag;

fn atom(name: &[u8; 4], content: &[u8]) -> Vec<u8> {
    let mut v = ((content.len() + 8) as u32).to_be_bytes().to_vec();
    v.extend_from_slice(name);
    v.extend_from_slice(content);
    v
}

fn cat(parts: &[Vec<u8>]) -> Vec<u8> {
    let mut v = Vec::new();
    for p in parts {
        v.extend_from_slice(p);
    }
    v
}

fn ftyp() -> Vec<u8> {
    atom(b"ftyp", b"M4A \0\0\x02\0isomiso2")
}

fn full(rest: &[u8]) -> Vec<u8> {
    cat(&[vec![0, 0, 0, 0], rest.to_vec()])
}

fn stco(offsets: &[u32]) -> Vec<u8> {
    let mut c = full(&(offsets.len() as u32).to_be_bytes());
    for o in offsets {
        c.extend_from_slice(&o.to_be_bytes());
    }
    atom(b"stco", &c)
}

fn co64(offsets: &[u64]) -> Vec<u8> {
    let mut c = full(&(offsets.len() as u32).to_be_bytes());
    for o in offsets {
        c.extend_from_slice(&o.to_be_bytes());
    }
    atom(b"co64", &c)
}

fn trak(tables: &[Vec<u8>]) -> Vec<u8> {
    atom(b"trak", &atom(b"mdia", &atom(b"minf", &atom(b"stbl", &cat(tables)))))
}

fn mvhd() -> Vec<u8> {
    let mut c = full(&[0; 8]);
    c.extend_from_slice(&1000u32.to_be_bytes());
    c.extend_from_slice(&2500u32.to_be_bytes());
    c.extend_from_slice(&[0; 80]);
    atom(b"mvhd", &c)
}

fn text_item(name: &[u8; 4], text: &str) -> Vec<u8> {
    let mut d = vec![0, 0, 0, 1, 0, 0, 0, 0];
    d.extend_from_slice(text.as_bytes());
    atom(name, &atom(b"data", &d))
}

fn hdlr() -> Vec<u8> {
    let mut c = vec![0; 8];
    c.extend_from_slice(b"mdirappl");
    c.extend_from_slice(&[0; 9]);
    atom(b"hdlr", &c)
}

fn udta(items: &[Vec<u8>]) -> Vec<u8> {
    atom(b"udta", &atom(b"meta", &full(&cat(&[hdlr(), atom(b"ilst", &cat(items))]))))
}

fn title_item(title: &str) -> MetaItem {
    MetaItem::new(DataIdent::fourcc(TITLE), vec![Data::Utf8(title.to_string())])
}

fn find(hay: &[u8], needle: &[u8]) -> usize {
    hay.windows(needle.len()).position(|w| w == needle).unwrap()
}

fn be32(bytes: &[u8], pos: usize) -> u32 {
    u32::from_be_bytes([bytes[pos], bytes[pos + 1], bytes[pos + 2], bytes[pos + 3]])
}

fn be64(bytes: &[u8], pos: usize) -> u64 {
    let mut b = [0u8; 8];
    b.copy_from_slice(&bytes[pos..pos + 8]);
    u64::from_be_bytes(b)
}

#[test]
fn empty_file_is_unexpected_eof() {
    let bytes: Vec<u8> = Vec::new();
    let mut reader = Reader::new(&bytes);
    let e = parse_head(&mut reader).unwrap_err();
    assert_eq!(e.kind, ErrorKind::Io(IoErrorKind::UnexpectedEof));
    let mut reader = Reader::new(&bytes);
    let e = read_tag_from(&mut reader).unwrap_err();
    assert_eq!(e.kind, ErrorKind::Io(IoErrorKind::UnexpectedEof));
    assert_eq!(e.to_string(), "Error reading atom length");
}

#[test]
fn ftyp_only_has_no_moov() {
    let bytes = atom(b"ftyp", b"M4A ");
    let mut reader = Reader::new(&bytes);
    let e = read_tag_from(&mut reader).unwrap_err();
    assert_eq!(e.kind, ErrorKind::AtomNotFound(Ident(MOVIE)));
    let mut file = bytes.clone();
    let e = write_tag_to(&mut file, &[]).unwrap_err();
    assert_eq!(e.kind, ErrorKind::AtomNotFound(Ident(MOVIE)));
    assert_eq!(file, bytes);
}

#[test]
fn set_title_on_mdat_first_file() {
    let mdat = atom(b"mdat", &[7, 8, 9, 10, 11, 12]);
    let mdat_pos = ftyp().len();
    let chunk = (mdat_pos + 8) as u32;
    let moov = atom(
        b"moov",
        &cat(&[mvhd(), trak(&[stco(&[chunk, chunk + 2])]), udta(&[text_item(b"\xa9nam", "old title")])]),
    );
    let file = cat(&[ftyp(), mdat.clone(), moov]);
    let mut reader = Reader::new(&file);
    let mut tag = read_tag_from(&mut reader).unwrap();
    assert_eq!(tag.title(), Some("old title"));
    tag.set_title("abc");
    let mut out = file.clone();
    write_tag_to(&mut out, &tag.items).unwrap();
    assert_eq!(out.len() as i64 - file.len() as i64, 3 - 9);
    assert_eq!(&out[mdat_pos..mdat_pos + mdat.len()], &mdat[..]);
    let table = find(&out, b"stco") + 12;
    assert_eq!(be32(&out, table), chunk);
    assert_eq!(be32(&out, table + 4), chunk + 2);
    let mut reader = Reader::new(&out);
    let tag = read_tag_from(&mut reader).unwrap();
    assert_eq!(tag.title(), Some("abc"));
    let moov_pos = find(&out, b"moov") - 4;
    assert_eq!(be32(&out, moov_pos) as usize, out.len() - moov_pos);
}

#[test]
fn set_title_on_moov_first_file() {
    let head = ftyp().len();
    let payload = [21u8, 22, 23, 24, 25, 26, 27, 28];
    let build = |chunk: u32| {
        let moov = atom(
            b"moov",
            &cat(&[
                mvhd(),
                trak(&[stco(&[chunk, chunk + 4]), co64(&[chunk as u64 + 1])]),
                udta(&[text_item(b"\xa9nam", "old title")]),
            ]),
        );
        cat(&[ftyp(), moov, atom(b"mdat", &payload), atom(b"free", &[1, 2, 3])])
    };
    let probe = build(0);
    let chunk = (find(&probe, b"mdat") + 4) as u32;
    let file = build(chunk);
    assert_eq!(&file[chunk as usize..chunk as usize + 8], &payload[..]);
    let mut out = file.clone();
    write_tag_to(&mut out, &[title_item("a much longer title")]).unwrap();
    let diff = "a much longer title".len() as i64 - "old title".len() as i64;
    assert_eq!(out.len() as i64 - file.len() as i64, diff);
    let table = find(&out, b"stco") + 12;
    assert_eq!(be32(&out, table) as i64, chunk as i64 + diff);
    assert_eq!(be32(&out, table + 4) as i64, chunk as i64 + 4 + diff);
    let table64 = find(&out, b"co64") + 12;
    assert_eq!(be64(&out, table64) as i64, chunk as i64 + 1 + diff);
    let moved = be32(&out, table) as usize;
    assert_eq!(&out[moved..moved + 8], &payload[..]);
    assert_eq!(&out[out.len() - 11..], &atom(b"free", &[1, 2, 3])[..]);
    assert_eq!(&out[..head], &file[..head]);
    let mut reader = Reader::new(&out);
    assert_eq!(read_tag_from(&mut reader).unwrap().title(), Some("a much longer title"));
}

#[test]
fn add_artwork_to_file_with_no_udta() {
    let mdat = atom(b"mdat", &[1, 2, 3, 4]);
    let moov = atom(b"moov", &cat(&[mvhd(), trak(&[stco(&[36])])]));
    let file = cat(&[ftyp(), mdat, moov.clone()]);
    let jpeg = vec![0xff, 0xd8, 0xff, 0xe0, 1, 2, 3];
    let items = vec![MetaItem::new(DataIdent::fourcc(ARTWORK), vec![Data::Jpeg(jpeg.clone())])];
    let mut out = file.clone();
    write_tag_to(&mut out, &items).unwrap();
    let covr = atom(b"covr", &atom(b"data", &cat(&[vec![0, 0, 0, 13, 0, 0, 0, 0], jpeg.clone()])));
    let subtree = udta(&[covr]);
    assert_eq!(out.len(), file.len() + subtree.len());
    assert_eq!(&out[out.len() - subtree.len()..], &subtree[..]);
    let moov_pos = file.len() - moov.len();
    assert_eq!(be32(&out, moov_pos) as usize, moov.len() + subtree.len());
    assert_eq!(&out[..moov_pos], &file[..moov_pos]);
    assert_eq!(&out[moov_pos + 4..file.len()], &file[moov_pos + 4..]);
    let mut reader = Reader::new(&out);
    let tag = read_tag_from(&mut reader).unwrap();
    assert_eq!(tag.get(&DataIdent::fourcc(ARTWORK)), vec![&Data::Jpeg(jpeg)]);
}

#[test]
fn freeform_item_round_trip() {
    let file = cat(&[ftyp(), atom(b"mdat", &[9; 5]), atom(b"moov", &cat(&[mvhd(), udta(&[])]))]);
    let ident = DataIdent::freeform("com.apple.iTunes", "ISRC");
    let mut reader = Reader::new(&file);
    let mut tag = read_tag_from(&mut reader).unwrap();
    tag.set(ident.clone(), Data::Utf8("USRC17607839".to_string()));
    let mut out = file.clone();
    write_tag_to(&mut out, &tag.items).unwrap();
    let mut reader = Reader::new(&out);
    let read = read_tag_from(&mut reader).unwrap();
    assert_eq!(read.items.len(), 1);
    assert_eq!(read.items[0].ident, ident);
    assert_eq!(read.items[0].data, vec![Data::Utf8("USRC17607839".to_string())]);
    let mut again = out.clone();
    write_tag_to(&mut again, &read.items).unwrap();
    assert_eq!(again, out);
}

#[test]
fn writing_what_was_read_changes_nothing() {
    let moov = atom(
        b"moov",
        &cat(&[
            mvhd(),
            trak(&[stco(&[500, 600])]),
            udta(&[text_item(b"\xa9nam", "title"), text_item(b"\xa9ART", "artist")]),
            atom(b"free", &[0; 4]),
        ]),
    );
    let file = cat(&[ftyp(), atom(b"skip", &[5; 3]), moov, atom(b"mdat", &[3; 40])]);
    let mut reader = Reader::new(&file);
    let tag = read_tag_from(&mut reader).unwrap();
    let mut out = file.clone();
    write_tag_to(&mut out, &tag.items).unwrap();
    assert_eq!(out, file);
}

#[test]
fn writing_twice_is_writing_once() {
    let moov = atom(b"moov", &cat(&[mvhd(), trak(&[stco(&[500]), co64(&[501])])]));
    let file = cat(&[ftyp(), moov, atom(b"mdat", &[3; 40])]);
    let items = vec![title_item("one"), title_item("two")];
    let mut once = file.clone();
    write_tag_to(&mut once, &items).unwrap();
    let mut twice = once.clone();
    write_tag_to(&mut twice, &items).unwrap();
    assert_eq!(twice, once);
    assert_ne!(once, file);
}

#[test]
fn top_level_free_and_skip_atoms_are_kept() {
    let free = atom(b"free", &[1, 2, 3, 4, 5]);
    let skip = atom(b"skip", &[6, 7]);
    let moov = atom(b"moov", &cat(&[mvhd(), udta(&[text_item(b"\xa9nam", "x")])]));
    let file = cat(&[ftyp(), free.clone(), moov, skip.clone(), atom(b"mdat", &[1; 9])]);
    let mut out = file.clone();
    write_tag_to(&mut out, &[title_item("a longer one"), title_item("and another")]).unwrap();
    let free_pos = ftyp().len();
    assert_eq!(&out[free_pos..free_pos + free.len()], &free[..]);
    let skip_pos = find(&out, b"skip") - 4;
    assert_eq!(&out[skip_pos..skip_pos + skip.len()], &skip[..]);
    assert_eq!(&out[out.len() - 17..], &atom(b"mdat", &[1; 9])[..]);
}

#[test]
fn meta_without_version_and_flags_is_read_and_written_with_them() {
    let bare_meta = atom(b"meta", &cat(&[hdlr(), atom(b"ilst", &text_item(b"\xa9nam", "bare"))]));
    let file = cat(&[ftyp(), atom(b"moov", &atom(b"udta", &bare_meta))]);
    let mut reader = Reader::new(&file);
    let tag = read_tag_from(&mut reader).unwrap();
    assert_eq!(tag.title(), Some("bare"));
    let mut out = file.clone();
    write_tag_to(&mut out, &[title_item("changed")]).unwrap();
    let mut reader = Reader::new(&out);
    assert_eq!(read_tag_from(&mut reader).unwrap().title(), Some("changed"));
    let no_meta = cat(&[ftyp(), atom(b"moov", &atom(b"udta", &[]))]);
    let mut out = no_meta.clone();
    write_tag_to(&mut out, &[title_item("new")]).unwrap();
    let meta_pos = find(&out, b"meta");
    assert_eq!(&out[meta_pos + 4..meta_pos + 8], &[0, 0, 0, 0]);
    assert_eq!(&out[meta_pos + 12..meta_pos + 16], b"hdlr");
    let mut reader = Reader::new(&out);
    assert_eq!(read_tag_from(&mut reader).unwrap().title(), Some("new"));
}

#[test]
fn meta_without_hdlr_gets_one_before_the_item_list() {
    let meta = atom(b"meta", &full(&atom(b"ilst", &text_item(b"\xa9nam", "t"))));
    let file = cat(&[ftyp(), atom(b"moov", &atom(b"udta", &meta))]);
    let mut out = file.clone();
    write_tag_to(&mut out, &[title_item("t")]).unwrap();
    assert_eq!(out.len(), file.len() + 33);
    let hdlr_pos = find(&out, b"hdlr") - 4;
    assert_eq!(&out[hdlr_pos..hdlr_pos + 33], &hdlr()[..]);
    assert_eq!(&out[hdlr_pos + 37..hdlr_pos + 41], b"ilst");
}

#[test]
fn extended_heads_keep_their_form() {
    let inner = udta(&[text_item(b"\xa9nam", "x")]);
    let mut moov = vec![0, 0, 0, 1];
    moov.extend_from_slice(b"moov");
    moov.extend_from_slice(&((inner.len() + 16) as u64).to_be_bytes());
    moov.extend_from_slice(&inner);
    let file = cat(&[ftyp(), moov.clone()]);
    let mut out = file.clone();
    write_tag_to(&mut out, &[title_item("xyz")]).unwrap();
    let pos = ftyp().len();
    assert_eq!(be32(&out, pos), 1);
    assert_eq!(be64(&out, pos + 8) as usize, moov.len() + 2);
    let mut reader = Reader::new(&out);
    assert_eq!(read_tag_from(&mut reader).unwrap().title(), Some("xyz"));
}

#[test]
fn an_atom_that_outgrows_32_bits_is_unsupported() {
    let mut patches: Vec<Patch> = Vec::new();
    let a = AtomBounds { pos: 20, size: Size { ext: false, len: 0xffff_fff0 }, fourcc: Ident(MOVIE) };
    let e = push_size_patch(&mut patches, &a, 0x20, u64::MAX).unwrap_err();
    assert_eq!(e.kind, ErrorKind::Unsupported("Atom would need an extended head".to_string()));
    assert!(patches.is_empty());
    push_size_patch(&mut patches, &a, 0xf, u64::MAX).unwrap();
    assert_eq!(patches, vec![Patch { pos: 20, bytes: vec![0xff, 0xff, 0xff, 0xff] }]);
}

#[test]
fn plan_names_what_is_written() {
    let build = |chunk: u32| {
        let moov = atom(
            b"moov",
            &cat(&[trak(&[stco(&[chunk])]), udta(&[text_item(b"\xa9nam", "old")])]),
        );
        cat(&[ftyp(), moov, atom(b"mdat", &[1, 2])])
    };
    let file = build(100);
    let plan = plan_rewrite(&file, &[title_item("older")]).unwrap();
    let ilst = find(&file, b"ilst") - 4;
    assert_eq!(plan.new_atoms_start as usize, ilst);
    assert_eq!(plan.moved_data_start as usize, ilst + 8 + 27);
    assert_eq!(plan.new_atoms, atom(b"ilst", &text_item(b"\xa9nam", "older")));
    assert_eq!(plan.patches.len(), 4);
    assert_eq!(plan.patches[0], Patch { pos: (find(&file, b"stco") + 12) as u64, bytes: vec![0, 0, 0, 102] });
    assert_eq!(plan.patches[1].pos as usize, find(&file, b"moov") - 4);
    assert_eq!(plan.patches[2].pos as usize, find(&file, b"udta") - 4);
    assert_eq!(plan.patches[3].pos as usize, find(&file, b"meta") - 4);
}

#[test]
fn stco_offsets_saturate() {
    let moov = atom(b"moov", &cat(&[trak(&[stco(&[0xffff_fffe, 7])]), udta(&[])]));
    let file = cat(&[ftyp(), moov, atom(b"mdat", &[1, 2])]);
    let mut out = file.clone();
    write_tag_to(&mut out, &[title_item("t")]).unwrap();
    let table = find(&out, b"stco") + 12;
    assert_eq!(be32(&out, table), 0xffff_ffff);
    assert_eq!(be32(&out, table + 4) as usize, 7 + out.len() - file.len());
}

#[test]
fn dump_is_read_back() {
    let items = vec![title_item("dumped")];
    let mut out = Vec::new();
    dump_tag_to(&mut out, &items).unwrap();
    assert_eq!(&out[..24], &ftyp()[..]);
    assert_eq!(&out[28..32], b"moov");
    assert_eq!(&out[24..], &atom(b"moov", &udta(&[text_item(b"\xa9nam", "dumped")]))[..]);
    let mut reader = Reader::new(&out);
    let tag: Tag = read_tag_from(&mut reader).unwrap();
    assert_eq!(tag.filetype(), "M4A \u{0}\u{0}\u{2}\u{0}isomiso2");
    assert_eq!(tag.items, items);
    assert_eq!(tag.duration(), None);
}

#[test]
fn open_length_is_for_media_data_alone() {
    let mut mdat = vec![0, 0, 0, 0];
    mdat.extend_from_slice(b"mdat");
    mdat.extend_from_slice(&[1, 2, 3]);
    let moov = atom(b"moov", &udta(&[]));
    let file = cat(&[ftyp(), moov.clone(), mdat]);
    let mut out = file.clone();
    write_tag_to(&mut out, &[title_item("t")]).unwrap();
    assert_eq!(&out[out.len() - 11..], &file[file.len() - 11..]);
    let mut free = vec![0, 0, 0, 0];
    free.extend_from_slice(b"free");
    let file = cat(&[ftyp(), moov, free]);
    let mut out = file.clone();
    let e = write_tag_to(&mut out, &[title_item("t")]).unwrap_err();
    assert_eq!(e.kind, ErrorKind::Parsing);
    assert_eq!(out, file);
}

#[test]
fn truncated_atoms_are_errors() {
    let mut file = cat(&[ftyp(), atom(b"moov", &udta(&[text_item(b"\xa9nam", "t")]))]);
    file.truncate(file.len() - 3);
    let mut reader = Reader::new(&file);
    let e = read_tag_from(&mut reader).unwrap_err();
    assert_eq!(e.kind, ErrorKind::Io(IoErrorKind::UnexpectedEof));
    let inner = atom(b"udta", &[0, 0, 0, 40, b'm', b'e', b't', b'a']);
    let file = cat(&[ftyp(), atom(b"moov", &inner)]);
    let mut reader = Reader::new(&file);
    let e = read_tag_from(&mut reader).unwrap_err();
    assert_eq!(e.kind, ErrorKind::Parsing);
    assert_eq!(
        e.to_string(),
        "Error parsing moov: Error parsing udta: Atom reaches beyond the atom around it"
    );
}
