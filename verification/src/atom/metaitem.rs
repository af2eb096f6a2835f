//! Metadata items: the atoms of the item list, and the `data`, `mean` and
//! `name` atoms that they hold.

use crate::atom::base::{boxed, child_at, content_of, fits, next_child, read, view_of};
use crate::atom::base::{lemma_boxed_bounds, lemma_boxed_child, lemma_boxed_len, write_boxed};
use crate::atom::zeros;
use crate::data::{decode_data, decode_utf8_string, lemma_data_round_trip, utf16_text, utf16_units};
use crate::data::{Data, DataT, DataView};
use crate::error::{annotate, eof, error, Error, ErrorKind, ErrorKindView, ErrorView};
use crate::head::Size;
use crate::ident::{DataIdent, DataIdentView, Ident, DATA, FREEFORM, MEAN, NAME};
use crate::reader::{at32, Reader};
use vstd::prelude::*;
use vstd::string::*;
use vstd::utf8::{decode_utf8, encode_utf8, valid_utf8};

verus! {

/// A metadata item: what identifies it, and the values that it holds.
#[derive(Clone, Debug, PartialEq, Eq)]
pub struct MetaItem {
    /// What identifies the item.
    pub ident: DataIdent,
    /// The values of the item.
    pub data: Vec<Data>,
}

/// The mathematical value of a [`MetaItem`].
pub struct MetaItemView {
    pub ident: DataIdentView,
    pub data: Seq<DataView>,
}

/// The values of a list of data.
pub open spec fn data_views(s: Seq<Data>) -> Seq<DataView> {
    Seq::new(s.len(), |i: int| s[i]@)
}

impl View for MetaItem {
    type V = MetaItemView;

    open spec fn view(&self) -> MetaItemView {
        MetaItemView { ident: self.ident@, data: data_views(self.data@) }
    }
}

/// What the content `c` of a `data` atom says: the type code, four bytes of
/// locale indicator, which are passed over, and the value of that type.
pub open spec fn data_decoded(c: Seq<u8>) -> Result<DataView, ErrorView> {
    if c.len() < 8 {
        Err(error(ErrorKindView::Parsing, "Typed data head to short"))
    } else {
        decode_data(at32(c, 0), c.subrange(8, c.len() as int))
    }
}

/// What reading a `data` atom gives whose content starts at position `p` of
/// the stream `s`.
#[verifier::opaque]
pub open spec fn data_parsed(s: Seq<u8>, p: int, size: Size) -> Result<DataView, ErrorView> {
    annotate(
        "parsing",
        Ident(DATA),
        match content_of(s, p, size) {
            None => Err(eof()),
            Some(c) => data_decoded(c),
        },
    )
}

/// The bytes of the `data` atom that holds the value.
#[verifier::opaque]
pub open spec fn data_atom_bytes(d: DataView) -> Seq<u8> {
    boxed(Ident(DATA), d.typed_bytes())
}

/// The bytes of the `data` atoms that hold the values, one after another.
pub open spec fn data_atoms_bytes(s: Seq<DataView>) -> Seq<u8>
    decreases s.len(),
{
    if s.len() == 0 {
        Seq::empty()
    } else {
        data_atoms_bytes(s.drop_last()) + data_atom_bytes(s.last())
    }
}

/// What the content `c` of a `mean` or `name` atom says: the text that
/// follows the version and flags.
pub open spec fn text_decoded(c: Seq<u8>) -> Result<Seq<char>, ErrorView> {
    if c.len() < 4 {
        Err(eof())
    } else if c[0] != 0 {
        Err(error(ErrorKindView::UnknownVersion(c[0]), "Unknown version of a freeform atom"))
    } else if !valid_utf8(c.subrange(4, c.len() as int)) {
        Err(error(ErrorKindView::Parsing, "Data is not valid utf-8"))
    } else {
        Ok(decode_utf8(c.subrange(4, c.len() as int)))
    }
}

/// What reading a `mean` or `name` atom gives, whose identifier is `code`
/// and whose content starts at position `p` of the stream `s`.
#[verifier::opaque]
pub open spec fn text_parsed(code: u32, s: Seq<u8>, p: int, size: Size) -> Result<
    Seq<char>,
    ErrorView,
> {
    annotate(
        "parsing",
        Ident(code),
        match content_of(s, p, size) {
            None => Err(eof()),
            Some(c) => text_decoded(c),
        },
    )
}

/// The bytes of the `mean` or `name` atom with the identifier `code` that
/// holds the text: version and flags of zero, and the text as UTF-8.
#[verifier::opaque]
pub open spec fn text_atom_bytes(code: u32, text: Seq<char>) -> Seq<u8> {
    boxed(Ident(code), zeros(4) + encode_utf8(text))
}

/// What was read of the children of an item: the domain and the name, where
/// there were such atoms, and the values of the `data` atoms.
pub struct ItemParts {
    pub mean: Option<Seq<char>>,
    pub name: Option<Seq<char>>,
    pub data: Seq<DataView>,
}

/// What reading the children of an item from position `p` of its content `c`
/// adds to the parts `acc` that were read before. Of several `mean` or
/// `name` atoms the last counts; atoms that are none of the three are passed
/// over.
pub open spec fn item_parts(c: Seq<u8>, p: int, acc: ItemParts) -> Result<ItemParts, ErrorView>
    decreases c.len() - p,
{
    if p >= c.len() {
        Ok(acc)
    } else {
        match child_at(c, p) {
            Err(e) => Err(e),
            Ok(h) => {
                let size = h.spec_size();
                let cp = p + size.spec_head_len();
                let next = p + size.len;
                if h.fourcc == Ident(DATA) {
                    match data_parsed(c, cp, size) {
                        Err(e) => Err(e),
                        Ok(d) => item_parts(c, next, ItemParts { data: acc.data.push(d), ..acc }),
                    }
                } else if h.fourcc == Ident(MEAN) {
                    match text_parsed(MEAN, c, cp, size) {
                        Err(e) => Err(e),
                        Ok(t) => item_parts(c, next, ItemParts { mean: Some(t), ..acc }),
                    }
                } else if h.fourcc == Ident(NAME) {
                    match text_parsed(NAME, c, cp, size) {
                        Err(e) => Err(e),
                        Ok(t) => item_parts(c, next, ItemParts { name: Some(t), ..acc }),
                    }
                } else {
                    item_parts(c, next, acc)
                }
            },
        }
    }
}

/// The parts of an item of which nothing was read yet.
pub open spec fn no_parts() -> ItemParts {
    ItemParts { mean: None, name: None, data: Seq::empty() }
}

/// The item with the identifier `fourcc` that the parts make: a freeform
/// item where the identifier is `----` and both the domain and the name were
/// read, else an item that its identifier identifies.
pub open spec fn item_of(fourcc: Ident, parts: ItemParts) -> MetaItemView {
    MetaItemView {
        ident: if fourcc == Ident(FREEFORM) && parts.mean is Some && parts.name is Some {
            DataIdentView::Freeform { mean: parts.mean->0, name: parts.name->0 }
        } else {
            DataIdentView::Fourcc(fourcc)
        },
        data: parts.data,
    }
}

impl MetaItemView {
    /// The identifier of the atom of the item: `----` for a freeform item.
    pub open spec fn fourcc(self) -> Ident {
        match self.ident {
            DataIdentView::Fourcc(i) => i,
            DataIdentView::Freeform { .. } => Ident(FREEFORM),
        }
    }

    /// The bytes of the `mean` and `name` atoms of a freeform item; nothing
    /// for another item.
    pub open spec fn ident_bytes(self) -> Seq<u8> {
        match self.ident {
            DataIdentView::Fourcc(_) => Seq::empty(),
            DataIdentView::Freeform { mean, name } => text_atom_bytes(MEAN, mean)
                + text_atom_bytes(NAME, name),
        }
    }

    /// The content of the atom of the item: for a freeform item the `mean`
    /// and the `name` atom, then a `data` atom for each value.
    pub open spec fn content_bytes(self) -> Seq<u8> {
        self.ident_bytes() + data_atoms_bytes(self.data)
    }

    /// The bytes of the atom of the item.
    #[verifier::opaque]
    pub open spec fn bytes(self) -> Seq<u8> {
        boxed(self.fourcc(), self.content_bytes())
    }

    /// The item can be written: the length of its atom is a number of 64
    /// bits.
    pub open spec fn writable(self) -> bool {
        fits(self.content_bytes().len() as int)
    }
}

/// The bytes of a list of `data` atoms grow by those of the atom that is
/// added.
pub proof fn lemma_data_atoms_take(s: Seq<DataView>, i: int)
    requires
        0 <= i < s.len(),
    ensures
        data_atoms_bytes(s.take(i + 1)) == data_atoms_bytes(s.take(i)) + data_atom_bytes(s[i]),
        data_atoms_bytes(s.take(i)).len() + data_atom_bytes(s[i]).len() <= data_atoms_bytes(
            s,
        ).len(),
    decreases s.len() - i,
{
    assert(s.take(i + 1).drop_last() =~= s.take(i));
    if i + 1 < s.len() {
        lemma_data_atoms_take(s, i + 1);
    } else {
        assert(s.take(i + 1) =~= s);
    }
}

impl MetaItem {
    /// A metadata item with the given identifier and values.
    pub fn new(ident: DataIdent, data: Vec<Data>) -> (r: MetaItem)
        ensures
            r == (MetaItem { ident, data }),
    {
        MetaItem { ident, data }
    }

    /// A copy of the item.
    pub fn duplicate(&self) -> (r: MetaItem)
        ensures
            r@ == self@,
    {
        let ident = match &self.ident {
            DataIdent::Fourcc(i) => DataIdent::Fourcc(*i),
            DataIdent::Freeform { mean, name } => DataIdent::Freeform {
                mean: mean.clone(),
                name: name.clone(),
            },
        };
        let mut data: Vec<Data> = Vec::new();
        let mut i: usize = 0;
        while i < self.data.len()
            invariant
                i <= self.data.len(),
                data_views(data@) == data_views(self.data@).take(i as int),
            decreases self.data.len() - i,
        {
            let d = self.data[i].duplicate();
            assert(data_views(data@.push(d)) =~= data_views(data@).push(d@));
            assert(data_views(self.data@).take(i + 1) =~= data_views(self.data@).take(
                i as int,
            ).push(self.data@[i as int]@));
            data.push(d);
            i += 1;
        }
        assert(data_views(self.data@).take(i as int) =~= data_views(self.data@));
        MetaItem { ident, data }
    }

    /// What the content `c` of the atom of an item with the identifier
    /// `fourcc` says.
    pub open spec fn decode(fourcc: Ident, c: Seq<u8>) -> Result<MetaItemView, ErrorView> {
        match item_parts(c, 0, no_parts()) {
            Err(e) => Err(e),
            Ok(parts) => Ok(item_of(fourcc, parts)),
        }
    }

    /// What reading the atom of an item gives whose identifier is `fourcc`
    /// and whose content starts at position `p` of the stream `s`.
    #[verifier::opaque]
    pub open spec fn parsed(s: Seq<u8>, p: int, fourcc: Ident, size: Size) -> Result<
        MetaItemView,
        ErrorView,
    > {
        annotate(
            "parsing",
            fourcc,
            match content_of(s, p, size) {
                None => Err(eof()),
                Some(c) => MetaItem::decode(fourcc, c),
            },
        )
    }

    /// Reads the atom of an item: the cursor stands behind its head, which
    /// gave the identifier `fourcc` and the size `size`.
    pub fn parse(reader: &mut Reader, fourcc: Ident, size: Size) -> (r: Result<MetaItem, Error>)
        requires
            old(reader).wf(),
            size.wf(),
        ensures
            read(
                MetaItem::parsed(old(reader).data@, old(reader).pos as int, fourcc, size),
                view_of(r),
                old(reader),
                final(reader),
                size.spec_content_len(),
            ),
    {
        proof {
            reveal(MetaItem::parsed);
        }
        let mut content = match reader.take(size.content_len()) {
            Ok(c) => c,
            Err(e) => {
                return Err(e.annotate("parsing", fourcc));
            },
        };
        match MetaItem::parse_atom(&mut content, fourcc) {
            Ok(v) => Ok(v),
            Err(e) => Err(e.annotate("parsing", fourcc)),
        }
    }

    /// Reads the content of the atom of an item, which the cursor is over.
    pub fn parse_atom(content: &mut Reader, fourcc: Ident) -> (r: Result<MetaItem, Error>)
        requires
            old(content).wf(),
            old(content).pos == 0,
        ensures
            view_of(r) == MetaItem::decode(fourcc, old(content).data@),
            final(content).same_stream(old(content)),
    {
        let ghost c = content.data@;
        let mut data: Vec<Data> = Vec::new();
        let mut mean: Option<String> = None;
        let mut name: Option<String> = None;
        assert(data_views(data@) =~= Seq::empty());
        while content.remaining() > 0
            invariant
                content.same_stream(old(content)),
                c == content.data@,
                item_parts(
                    c,
                    content.pos as int,
                    ItemParts { mean: text_view(mean), name: text_view(name), data: data_views(data@) },
                ) == item_parts(c, 0, no_parts()),
            decreases content.left(),
        {
            let head = match next_child(content) {
                Ok(h) => h,
                Err(e) => {
                    return Err(e);
                },
            };
            if head.fourcc.0 == DATA {
                let d = match parse_data(content, head.size()) {
                    Ok(d) => d,
                    Err(e) => {
                        return Err(e);
                    },
                };
                assert(data_views(data@.push(d)) =~= data_views(data@).push(d@));
                data.push(d);
            } else if head.fourcc.0 == MEAN {
                match parse_text(content, MEAN, head.size()) {
                    Ok(t) => {
                        mean = Some(t);
                    },
                    Err(e) => {
                        return Err(e);
                    },
                }
            } else if head.fourcc.0 == NAME {
                match parse_text(content, NAME, head.size()) {
                    Ok(t) => {
                        name = Some(t);
                    },
                    Err(e) => {
                        return Err(e);
                    },
                }
            } else {
                match content.skip(head.content_len()) {
                    Ok(_) => {},
                    Err(e) => {
                        return Err(e);
                    },
                }
            }
        }
        let ident = if fourcc.0 == FREEFORM {
            match mean {
                Some(m) => match name {
                    Some(n) => DataIdent::Freeform { mean: m, name: n },
                    None => DataIdent::Fourcc(fourcc),
                },
                None => DataIdent::Fourcc(fourcc),
            }
        } else {
            DataIdent::Fourcc(fourcc)
        };
        Ok(MetaItem { ident, data })
    }

    /// The size of the atom of the item.
    pub fn size(&self) -> (r: Size)
        requires
            self@.writable(),
        ensures
            r == Size::of(self@.content_bytes().len() as int),
            r.len == self@.bytes().len(),
    {
        proof {
            reveal(MetaItemView::bytes);
            reveal(data_atom_bytes);
            reveal(text_atom_bytes);
        }
        let ghost v = self@;
        let mut n: u64 = 0;
        match &self.ident {
            DataIdent::Fourcc(_) => {},
            DataIdent::Freeform { mean, name } => {
                proof {
                    lemma_boxed_len(Ident(MEAN), zeros(4) + encode_utf8(mean@));
                    lemma_boxed_len(Ident(NAME), zeros(4) + encode_utf8(name@));
                }
                let m = Size::from(4 + mean.as_str().as_bytes().len() as u64);
                let k = Size::from(4 + name.as_str().as_bytes().len() as u64);
                n = m.len() + k.len();
            },
        }
        let mut i: usize = 0;
        assert(data_atoms_bytes(v.data.take(0)).len() == 0);
        while i < self.data.len()
            invariant
                i <= self.data.len(),
                v == self@,
                v.writable(),
                n == v.ident_bytes().len() + data_atoms_bytes(v.data.take(i as int)).len(),
            decreases self.data.len() - i,
        {
            proof {
                lemma_data_atoms_take(v.data, i as int);
                lemma_data_atom_bounds(v.data[i as int]);
                reveal(data_atom_bytes);
                lemma_boxed_len(Ident(DATA), v.data[i as int].typed_bytes());
            }
            let d = Size::from(8 + self.data[i].len() as u64);
            n = n + d.len();
            i += 1;
        }
        assert(v.data.take(i as int) =~= v.data);
        Size::from(n)
    }

    /// The length of the atom of the item in bytes.
    pub fn len(&self) -> (r: u64)
        requires
            self@.writable(),
        ensures
            r == self@.bytes().len(),
    {
        self.size().len()
    }

    /// Writes the atom of the item.
    pub fn write(&self, out: &mut Vec<u8>)
        requires
            self@.writable(),
        ensures
            final(out)@ == old(out)@ + self@.bytes(),
    {
        proof {
            reveal(MetaItemView::bytes);
            reveal(data_atom_bytes);
            reveal(text_atom_bytes);
        }
        let ghost v = self@;
        let mut body: Vec<u8> = Vec::new();
        let fourcc = match &self.ident {
            DataIdent::Fourcc(i) => *i,
            DataIdent::Freeform { mean, name } => {
                proof {
                    lemma_boxed_len(Ident(MEAN), zeros(4) + encode_utf8(mean@));
                    lemma_boxed_len(Ident(NAME), zeros(4) + encode_utf8(name@));
                }
                write_text(&mut body, MEAN, mean.as_str());
                write_text(&mut body, NAME, name.as_str());
                Ident(FREEFORM)
            },
        };
        assert(body@ =~= v.ident_bytes() + data_atoms_bytes(v.data.take(0)));
        let mut i: usize = 0;
        while i < self.data.len()
            invariant
                i <= self.data.len(),
                v == self@,
                v.writable(),
                body@ == v.ident_bytes() + data_atoms_bytes(v.data.take(i as int)),
            decreases self.data.len() - i,
        {
            proof {
                lemma_data_atoms_take(v.data, i as int);
                lemma_data_atom_bounds(v.data[i as int]);
                reveal(data_atom_bytes);
                lemma_boxed_len(Ident(DATA), v.data[i as int].typed_bytes());
            }
            write_data(&mut body, &self.data[i]);
            assert(body@ =~= v.ident_bytes() + data_atoms_bytes(v.data.take(i + 1)));
            i += 1;
        }
        assert(v.data.take(i as int) =~= v.data);
        write_boxed(out, fourcc, &body);
    }
}

/// The text that the string holds, if there is one.
pub open spec fn text_view(s: Option<String>) -> Option<Seq<char>> {
    match s {
        Some(t) => Some(t@),
        None => None,
    }
}

/// Reads a `data` atom: the cursor stands behind its head, which declared
/// the size `size`.
pub fn parse_data(reader: &mut Reader, size: Size) -> (r: Result<Data, Error>)
    requires
        old(reader).wf(),
        size.wf(),
    ensures
        read(
            data_parsed(old(reader).data@, old(reader).pos as int, size),
            view_of(r),
            old(reader),
            final(reader),
            size.spec_content_len(),
        ),
{
    proof {
        reveal(data_parsed);
    }
    let len = size.content_len();
    let mut content = match reader.take(len) {
        Ok(c) => c,
        Err(e) => {
            return Err(e.annotate("parsing", Ident(DATA)));
        },
    };
    if len < 8 {
        return Err(
            Error::new(ErrorKind::Parsing, "Typed data head to short").annotate(
                "parsing",
                Ident(DATA),
            ),
        );
    }
    let code = match content.read_be_u32() {
        Ok(c) => c,
        Err(e) => {
            return Err(e.annotate("parsing", Ident(DATA)));
        },
    };
    match content.skip(4) {
        Ok(_) => {},
        Err(e) => {
            return Err(e.annotate("parsing", Ident(DATA)));
        },
    }
    match DataT::new(code).parse(&mut content, len - 8) {
        Ok(d) => Ok(d),
        Err(e) => Err(e.annotate("parsing", Ident(DATA))),
    }
}

/// Writes the `data` atom that holds the value.
pub fn write_data(out: &mut Vec<u8>, data: &Data)
    requires
        fits(data@.typed_bytes().len() as int),
    ensures
        final(out)@ == old(out)@ + data_atom_bytes(data@),
{
    proof {
        reveal(data_atom_bytes);
    }
    let mut body: Vec<u8> = Vec::new();
    data.write_typed(&mut body);
    assert(body@ =~= data@.typed_bytes());
    write_boxed(out, Ident(DATA), &body);
}

/// Reads a `mean` or `name` atom, whose identifier is `code`: the cursor
/// stands behind its head, which declared the size `size`.
pub fn parse_text(reader: &mut Reader, code: u32, size: Size) -> (r: Result<String, Error>)
    requires
        old(reader).wf(),
        size.wf(),
    ensures
        read(
            text_parsed(code, old(reader).data@, old(reader).pos as int, size),
            view_of(r),
            old(reader),
            final(reader),
            size.spec_content_len(),
        ),
{
    proof {
        reveal(text_parsed);
    }
    let len = size.content_len();
    let mut content = match reader.take(len) {
        Ok(c) => c,
        Err(e) => {
            return Err(e.annotate("parsing", Ident(code)));
        },
    };
    let version = match crate::head::parse_full_head(&mut content) {
        Ok(f) => f.0,
        Err(e) => {
            return Err(e.annotate("parsing", Ident(code)));
        },
    };
    if version != 0 {
        return Err(
            Error::new(
                ErrorKind::UnknownVersion(version),
                "Unknown version of a freeform atom",
            ).annotate("parsing", Ident(code)),
        );
    }
    let bytes = match content.read_u8_vec(len - 4) {
        Ok(b) => b,
        Err(e) => {
            return Err(e.annotate("parsing", Ident(code)));
        },
    };
    match decode_utf8_string(bytes) {
        Some(s) => Ok(s),
        None => Err(
            Error::new(ErrorKind::Parsing, "Data is not valid utf-8").annotate(
                "parsing",
                Ident(code),
            ),
        ),
    }
}

/// Writes the `mean` or `name` atom with the identifier `code` that holds
/// the text.
pub fn write_text(out: &mut Vec<u8>, code: u32, text: &str)
    requires
        fits(4 + encode_utf8(text@).len() as int),
    ensures
        final(out)@ == old(out)@ + text_atom_bytes(code, text@),
{
    proof {
        reveal(text_atom_bytes);
    }
    let mut body: Vec<u8> = Vec::new();
    crate::atom::put_zeros(&mut body, 4);
    crate::codec::put_bytes(&mut body, text.as_bytes());
    assert(body@ =~= zeros(4) + encode_utf8(text@));
    write_boxed(out, Ident(code), &body);
}

/// The value can be read back from its bytes: UTF-16 text must be text that
/// its UTF-16 code units stand for, as the code units of every text of a
/// program do.
pub open spec fn readable(d: DataView) -> bool {
    d is Utf16 ==> utf16_text(utf16_units(d->Utf16_0)) == Some(d->Utf16_0)
}

/// The item can be read back from its bytes: it can be written, and so can
/// its values be read back.
pub open spec fn item_readable(v: MetaItemView) -> bool {
    &&& v.writable()
    &&& forall|i: int| 0 <= i < v.data.len() ==> readable(#[trigger] v.data[i])
}

/// The bytes of a list of `data` atoms with one more value in front are the
/// bytes of the atom of that value and those of the list.
pub proof fn lemma_data_atoms_front(d: DataView, rest: Seq<DataView>)
    ensures
        data_atoms_bytes(seq![d] + rest) == data_atom_bytes(d) + data_atoms_bytes(rest),
    decreases rest.len(),
{
    reveal_with_fuel(data_atoms_bytes, 3);
    if rest.len() == 0 {
        assert(seq![d] + rest =~= seq![d]);
        assert(seq![d].drop_last() =~= Seq::<DataView>::empty());
        assert(data_atoms_bytes(seq![d]) =~= data_atom_bytes(d));
        assert(data_atom_bytes(d) + data_atoms_bytes(rest) =~= data_atom_bytes(d));
    } else {
        let all = seq![d] + rest;
        assert(all.drop_last() =~= seq![d] + rest.drop_last());
        assert(all.last() == rest.last());
        lemma_data_atoms_front(d, rest.drop_last());
        assert(data_atoms_bytes(all) =~= data_atom_bytes(d) + data_atoms_bytes(rest));
    }
}

/// A `data` atom is at least 8 bytes longer than its content, and at most
/// 16.
pub proof fn lemma_data_atom_bounds(d: DataView)
    ensures
        d.typed_bytes().len() + 8 <= data_atom_bytes(d).len() <= d.typed_bytes().len() + 16,
{
    reveal(data_atom_bytes);
    lemma_boxed_bounds(Ident(DATA), d.typed_bytes());
}

/// A `mean` or `name` atom is at least 12 bytes longer than its text as
/// UTF-8, and at most 20.
pub proof fn lemma_text_atom_bounds(code: u32, text: Seq<char>)
    ensures
        encode_utf8(text).len() + 12 <= text_atom_bytes(code, text).len() <= encode_utf8(
            text,
        ).len() + 20,
{
    reveal(text_atom_bytes);
    lemma_boxed_bounds(Ident(code), zeros(4) + encode_utf8(text));
}

/// Reading a `data` atom back from where its bytes stand gives its value.
pub proof fn lemma_data_atom_round_trip(c: Seq<u8>, p: int, d: DataView)
    requires
        0 <= p,
        readable(d),
        fits(d.typed_bytes().len() as int),
        p + data_atom_bytes(d).len() <= c.len(),
        c.subrange(p, p + data_atom_bytes(d).len()) == data_atom_bytes(d),
    ensures
        child_at(c, p) is Ok,
        child_at(c, p)->Ok_0.fourcc == Ident(DATA),
        child_at(c, p)->Ok_0.spec_size().len == data_atom_bytes(d).len(),
        data_parsed(
            c,
            p + child_at(c, p)->Ok_0.spec_size().spec_head_len(),
            child_at(c, p)->Ok_0.spec_size(),
        ) == Ok::<DataView, ErrorView>(d),
{
    reveal(data_parsed);
    reveal(data_atom_bytes);
    lemma_boxed_child(c, p, Ident(DATA), d.typed_bytes());
    let t = d.typed_bytes();
    crate::codec::lemma_be_u32_of_bytes(d.code());
    assert(t.subrange(0, 4) =~= crate::codec::u32_be(d.code()));
    assert(t.subrange(8, t.len() as int) =~= d.raw_bytes());
    lemma_data_round_trip(d);
}

/// Reading a `mean` or `name` atom back from where its bytes stand gives its
/// text.
pub proof fn lemma_text_atom_round_trip(c: Seq<u8>, p: int, code: u32, text: Seq<char>)
    requires
        0 <= p,
        fits(4 + encode_utf8(text).len() as int),
        p + text_atom_bytes(code, text).len() <= c.len(),
        c.subrange(p, p + text_atom_bytes(code, text).len()) == text_atom_bytes(code, text),
    ensures
        child_at(c, p) is Ok,
        child_at(c, p)->Ok_0.fourcc == Ident(code),
        child_at(c, p)->Ok_0.spec_size().len == text_atom_bytes(code, text).len(),
        text_parsed(
            code,
            c,
            p + child_at(c, p)->Ok_0.spec_size().spec_head_len(),
            child_at(c, p)->Ok_0.spec_size(),
        ) == Ok::<Seq<char>, ErrorView>(text),
{
    reveal(text_parsed);
    reveal(text_atom_bytes);
    let body = zeros(4) + encode_utf8(text);
    lemma_boxed_child(c, p, Ident(code), body);
    assert(body.subrange(4, body.len() as int) =~= encode_utf8(text));
    vstd::utf8::encode_utf8_valid_utf8(text);
    vstd::utf8::encode_utf8_decode_utf8(text);
}

/// Reading `data` atoms back from where their bytes stand, to the end of the
/// content, adds their values to what was read before.
pub proof fn lemma_item_parts_data(c: Seq<u8>, p: int, acc: ItemParts, ds: Seq<DataView>)
    requires
        0 <= p,
        p + data_atoms_bytes(ds).len() == c.len(),
        c.subrange(p, c.len() as int) == data_atoms_bytes(ds),
        fits(c.len() as int),
        forall|i: int| 0 <= i < ds.len() ==> readable(#[trigger] ds[i]),
    ensures
        item_parts(c, p, acc) == Ok::<ItemParts, ErrorView>(
            ItemParts { data: acc.data + ds, ..acc },
        ),
    decreases ds.len(),
{
    if ds.len() == 0 {
        assert(acc.data + ds =~= acc.data);
    } else {
        let d = ds[0];
        let rest = ds.drop_first();
        assert(ds =~= seq![d] + rest);
        lemma_data_atoms_front(d, rest);
        let a = data_atom_bytes(d);
        let tail = data_atoms_bytes(rest);
        lemma_data_atom_bounds(d);
        let all = c.subrange(p, c.len() as int);
        assert(all == a + tail);
        assert(c.subrange(p, p + a.len()) =~= all.subrange(0, a.len() as int));
        assert(all.subrange(0, a.len() as int) =~= a);
        assert(readable(ds[0]));
        lemma_data_atom_round_trip(c, p, d);
        let next = p + a.len();
        assert(c.subrange(next, c.len() as int) =~= all.subrange(a.len() as int, all.len() as int));
        assert(all.subrange(a.len() as int, all.len() as int) =~= tail);
        assert forall|i: int| 0 <= i < rest.len() implies readable(#[trigger] rest[i]) by {
            assert(rest[i] == ds[i + 1]);
        }
        let acc2 = ItemParts { data: acc.data.push(d), ..acc };
        lemma_item_parts_data(c, next, acc2, rest);
        assert(acc.data.push(d) + rest =~= acc.data + ds);
    }
}

/// Reading an item that its identifier identifies back from the content
/// that is written of it gives the item.
pub proof fn lemma_fourcc_item_decode(v: MetaItemView)
    requires
        item_readable(v),
        v.ident is Fourcc,
    ensures
        MetaItem::decode(v.fourcc(), v.content_bytes()) == Ok::<MetaItemView, ErrorView>(v),
{
    let c = v.content_bytes();
    assert(c =~= data_atoms_bytes(v.data));
    assert(c.subrange(0, c.len() as int) =~= c);
    lemma_item_parts_data(c, 0, no_parts(), v.data);
    assert(Seq::<DataView>::empty() + v.data =~= v.data);
}

/// Reading the `mean` and `name` atoms of a freeform item back from the
/// content that is written of it gives the domain and the name, and leads
/// to its `data` atoms.
pub proof fn lemma_freeform_ident_decode(v: MetaItemView)
    requires
        item_readable(v),
        v.ident is Freeform,
    ensures
        item_parts(v.content_bytes(), 0, no_parts()) == item_parts(
            v.content_bytes(),
            v.ident_bytes().len() as int,
            ItemParts {
                mean: Some(v.ident->Freeform_mean),
                name: Some(v.ident->Freeform_name),
                data: Seq::empty(),
            },
        ),
        v.content_bytes().subrange(
            v.ident_bytes().len() as int,
            v.content_bytes().len() as int,
        ) == data_atoms_bytes(v.data),
{
    let c = v.content_bytes();
    let mean = v.ident->Freeform_mean;
    let name = v.ident->Freeform_name;
    let m = text_atom_bytes(MEAN, mean);
    let n = text_atom_bytes(NAME, name);
    lemma_text_atom_bounds(MEAN, mean);
    lemma_text_atom_bounds(NAME, name);
    assert(v.ident_bytes() == m + n);
    assert(c.subrange(0, m.len() as int) =~= m);
    lemma_text_atom_round_trip(c, 0, MEAN, mean);
    assert(c.subrange(m.len() as int, (m.len() + n.len()) as int) =~= n);
    lemma_text_atom_round_trip(c, m.len() as int, NAME, name);
    let p = (m.len() + n.len()) as int;
    assert(c.subrange(p, c.len() as int) =~= data_atoms_bytes(v.data));
    let first = ItemParts { mean: Some(mean), ..no_parts() };
    let acc = ItemParts { mean: Some(mean), name: Some(name), data: Seq::empty() };
    assert(item_parts(c, 0, no_parts()) == item_parts(c, m.len() as int, first));
    assert(item_parts(c, m.len() as int, first) == item_parts(c, p, acc));
}

/// Reading an item back from the content that is written of it gives the
/// item.
pub proof fn lemma_item_decode(v: MetaItemView)
    requires
        item_readable(v),
    ensures
        MetaItem::decode(v.fourcc(), v.content_bytes()) == Ok::<MetaItemView, ErrorView>(v),
{
    if v.ident is Fourcc {
        lemma_fourcc_item_decode(v);
    } else {
        lemma_freeform_ident_decode(v);
        let c = v.content_bytes();
        let acc = ItemParts {
            mean: Some(v.ident->Freeform_mean),
            name: Some(v.ident->Freeform_name),
            data: Seq::empty(),
        };
        lemma_item_parts_data(c, v.ident_bytes().len() as int, acc, v.data);
        assert(Seq::<DataView>::empty() + v.data =~= v.data);
    }
}

/// Reading the atom of an item back from where its bytes stand gives the
/// item.
pub proof fn lemma_item_round_trip(c: Seq<u8>, p: int, v: MetaItemView)
    requires
        0 <= p,
        item_readable(v),
        p + v.bytes().len() <= c.len(),
        c.subrange(p, p + v.bytes().len()) == v.bytes(),
    ensures
        child_at(c, p) is Ok,
        child_at(c, p)->Ok_0.fourcc == v.fourcc(),
        child_at(c, p)->Ok_0.spec_size().len == v.bytes().len(),
        MetaItem::parsed(
            c,
            p + child_at(c, p)->Ok_0.spec_size().spec_head_len(),
            v.fourcc(),
            child_at(c, p)->Ok_0.spec_size(),
        ) == Ok::<MetaItemView, ErrorView>(v),
{
    reveal(MetaItem::parsed);
    reveal(MetaItemView::bytes);
    lemma_boxed_child(c, p, v.fourcc(), v.content_bytes());
    lemma_item_decode(v);
}

} // verus!
