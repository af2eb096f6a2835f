//! The generic atom tree: atoms that hold children or a value, and the
//! templates by which such a tree is read from a file.

pub mod base;
pub mod co64;
pub mod ftyp;
pub mod hdlr;
pub mod ilst;
pub mod mdat;
pub mod mdhd;
pub mod mdia;
pub mod meta;
pub mod metaitem;
pub mod minf;
pub mod moov;
pub mod mp4a;
pub mod mvhd;
pub mod stbl;
pub mod stco;
pub mod stsd;
pub mod tkhd;
pub mod trak;
pub mod tref;
pub mod udta;

use crate::content::{Content, ContentT, ContentTView, ContentView};
use crate::data::{Data, DataT};
use crate::ident::{Ident, DATA};
use vstd::prelude::*;
use vstd::string::*;
use vstd::utf8::encode_utf8;
use crate::error::{annotated, eof, error, Error, ErrorKind, ErrorKindView, ErrorView};
use crate::error::IoErrorKind;
use crate::head::{head_at, parse_head, Size};
use crate::reader::{at32, Reader};

verus! {

/// An atom: its identifier, the number of bytes that lie between its head and
/// its content, and its content.
#[derive(Debug, PartialEq, Eq)]
pub struct Atom {
    /// The identifier.
    pub ident: Ident,
    /// The number of bytes between the head and the content.
    pub offset: usize,
    /// The content.
    pub content: Content,
}

/// The mathematical value of an [`Atom`].
pub struct AtomView {
    pub ident: Ident,
    pub offset: usize,
    pub content: ContentView,
}

impl View for Atom {
    type V = AtomView;

    open spec fn view(&self) -> AtomView
        decreases self,
    {
        AtomView { ident: self.ident, offset: self.offset, content: self.content@ }
    }
}

/// The values of the atoms of a list.
pub open spec fn views(s: Seq<Atom>) -> Seq<AtomView>
    decreases s,
{
    Seq::new(
        s.len(),
        |i: int|
            if 0 <= i < s.len() {
                s[i]@
            } else {
                arbitrary()
            },
    )
}

impl AtomView {
    /// The number of bytes of the atom in the file: the head of 8 bytes, the
    /// offset and the content.
    pub open spec fn len(self) -> nat
        decreases self,
    {
        8 + self.offset as nat + self.content.len()
    }
}

impl AtomView {
    /// The bytes of the atom in the file: the length in 32 bits, the
    /// identifier, as many zero bytes as the offset says, and the content.
    pub open spec fn bytes(self) -> Seq<u8>
        decreases self,
    {
        crate::codec::u32_be(self.len() as u32) + self.ident.bytes() + zeros(self.offset as nat)
            + self.content.bytes()
    }
}

/// `n` zero bytes.
pub open spec fn zeros(n: nat) -> Seq<u8> {
    Seq::new(n, |i: int| 0u8)
}

/// The bytes of the atoms of a list, one after another.
pub open spec fn atoms_bytes(s: Seq<AtomView>) -> Seq<u8>
    decreases s,
{
    if s.len() == 0 {
        Seq::empty()
    } else {
        atoms_bytes(s.drop_last()) + s.last().bytes()
    }
}

/// The number of bytes of the atoms of a list, taken together.
pub open spec fn atoms_len(s: Seq<AtomView>) -> nat
    decreases s,
{
    if s.len() == 0 {
        0
    } else {
        atoms_len(s.drop_last()) + s.last().len()
    }
}

/// The index of the first atom of the list at or after `from` whose
/// identifier is `ident`.
pub open spec fn first_index(s: Seq<AtomView>, ident: Ident, from: int) -> Option<int>
    decreases s.len() - from,
{
    if from < 0 || from >= s.len() {
        None
    } else if s[from].ident == ident {
        Some(from)
    } else {
        first_index(s, ident, from + 1)
    }
}

/// A template for an atom: its identifier, the number of bytes that lie
/// between its head and its content, and what is to be read of its content.
#[derive(Debug, PartialEq, Eq)]
pub struct AtomT {
    /// The identifier.
    pub ident: Ident,
    /// The number of bytes between the head and the content.
    pub offset: usize,
    /// The template of the content.
    pub content: ContentT,
}

/// The mathematical value of an [`AtomT`].
pub struct AtomTView {
    pub ident: Ident,
    pub offset: usize,
    pub content: ContentTView,
}

impl View for AtomT {
    type V = AtomTView;

    open spec fn view(&self) -> AtomTView
        decreases self,
    {
        AtomTView { ident: self.ident, offset: self.offset, content: self.content@ }
    }
}

/// The values of the templates of a list.
pub open spec fn views_t(s: Seq<AtomT>) -> Seq<AtomTView>
    decreases s,
{
    Seq::new(
        s.len(),
        |i: int|
            if 0 <= i < s.len() {
                s[i]@
            } else {
                arbitrary()
            },
    )
}

/// The index of the first template of the list at or after `from` whose
/// identifier is `ident`.
pub open spec fn first_index_t(s: Seq<AtomTView>, ident: Ident, from: int) -> Option<int>
    decreases s.len() - from,
{
    if from < 0 || from >= s.len() {
        None
    } else if s[from].ident == ident {
        Some(from)
    } else {
        first_index_t(s, ident, from + 1)
    }
}

/// The values of a list with one more atom are the values of the list with
/// the value of the atom.
pub proof fn lemma_views_push(s: Seq<Atom>, a: Atom)
    ensures
        views(s.push(a)) == views(s).push(a@),
{
    assert(views(s.push(a)) =~= views(s).push(a@));
}

/// The values of a list with one more template are the values of the list
/// with the value of the template.
pub proof fn lemma_views_t_push(s: Seq<AtomT>, a: AtomT)
    ensures
        views_t(s.push(a)) == views_t(s).push(a@),
{
    assert(views_t(s.push(a)) =~= views_t(s).push(a@));
}

/// `n` as far as a `usize` can count: beyond that, the highest `usize`.
pub open spec fn sat(n: nat) -> usize {
    if n > usize::MAX {
        usize::MAX
    } else {
        n as usize
    }
}

/// `n` as far as 64 bits can count: beyond that, the highest number of 64
/// bits.
pub open spec fn sat64(n: nat) -> u64 {
    if n > u64::MAX {
        u64::MAX
    } else {
        n as u64
    }
}

/// `n` as a `usize`, or the highest `usize` where it is beyond that.
pub fn clamp(n: u64) -> (r: usize)
    ensures
        r == sat(n as nat),
{
    if n > usize::MAX as u64 {
        usize::MAX
    } else {
        n as usize
    }
}

/// The bytes of a list grow by the bytes of the atom that is added.
pub proof fn lemma_atoms_bytes_take(s: Seq<AtomView>, i: int)
    requires
        0 <= i < s.len(),
    ensures
        atoms_bytes(s.take(i + 1)) == atoms_bytes(s.take(i)) + s[i].bytes(),
{
    assert(s.take(i + 1).drop_last() =~= s.take(i));
}

/// The atoms that can be written: those whose length fits the 32 bits of the
/// length field.
pub open spec fn writable(a: AtomView) -> bool {
    a.len() <= u32::MAX
}

/// Appends `n` zero bytes to `out`.
pub fn put_zeros(out: &mut Vec<u8>, n: usize)
    ensures
        final(out)@ == old(out)@ + zeros(n as nat),
{
    let mut i: usize = 0;
    assert(out@ =~= old(out)@ + zeros(0));
    while i < n
        invariant
            i <= n,
            out@ == old(out)@ + zeros(i as nat),
        decreases n - i,
    {
        out.push(0);
        assert(out@ =~= old(out)@ + zeros((i + 1) as nat));
        i += 1;
    }
}

/// The length of a list grows by the length of the atom that is added.
pub proof fn lemma_atoms_len_take(s: Seq<AtomView>, i: int)
    requires
        0 <= i < s.len(),
    ensures
        atoms_len(s.take(i + 1)) == atoms_len(s.take(i)) + s[i].len(),
{
    assert(s.take(i + 1).drop_last() =~= s.take(i));
}

/// Every atom of a list is at most as long as the list.
pub proof fn lemma_atoms_len_bounds(s: Seq<AtomView>, i: int)
    requires
        0 <= i < s.len(),
    ensures
        s[i].len() <= atoms_len(s),
    decreases s.len(),
{
    if i < s.len() - 1 {
        lemma_atoms_len_bounds(s.drop_last(), i);
    }
}

/// Where the search from `from` finds an index, it is that of the first atom
/// at or after `from` with the identifier; where it finds none, there is
/// none.
pub proof fn lemma_first_index(s: Seq<AtomView>, ident: Ident, from: int)
    requires
        0 <= from,
    ensures
        match first_index(s, ident, from) {
            Some(i) => from <= i < s.len() && s[i].ident == ident && forall|j: int|
                from <= j < i ==> s[j].ident != ident,
            None => forall|j: int| from <= j < s.len() ==> s[j].ident != ident,
        },
    decreases s.len() - from,
{
    if from < s.len() && s[from].ident != ident {
        lemma_first_index(s, ident, from + 1);
    }
}

/// Where the search from `from` finds an index, it is that of the first
/// template at or after `from` with the identifier; where it finds none,
/// there is none.
pub proof fn lemma_first_index_t(s: Seq<AtomTView>, ident: Ident, from: int)
    requires
        0 <= from,
    ensures
        match first_index_t(s, ident, from) {
            Some(i) => from <= i < s.len() && s[i].ident == ident && forall|j: int|
                from <= j < i ==> s[j].ident != ident,
            None => forall|j: int| from <= j < s.len() ==> s[j].ident != ident,
        },
    decreases s.len() - from,
{
    if from < s.len() && s[from].ident != ident {
        lemma_first_index_t(s, ident, from + 1);
    }
}

/// The index of the first atom of the list whose identifier is `ident`.
pub fn find_atom(v: &Vec<Atom>, ident: Ident) -> (r: Option<usize>)
    ensures
        match r {
            Some(i) => first_index(views(v@), ident, 0) == Some(i as int) && i < v@.len(),
            None => first_index(views(v@), ident, 0) is None,
        },
{
    let mut i: usize = 0;
    while i < v.len()
        invariant
            i <= v.len(),
            first_index(views(v@), ident, 0) == first_index(views(v@), ident, i as int),
        decreases v.len() - i,
    {
        if v[i].ident == ident {
            return Some(i);
        }
        i += 1;
    }
    None
}

/// The index of the first template of the list whose identifier is `ident`.
pub fn find_atom_t(v: &Vec<AtomT>, ident: Ident) -> (r: Option<usize>)
    ensures
        match r {
            Some(i) => first_index_t(views_t(v@), ident, 0) == Some(i as int) && i < v@.len(),
            None => first_index_t(views_t(v@), ident, 0) is None,
        },
{
    let mut i: usize = 0;
    while i < v.len()
        invariant
            i <= v.len(),
            first_index_t(views_t(v@), ident, 0) == first_index_t(views_t(v@), ident, i as int),
        decreases v.len() - i,
    {
        if v[i].ident == ident {
            return Some(i);
        }
        i += 1;
    }
    None
}

/// What reading the content of an atom by the template `t` gives: `p` is the
/// position in the stream `s` at which the content starts, `size` the size
/// that the head of the atom declares. An atom without content reads as
/// empty; the bytes of the offset are passed over.
pub open spec fn content_read(t: AtomTView, s: Seq<u8>, p: int, size: Size) -> Result<
    ContentView,
    ErrorView,
>
    decreases t, 0int,
{
    let len = size.spec_content_len();
    if s.len() - p < len {
        Err(eof())
    } else if len == 0 {
        Ok(ContentView::Empty)
    } else if len < t.offset {
        Err(eof())
    } else {
        content_parsed(t.content, s.subrange(p, p + len), t.offset as int, len - t.offset)
    }
}

/// What reading a content of `length` bytes by the template `t` gives, from
/// position `p` of the stream `s`.
pub open spec fn content_parsed(t: ContentTView, s: Seq<u8>, p: int, length: int) -> Result<
    ContentView,
    ErrorView,
>
    decreases t, 0int,
{
    match t {
        ContentTView::Atoms(ts) => match atoms_parsed(ts, s, p, length) {
            Ok(v) => Ok(ContentView::Atoms(v)),
            Err(e) => Err(e),
        },
        ContentTView::RawData(d) => match d.parsed(s, p, length) {
            Ok(v) => Ok(ContentView::RawData(v)),
            Err(e) => Err(e),
        },
        ContentTView::TypedData => if length < 8 {
            Err(error(ErrorKindView::Parsing, "Typed data head to short"))
        } else if s.len() - p < 4 {
            Err(
                error(
                    ErrorKindView::Io(IoErrorKind::UnexpectedEof),
                    "Error reading typed data head",
                ),
            )
        } else if s.len() - p < 8 {
            Err(eof())
        } else {
            match (DataT { code: at32(s, p) }).parsed(s, p + 8, length - 8) {
                Ok(v) => Ok(ContentView::TypedData(v)),
                Err(e) => Err(e),
            }
        },
        ContentTView::Empty => Ok(ContentView::Empty),
    }
}

/// What reading the atoms that lie in the `length` bytes from position `p` of
/// the stream `s` gives: of each atom whose identifier a template has, what
/// the first such template reads of it, in the order of the file. The other
/// atoms are passed over. An atom that declares to reach beyond the `length`
/// bytes, or to the end of the stream, is an error.
pub open spec fn atoms_parsed(ts: Seq<AtomTView>, s: Seq<u8>, p: int, length: int) -> Result<
    Seq<AtomView>,
    ErrorView,
>
    decreases ts, length,
{
    if length <= 0 {
        Ok(Seq::empty())
    } else {
        match head_at(s, p) {
            Err(e) => Err(e),
            Ok(h) => {
                let size = h.spec_size();
                let found = first_index_t(ts, h.fourcc, 0);
                if h.size == 0 {
                    Err(error(ErrorKindView::Parsing, "Atom of open length inside another"))
                } else if size.len > length {
                    Err(error(ErrorKindView::Parsing, "Atom reaches beyond the atom around it"))
                } else if found is Some && 0 <= found->0 < ts.len() {
                    let t = ts[found->0];
                    match content_read(t, s, p + size.spec_head_len(), size) {
                        Err(e) => Err(annotated("reading", h.fourcc, e)),
                        Ok(c) => match atoms_parsed(ts, s, p + size.len, length - size.len) {
                            Err(e) => Err(e),
                            Ok(rest) => Ok(
                                seq![AtomView { ident: t.ident, offset: t.offset, content: c }]
                                    + rest,
                            ),
                        },
                    }
                } else if s.len() - p < size.len {
                    Err(eof())
                } else {
                    atoms_parsed(ts, s, p + size.len, length - size.len)
                }
            },
        }
    }
}

/// What reading the atom at position `p` of the stream `s` by the template
/// `t` gives. An atom with another identifier is an error.
pub open spec fn atom_parsed(t: AtomTView, s: Seq<u8>, p: int) -> Result<AtomView, ErrorView> {
    match head_at(s, p) {
        Err(e) => Err(e),
        Ok(h) => if h.fourcc == t.ident {
            match content_read(t, s, p + h.spec_size().spec_head_len(), h.spec_size()) {
                Ok(c) => Ok(AtomView { ident: t.ident, offset: t.offset, content: c }),
                Err(e) => Err(annotated("reading", h.fourcc, e)),
            }
        } else {
            Err(
                ErrorView {
                    kind: ErrorKindView::AtomNotFound(t.ident),
                    description: "Expected "@ + t.ident.chars() + " found "@ + h.fourcc.chars(),
                },
            )
        },
    }
}

/// The atoms read so far, followed by what the rest of the reading gives.
pub open spec fn read_on(done: Seq<AtomView>, rest: Result<Seq<AtomView>, ErrorView>) -> Result<
    Seq<AtomView>,
    ErrorView,
> {
    match rest {
        Ok(v) => Ok(done + v),
        Err(e) => Err(e),
    }
}

/// The brands of the file type atom that are supported: a file is accepted
/// where its brand starts with one of them.
pub open spec fn valid_brands() -> Seq<Seq<u8>> {
    seq![
        seq![0x4du8, 0x34u8, 0x41u8, 0x20u8],
        seq![0x4du8, 0x34u8, 0x42u8, 0x20u8],
        seq![0x4du8, 0x34u8, 0x50u8, 0x20u8],
        seq![0x4du8, 0x34u8, 0x56u8, 0x20u8],
        seq![0x69u8, 0x73u8, 0x6fu8, 0x6du8],
    ]
}

/// Whether a brand, given by its bytes, starts with one of the supported
/// brands `M4A `, `M4B `, `M4P `, `M4V ` and `isom`.
pub open spec fn is_valid_brand(brand: Seq<u8>) -> bool {
    brand.len() >= 4 && exists|i: int|
        0 <= i < 5 && brand.subrange(0, 4) == #[trigger] valid_brands()[i]
}

/// Whether a brand, given by its bytes, starts with one of the supported
/// brands.
pub fn valid_brand(b: &[u8]) -> (r: bool)
    ensures
        r == is_valid_brand(b@),
{
    if b.len() < 4 {
        return false;
    }
    let ghost head = b@.subrange(0, 4);
    let m4 = b[0] == 0x4d && b[1] == 0x34 && b[3] == 0x20 && (b[2] == 0x41 || b[2] == 0x42 || b[2]
        == 0x50 || b[2] == 0x56);
    let isom = b[0] == 0x69 && b[1] == 0x73 && b[2] == 0x6f && b[3] == 0x6d;
    proof {
        let brands = valid_brands();
        if m4 {
            let i: int = if b[2] == 0x41 {
                0
            } else if b[2] == 0x42 {
                1
            } else if b[2] == 0x50 {
                2
            } else {
                3
            };
            assert(head =~= brands[i]);
        } else if isom {
            assert(head =~= brands[4]);
        } else {
            assert forall|i: int| 0 <= i < 5 implies head != #[trigger] brands[i] by {
                assert(head[0] == b[0] && head[1] == b[1] && head[2] == b[2] && head[3] == b[3]);
            }
        }
    }
    m4 || isom
}

/// Whether a brand starts with one of the supported brands.
pub fn valid_filetype(brand: &str) -> (r: bool)
    ensures
        r == is_valid_brand(encode_utf8(brand@)),
{
    valid_brand(brand.as_bytes())
}

impl Atom {
    /// An atom with the given identifier, offset and content.
    pub fn with(ident: Ident, offset: usize, content: Content) -> (r: Atom)
        ensures
            r == (Atom { ident, offset, content }),
    {
        Atom { ident, offset, content }
    }

    /// An atom that holds the value without a type in front of it.
    pub fn with_raw_data(ident: Ident, offset: usize, data: Data) -> (r: Atom)
        ensures
            r == (Atom { ident, offset, content: Content::RawData(data) }),
    {
        Atom::with(ident, offset, Content::RawData(data))
    }

    /// An atom that holds the value with its type in front of it.
    pub fn with_typed_data(ident: Ident, offset: usize, data: Data) -> (r: Atom)
        ensures
            r == (Atom { ident, offset, content: Content::TypedData(data) }),
    {
        Atom::with(ident, offset, Content::TypedData(data))
    }

    /// A `data` atom that holds the value with its type in front of it.
    pub fn data_atom_with(data: Data) -> (r: Atom)
        ensures
            r == (Atom { ident: Ident(DATA), offset: 0, content: Content::TypedData(data) }),
    {
        Atom::with(Ident(DATA), 0, Content::TypedData(data))
    }

    /// The length of the atom in bytes, as far as 64 bits can count.
    pub fn byte_len(&self) -> (r: u64)
        ensures
            r == sat64(self@.len()),
        decreases self,
    {
        let n: u64 = 8;
        n.saturating_add(self.offset as u64).saturating_add(self.content.byte_len())
    }

    /// The length of the atom in bytes, as far as a `usize` can count.
    pub fn len(&self) -> (r: usize)
        ensures
            r == sat(self@.len()),
    {
        clamp(self.byte_len())
    }

    /// Whether the atom consists of its head of 8 bytes alone.
    pub fn is_empty(&self) -> (r: bool)
        ensures
            r == (self@.len() == 8),
    {
        self.offset == 0 && self.content.byte_len() == 0
    }

    /// Writes the atom: its head, the bytes of the offset and the content.
    /// An atom whose length does not fit the 32 bits of the length field is
    /// not written.
    pub fn write_to(&self, out: &mut Vec<u8>) -> (r: Result<(), Error>)
        ensures
            match r {
                Ok(_) => writable(self@) && final(out)@ == old(out)@ + self@.bytes(),
                Err(e) => !writable(self@) && final(out)@ == old(out)@ && e@ == error(
                    ErrorKindView::Unsupported("Atom longer than 32 bits can say"@),
                    "Atom longer than 32 bits can say",
                ),
            },
    {
        if self.byte_len() > 0xffff_ffff {
            return Err(
                Error::new(
                    ErrorKind::Unsupported("Atom longer than 32 bits can say".to_owned()),
                    "Atom longer than 32 bits can say",
                ),
            );
        }
        self.write_fitting(out);
        Ok(())
    }

    /// Writes an atom whose length fits the 32 bits of the length field.
    pub fn write_fitting(&self, out: &mut Vec<u8>)
        requires
            writable(self@),
        ensures
            final(out)@ == old(out)@ + self@.bytes(),
        decreases self,
    {
        let len = self.byte_len();
        crate::codec::put_be_u32(out, len as u32);
        crate::codec::put_be_u32(out, self.ident.0);
        put_zeros(out, self.offset);
        proof {
            let kids = self@.content.children();
            assert forall|i: int| 0 <= i < kids.len() implies writable(#[trigger] kids[i]) by {
                lemma_atoms_len_bounds(kids, i);
            }
        }
        self.content.write_fitting(out);
        assert(out@ =~= old(out)@ + self@.bytes());
    }

    /// The first child atom with the identifier.
    pub fn child(&self, ident: Ident) -> (r: Option<&Atom>)
        ensures
            match first_index(self@.content.children(), ident, 0) {
                Some(i) => r is Some && r->0@ == self@.content.children()[i],
                None => r is None,
            },
    {
        self.content.child(ident)
    }

    /// The first child atom.
    pub fn first_child(&self) -> (r: Option<&Atom>)
        ensures
            match r {
                Some(a) => self@.content.children().len() > 0 && a@
                    == self@.content.children()[0],
                None => self@.content.children().len() == 0,
            },
    {
        self.content.first_child()
    }

    /// The first child atom with the identifier, to be changed in place.
    pub fn mut_child(&mut self, ident: Ident) -> (r: Option<&mut Atom>)
        ensures
            final(self).ident == old(self).ident,
            final(self).offset == old(self).offset,
            match first_index(old(self)@.content.children(), ident, 0) {
                Some(i) => r is Some && *r->0 == old(self).content.atoms_of()[i]
                    && final(self).content.atoms_of()
                        == old(self).content.atoms_of().update(i, *final(r->0)),
                None => r is None && *final(self) == *old(self),
            },
    {
        self.content.child_mut(ident)
    }

    /// The first child atom, to be changed in place.
    pub fn mut_first_child(&mut self) -> (r: Option<&mut Atom>)
        ensures
            final(self).ident == old(self).ident,
            final(self).offset == old(self).offset,
            match r {
                Some(a) => old(self).content.atoms_of().len() > 0
                    && *a == old(self).content.atoms_of()[0]
                        && final(self).content.atoms_of()
                            == old(self).content.atoms_of().update(0, *final(a)),
                None => old(self)@.content.children().len() == 0 && *final(self) == *old(self),
            },
    {
        self.content.first_child_mut()
    }

    /// What the check of the file type says of an atom: nothing where it
    /// holds text that starts with a supported brand.
    pub open spec fn filetype_checked(a: AtomView) -> Result<(), ErrorView> {
        match a.content {
            ContentView::RawData(crate::data::DataView::Utf8(s)) => if is_valid_brand(
                encode_utf8(s),
            ) {
                Ok(())
            } else {
                Err(error(ErrorKindView::InvalidFiletype(s), "Invalid filetype."))
            },
            _ => Err(error(ErrorKindView::NoTag, "No filetype atom found.")),
        }
    }

    /// Checks the file type that the atom holds: the atom must hold text
    /// without a type in front of it, and the text must start with a
    /// supported brand.
    pub fn check_filetype(&self) -> (r: Result<(), Error>)
        ensures
            match r {
                Ok(_) => Atom::filetype_checked(self@) is Ok,
                Err(e) => Atom::filetype_checked(self@) == Err::<(), ErrorView>(e@),
            },
    {
        match &self.content {
            Content::RawData(Data::Utf8(s)) => {
                if valid_filetype(s.as_str()) {
                    Ok(())
                } else {
                    Err(Error::new(ErrorKind::InvalidFiletype(s.clone()), "Invalid filetype."))
                }
            },
            _ => Err(Error::new(ErrorKind::NoTag, "No filetype atom found.")),
        }
    }
}

impl AtomT {
    /// A template with the given identifier, offset and content template.
    pub fn with(ident: Ident, offset: usize, content: ContentT) -> (r: AtomT)
        ensures
            r == (AtomT { ident, offset, content }),
    {
        AtomT { ident, offset, content }
    }

    /// A template for an atom that holds a value of the given type without a
    /// type in front of it.
    pub fn with_raw_data(ident: Ident, offset: usize, data: DataT) -> (r: AtomT)
        ensures
            r == (AtomT { ident, offset, content: ContentT::RawData(data) }),
    {
        AtomT::with(ident, offset, ContentT::RawData(data))
    }

    /// A template for a `data` atom that holds a value with its type in front
    /// of it.
    pub fn data_atom() -> (r: AtomT)
        ensures
            r == (AtomT { ident: Ident(DATA), offset: 0, content: ContentT::TypedData }),
    {
        AtomT::with(Ident(DATA), 0, ContentT::TypedData)
    }

    /// The first child template with the identifier.
    pub fn child(&self, ident: Ident) -> (r: Option<&AtomT>)
        ensures
            match first_index_t(self@.content.children(), ident, 0) {
                Some(i) => r is Some && r->0@ == self@.content.children()[i],
                None => r is None,
            },
    {
        self.content.child(ident)
    }

    /// The first child template.
    pub fn first_child(&self) -> (r: Option<&AtomT>)
        ensures
            match r {
                Some(a) => self@.content.children().len() > 0 && a@
                    == self@.content.children()[0],
                None => self@.content.children().len() == 0,
            },
    {
        self.content.first_child()
    }

    /// The first child template with the identifier, to be changed in place.
    pub fn mut_child(&mut self, ident: Ident) -> (r: Option<&mut AtomT>)
        ensures
            final(self).ident == old(self).ident,
            final(self).offset == old(self).offset,
            match first_index_t(old(self)@.content.children(), ident, 0) {
                Some(i) => r is Some && *r->0 == old(self).content.atoms_of()[i]
                    && final(self).content.atoms_of()
                        == old(self).content.atoms_of().update(i, *final(r->0)),
                None => r is None && *final(self) == *old(self),
            },
    {
        self.content.child_mut(ident)
    }

    /// The first child template, to be changed in place.
    pub fn mut_first_child(&mut self) -> (r: Option<&mut AtomT>)
        ensures
            final(self).ident == old(self).ident,
            final(self).offset == old(self).offset,
            match r {
                Some(a) => old(self).content.atoms_of().len() > 0
                    && *a == old(self).content.atoms_of()[0]
                        && final(self).content.atoms_of()
                            == old(self).content.atoms_of().update(0, *final(a)),
                None => old(self)@.content.children().len() == 0 && *final(self) == *old(self),
            },
    {
        self.content.first_child_mut()
    }

    /// Reads the atom at the cursor, which must be the one that the template
    /// is for: an atom with another identifier is an error.
    pub fn parse(&self, reader: &mut Reader) -> (r: Result<Atom, Error>)
        requires
            old(reader).wf(),
        ensures
            match r {
                Ok(a) => atom_parsed(self@, old(reader).data@, old(reader).pos as int) == Ok::<
                    AtomView,
                    ErrorView,
                >(a@) && final(reader).moved(
                    old(reader),
                    head_at(old(reader).data@, old(reader).pos as int)->Ok_0.spec_size().len as int,
                ),
                Err(e) => atom_parsed(self@, old(reader).data@, old(reader).pos as int) == Err::<
                    AtomView,
                    ErrorView,
                >(e@) && final(reader).same_stream(old(reader)),
            },
    {
        let head = parse_head(reader)?;
        if head.fourcc == self.ident {
            match self.parse_content(reader, head.size()) {
                Ok(c) => Ok(Atom::with(self.ident, self.offset, c)),
                Err(e) => Err(e.annotate("reading", head.fourcc)),
            }
        } else {
            let mut d = "Expected ".to_owned();
            d.append(self.ident.to_string().as_str());
            d.append(" found ");
            d.append(head.fourcc.to_string().as_str());
            Err(Error { kind: ErrorKind::AtomNotFound(self.ident), description: d })
        }
    }

    /// Reads the atoms that lie in the next `length` bytes: each atom whose
    /// identifier one of the templates has is read by the first such
    /// template, the others are passed over.
    pub fn parse_atoms(atoms: &Vec<AtomT>, reader: &mut Reader, length: u64) -> (r: Result<
        Vec<Atom>,
        Error,
    >)
        requires
            old(reader).wf(),
        ensures
            match r {
                Ok(v) => atoms_parsed(
                    views_t(atoms@),
                    old(reader).data@,
                    old(reader).pos as int,
                    length as int,
                ) == Ok::<Seq<AtomView>, ErrorView>(views(v@)) && final(reader).moved(
                    old(reader),
                    length as int,
                ),
                Err(e) => atoms_parsed(
                    views_t(atoms@),
                    old(reader).data@,
                    old(reader).pos as int,
                    length as int,
                ) == Err::<Seq<AtomView>, ErrorView>(e@) && final(reader).same_stream(old(reader)),
            },
        decreases atoms,
    {
        let ghost ts = views_t(atoms@);
        let ghost s = reader.data@;
        let ghost first = reader.pos as int;
        let mut parsed: u64 = 0;
        let mut out: Vec<Atom> = Vec::new();
        assert(views(out@) =~= Seq::empty());
        assert(read_on(views(out@), atoms_parsed(ts, s, first, length as int)) == atoms_parsed(
            ts,
            s,
            first,
            length as int,
        )) by {
            match atoms_parsed(ts, s, first, length as int) {
                Ok(v) => assert(Seq::<AtomView>::empty() + v =~= v),
                Err(_) => {},
            }
        }
        while parsed < length
            invariant
                parsed <= length,
                ts == views_t(atoms@),
                reader.moved(old(reader), parsed as int),
                s == old(reader).data@,
                first == old(reader).pos,
                read_on(views(out@), atoms_parsed(ts, s, first + parsed, length - parsed))
                    == atoms_parsed(ts, s, first, length as int),
            decreases length - parsed,
        {
            let ghost here = first + parsed;
            let head = parse_head(reader)?;
            let size = head.size();
            if head.size == 0 {
                return Err(Error::new(ErrorKind::Parsing, "Atom of open length inside another"));
            }
            if size.len > length - parsed {
                return Err(
                    Error::new(ErrorKind::Parsing, "Atom reaches beyond the atom around it"),
                );
            }
            match find_atom_t(atoms, head.fourcc) {
                Some(i) => {
                    proof {
                        vstd::std_specs::vec::axiom_vec_index_decreases(*atoms, i as int);
                    }
                    let t = &atoms[i];
                    assert(ts[i as int] == t@);
                    match t.parse_content(reader, size) {
                        Ok(c) => {
                            let a = Atom::with(t.ident, t.offset, c);
                            proof {
                                lemma_views_push(out@, a);
                                let rest = atoms_parsed(
                                    ts,
                                    s,
                                    here + size.len,
                                    length - parsed - size.len,
                                );
                                match rest {
                                    Ok(v) => assert((views(out@) + (seq![a@] + v)) =~= (views(
                                        out@,
                                    ).push(a@) + v)),
                                    Err(_) => {},
                                }
                            }
                            out.push(a);
                        },
                        Err(e) => {
                            return Err(e.annotate("reading", head.fourcc));
                        },
                    }
                },
                None => {
                    reader.skip(size.content_len())?;
                },
            }
            parsed = parsed + size.len;
        }
        proof {
            assert(views(out@) + Seq::<AtomView>::empty() =~= views(out@));
        }
        Ok(out)
    }

    /// Reads the content of the atom that the template is for: the cursor
    /// stands behind the head of the atom, which declared the size `size`.
    pub fn parse_content(&self, reader: &mut Reader, size: Size) -> (r: Result<Content, Error>)
        requires
            old(reader).wf(),
            size.wf(),
        ensures
            match r {
                Ok(c) => content_read(self@, old(reader).data@, old(reader).pos as int, size)
                    == Ok::<ContentView, ErrorView>(c@) && final(reader).moved(
                    old(reader),
                    size.spec_content_len(),
                ),
                Err(e) => content_read(self@, old(reader).data@, old(reader).pos as int, size)
                    == Err::<ContentView, ErrorView>(e@) && final(reader).same_stream(old(reader)),
            },
        decreases self,
    {
        let len = size.content_len();
        let mut content = reader.take(len)?;
        if len == 0 {
            return Ok(Content::Empty);
        }
        if self.offset as u64 > len {
            return Err(Error::eof());
        }
        match content.skip(self.offset as u64) {
            Ok(_) => {},
            Err(e) => {
                return Err(e);
            },
        }
        self.content.parse(&mut content, len - self.offset as u64)
    }
}

} // verus!
