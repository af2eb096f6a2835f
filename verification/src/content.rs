//! What an atom of the generic tree holds, and the template by which it is
//! read.

use crate::atom::{atoms_bytes, atoms_len, first_index, first_index_t, views, views_t};
use crate::atom::{clamp, sat, sat64, writable};
use crate::atom::{find_atom, find_atom_t, lemma_atoms_len_take, lemma_views_t_push};
use crate::atom::lemma_atoms_bytes_take;
use crate::error::{error, ErrorKindView};
use vstd::string::*;
use crate::atom::{Atom, AtomT, AtomTView, AtomView};
use crate::data::{Data, DataT, DataView};
use crate::atom::content_parsed;
use crate::error::{Error, ErrorKind, ErrorView, IoErrorKind};
use crate::ident::Ident;
use crate::reader::Reader;
use vstd::prelude::*;

verus! {

/// The content of an atom.
#[derive(Debug, PartialEq, Eq)]
pub enum Content {
    /// A list of children atoms.
    Atoms(Vec<Atom>),
    /// A value without a type in front of it.
    RawData(Data),
    /// A value with its type code and locale indicator in front of it.
    TypedData(Data),
    /// Nothing.
    Empty,
}

/// The mathematical value of a [`Content`].
pub enum ContentView {
    Atoms(Seq<AtomView>),
    RawData(DataView),
    TypedData(DataView),
    Empty,
}

impl View for Content {
    type V = ContentView;

    open spec fn view(&self) -> ContentView
        decreases self,
    {
        match self {
            Content::Atoms(v) => ContentView::Atoms(views(v@)),
            Content::RawData(d) => ContentView::RawData(d@),
            Content::TypedData(d) => ContentView::TypedData(d@),
            Content::Empty => ContentView::Empty,
        }
    }
}

impl ContentView {
    /// The number of bytes of the content in the file.
    pub open spec fn len(self) -> nat
        decreases self,
    {
        match self {
            ContentView::Atoms(s) => atoms_len(s),
            ContentView::RawData(d) => d.raw_bytes().len(),
            ContentView::TypedData(d) => 8 + d.raw_bytes().len(),
            ContentView::Empty => 0,
        }
    }

    /// The children atoms: those of a list, none of any other content.
    pub open spec fn children(self) -> Seq<AtomView> {
        match self {
            ContentView::Atoms(s) => s,
            _ => Seq::empty(),
        }
    }

    /// The bytes of the content in the file.
    pub open spec fn bytes(self) -> Seq<u8>
        decreases self,
    {
        match self {
            ContentView::Atoms(s) => atoms_bytes(s),
            ContentView::RawData(d) => d.raw_bytes(),
            ContentView::TypedData(d) => d.typed_bytes(),
            ContentView::Empty => Seq::empty(),
        }
    }

    /// The contents that can be written: those whose children atoms all can.
    pub open spec fn writable(self) -> bool {
        forall|i: int| 0 <= i < self.children().len() ==> writable(#[trigger] self.children()[i])
    }
}

/// A template for the content of an atom: what is to be read from it.
#[derive(Debug, PartialEq, Eq)]
pub enum ContentT {
    /// A list of templates for the children atoms that are to be read.
    Atoms(Vec<AtomT>),
    /// A value of the given type, without a type in front of it.
    RawData(DataT),
    /// A value with its type code and locale indicator in front of it.
    TypedData,
    /// Nothing is to be read.
    Empty,
}

/// The mathematical value of a [`ContentT`].
pub enum ContentTView {
    Atoms(Seq<AtomTView>),
    RawData(DataT),
    TypedData,
    Empty,
}

impl View for ContentT {
    type V = ContentTView;

    open spec fn view(&self) -> ContentTView
        decreases self,
    {
        match self {
            ContentT::Atoms(v) => ContentTView::Atoms(views_t(v@)),
            ContentT::RawData(d) => ContentTView::RawData(*d),
            ContentT::TypedData => ContentTView::TypedData,
            ContentT::Empty => ContentTView::Empty,
        }
    }
}

impl ContentTView {
    /// The templates of the children atoms: those of a list, none of any
    /// other template.
    pub open spec fn children(self) -> Seq<AtomTView> {
        match self {
            ContentTView::Atoms(s) => s,
            _ => Seq::empty(),
        }
    }
}

impl Default for Content {
    fn default() -> (r: Content)
        ensures
            r == Content::Empty,
    {
        Content::Empty
    }
}

impl Content {
    /// The children atoms: those of a list, none of any other content.
    pub open spec fn atoms_of(&self) -> Seq<Atom> {
        match self {
            Content::Atoms(v) => v@,
            _ => Seq::empty(),
        }
    }

    /// A content that is an empty list of atoms.
    pub fn atoms() -> (r: Content)
        ensures
            r@ == ContentView::Atoms(Seq::empty()),
    {
        let r = Content::Atoms(Vec::new());
        assert(r@->Atoms_0 =~= Seq::empty());
        r
    }

    /// A content that is a list of the one atom.
    pub fn atom(atom: Atom) -> (r: Content)
        ensures
            r@ == ContentView::Atoms(seq![atom@]),
    {
        let mut v = Vec::new();
        v.push(atom);
        let r = Content::Atoms(v);
        assert(r@->Atoms_0 =~= seq![atom@]);
        r
    }

    /// A content that is a list of one `data` atom, which holds the value
    /// with its type in front of it.
    pub fn data_atom_with(data: Data) -> (r: Content)
        ensures
            r@ == ContentView::Atoms(
                seq![
                    AtomView {
                        ident: Ident(crate::ident::DATA),
                        offset: 0,
                        content: ContentView::TypedData(data@),
                    },
                ],
            ),
    {
        Content::atom(Atom::data_atom_with(data))
    }

    /// The length of the content in bytes, as far as 64 bits can count.
    pub fn byte_len(&self) -> (r: u64)
        ensures
            r == sat64(self@.len()),
        decreases self,
    {
        match self {
            Content::Atoms(v) => {
                let mut n: u64 = 0;
                let mut i: usize = 0;
                while i < v.len()
                    invariant
                        i <= v.len(),
                        *self is Atoms,
                        self->Atoms_0 == *v,
                        n == sat64(atoms_len(views(v@).take(i as int))),
                    decreases v.len() - i,
                {
                    proof {
                        lemma_atoms_len_take(views(v@), i as int);
                        vstd::std_specs::vec::axiom_vec_index_decreases(*v, i as int);
                    }
                    n = n.saturating_add(v[i].byte_len());
                    i += 1;
                }
                assert(views(v@).take(i as int) =~= views(v@));
                n
            },
            Content::RawData(d) => d.len() as u64,
            Content::TypedData(d) => (d.len() as u64).saturating_add(8),
            Content::Empty => 0,
        }
    }

    /// The length of the content in bytes, as far as a `usize` can count.
    pub fn len(&self) -> (r: usize)
        ensures
            r == sat(self@.len()),
    {
        clamp(self.byte_len())
    }

    /// Whether the content has no bytes.
    pub fn is_empty(&self) -> (r: bool)
        ensures
            r == (self@.len() == 0),
    {
        self.byte_len() == 0
    }

    /// Writes the content. A content with a child atom whose length does not
    /// fit the 32 bits of the length field is not written.
    pub fn write_to(&self, out: &mut Vec<u8>) -> (r: Result<(), Error>)
        ensures
            match r {
                Ok(_) => self@.writable() && final(out)@ == old(out)@ + self@.bytes(),
                Err(e) => !self@.writable() && final(out)@ == old(out)@ && e@ == error(
                    ErrorKindView::Unsupported("Atom longer than 32 bits can say"@),
                    "Atom longer than 32 bits can say",
                ),
            },
    {
        match self {
            Content::Atoms(v) => {
                assert(self@.children() == views(v@));
                let mut i: usize = 0;
                while i < v.len()
                    invariant
                        i <= v.len(),
                        out@ == old(out)@,
                        self@.children() == views(v@),
                        forall|j: int| 0 <= j < i ==> writable(#[trigger] views(v@)[j]),
                    decreases v.len() - i,
                {
                    if v[i].byte_len() > 0xffff_ffff {
                        assert(!writable(views(v@)[i as int]));
                        return Err(
                            Error::new(
                                ErrorKind::Unsupported(
                                    "Atom longer than 32 bits can say".to_owned(),
                                ),
                                "Atom longer than 32 bits can say",
                            ),
                        );
                    }
                    i += 1;
                }
            },
            _ => {},
        }
        self.write_fitting(out);
        Ok(())
    }

    /// Writes a content whose children atoms can all be written.
    pub fn write_fitting(&self, out: &mut Vec<u8>)
        requires
            self@.writable(),
        ensures
            final(out)@ == old(out)@ + self@.bytes(),
        decreases self,
    {
        match self {
            Content::Atoms(v) => {
                assert(self@.children() == views(v@));
                let mut i: usize = 0;
                assert(out@ =~= old(out)@ + atoms_bytes(views(v@).take(0)));
                while i < v.len()
                    invariant
                        i <= v.len(),
                        *self is Atoms,
                        self->Atoms_0 == *v,
                        self@.writable(),
                        self@.children() == views(v@),
                        out@ == old(out)@ + atoms_bytes(views(v@).take(i as int)),
                    decreases v.len() - i,
                {
                    proof {
                        lemma_atoms_bytes_take(views(v@), i as int);
                        vstd::std_specs::vec::axiom_vec_index_decreases(*v, i as int);
                        assert(writable(self@.children()[i as int]));
                    }
                    v[i].write_fitting(out);
                    assert(out@ =~= old(out)@ + atoms_bytes(views(v@).take(i + 1)));
                    i += 1;
                }
                assert(views(v@).take(i as int) =~= views(v@));
            },
            Content::RawData(d) => d.write_raw(out),
            Content::TypedData(d) => d.write_typed(out),
            Content::Empty => {
                assert(out@ =~= old(out)@ + self@.bytes());
            },
        }
    }

    /// The children atoms: those of a list, none of any other content.
    pub fn iter(&self) -> (r: &[Atom])
        ensures
            views(r@) == self@.children(),
    {
        match self {
            Content::Atoms(v) => v.as_slice(),
            _ => {
                let r: &[Atom] = &[];
                assert(views(r@) =~= self@.children());
                r
            },
        }
    }

    /// The children atoms, to be changed in place: those of a list, none of
    /// any other content.
    pub fn iter_mut(&mut self) -> (r: &mut [Atom])
        ensures
            r@ == old(self).atoms_of(),
            *old(self) is Atoms ==> final(self).atoms_of() == final(r)@,
            !(*old(self) is Atoms) ==> *final(self) == *old(self),
    {
        match self {
            Content::Atoms(v) => v.as_mut_slice(),
            _ => &mut [],
        }
    }

    /// The first child atom with the identifier.
    pub fn child(&self, ident: Ident) -> (r: Option<&Atom>)
        ensures
            match first_index(self@.children(), ident, 0) {
                Some(i) => r is Some && r->0@ == self@.children()[i],
                None => r is None,
            },
    {
        match self {
            Content::Atoms(v) => {
                assert(self@.children() == views(v@));
                match find_atom(v, ident) {
                    Some(i) => {
                        assert(views(v@)[i as int] == v@[i as int]@);
                        Some(&v[i])
                    },
                    None => None,
                }
            },
            _ => None,
        }
    }

    /// The first child atom.
    pub fn first_child(&self) -> (r: Option<&Atom>)
        ensures
            match r {
                Some(a) => self@.children().len() > 0 && a@ == self@.children()[0],
                None => self@.children().len() == 0,
            },
    {
        match self {
            Content::Atoms(v) => if v.len() > 0 {
                Some(&v[0])
            } else {
                None
            },
            _ => None,
        }
    }

    /// The first child atom, to be changed in place.
    pub fn first_child_mut(&mut self) -> (r: Option<&mut Atom>)
        ensures
            match r {
                Some(a) => old(self).atoms_of().len() > 0 && *a == old(self).atoms_of()[0]
                    && final(self).atoms_of() == old(self).atoms_of().update(0, *final(a)),
                None => old(self)@.children().len() == 0 && *final(self) == *old(self),
            },
    {
        match self {
            Content::Atoms(v) => {
                if v.len() > 0 {
                    Some(&mut v[0])
                } else {
                    None
                }
            },
            _ => None,
        }
    }

    /// The first child atom with the identifier, to be changed in place.
    pub fn child_mut(&mut self, ident: Ident) -> (r: Option<&mut Atom>)
        ensures
            match first_index(old(self)@.children(), ident, 0) {
                Some(i) => r is Some && *r->0 == old(self).atoms_of()[i] && final(self).atoms_of()
                    == old(self).atoms_of().update(i, *final(r->0)),
                None => r is None && *final(self) == *old(self),
            },
    {
        match self {
            Content::Atoms(v) => {
                assert(old(self)@.children() == views(v@));
                match find_atom(v, ident) {
                    Some(i) => Some(&mut v[i]),
                    None => None,
                }
            },
            _ => None,
        }
    }

    /// Gives the content away for its first child atom with the identifier.
    pub fn take_child(self, ident: Ident) -> (r: Option<Atom>)
        ensures
            match first_index(self@.children(), ident, 0) {
                Some(i) => r is Some && r->0@ == self@.children()[i],
                None => r is None,
            },
    {
        match self {
            Content::Atoms(v) => {
                let mut v = v;
                assert(self@.children() == views(v@));
                match find_atom(&v, ident) {
                    Some(i) => {
                        assert(views(v@)[i as int] == v@[i as int]@);
                        Some(v.remove(i))
                    },
                    None => None,
                }
            },
            _ => None,
        }
    }

    /// Gives the content away for its first child atom.
    pub fn take_first_child(self) -> (r: Option<Atom>)
        ensures
            match r {
                Some(a) => self@.children().len() > 0 && a@ == self@.children()[0],
                None => self@.children().len() == 0,
            },
    {
        match self {
            Content::Atoms(v) => {
                let mut v = v;
                assert(self@.children() == views(v@));
                if v.len() > 0 {
                    assert(views(v@)[0] == v@[0]@);
                    Some(v.remove(0))
                } else {
                    None
                }
            },
            _ => None,
        }
    }

    /// Leaves the content empty and gives back the value that it held, with
    /// or without a type in front of it.
    pub fn take_data(&mut self) -> (r: Option<Data>)
        ensures
            *final(self) == Content::Empty,
            match *old(self) {
                Content::TypedData(d) => r == Some(d),
                Content::RawData(d) => r == Some(d),
                _ => r is None,
            },
    {
        let mut content = Content::Empty;
        core::mem::swap(self, &mut content);
        match content {
            Content::TypedData(d) => Some(d),
            Content::RawData(d) => Some(d),
            _ => None,
        }
    }
}

impl Default for ContentT {
    fn default() -> (r: ContentT)
        ensures
            r == ContentT::Empty,
    {
        ContentT::Empty
    }
}

impl ContentT {
    /// The children templates: those of a list, none of any other template.
    pub open spec fn atoms_of(&self) -> Seq<AtomT> {
        match self {
            ContentT::Atoms(v) => v@,
            _ => Seq::empty(),
        }
    }

    /// A template that is an empty list of atom templates.
    pub fn atoms_t() -> (r: ContentT)
        ensures
            r@ == ContentTView::Atoms(Seq::empty()),
    {
        let r = ContentT::Atoms(Vec::new());
        assert(r@->Atoms_0 =~= Seq::empty());
        r
    }

    /// A template that is a list of the one atom template.
    pub fn atom_t(atom: AtomT) -> (r: ContentT)
        ensures
            r@ == ContentTView::Atoms(seq![atom@]),
    {
        let mut v = Vec::new();
        v.push(atom);
        let r = ContentT::Atoms(v);
        assert(r@->Atoms_0 =~= seq![atom@]);
        r
    }

    /// A template that is a list of the one atom template with the given
    /// identifier, offset and content template.
    pub fn atom_t_with(ident: Ident, offset: usize, content: ContentT) -> (r: ContentT)
        ensures
            r@ == ContentTView::Atoms(seq![AtomTView { ident, offset, content: content@ }]),
    {
        ContentT::atom_t(AtomT::with(ident, offset, content))
    }

    /// A template that is a list of one template of a `data` atom.
    pub fn data_atom_t() -> (r: ContentT)
        ensures
            r@ == ContentTView::Atoms(
                seq![
                    AtomTView {
                        ident: Ident(crate::ident::DATA),
                        offset: 0,
                        content: ContentTView::TypedData,
                    },
                ],
            ),
    {
        ContentT::atom_t(AtomT::data_atom())
    }

    /// The template with one more atom template at the end of its list. A
    /// template that is no list stays as it is.
    pub fn add_atom_t_with(self, ident: Ident, offset: usize, content: ContentT) -> (r: ContentT)
        ensures
            r@ == (match self@ {
                ContentTView::Atoms(s) => ContentTView::Atoms(
                    s.push(AtomTView { ident, offset, content: content@ }),
                ),
                other => other,
            }),
    {
        match self {
            ContentT::Atoms(v) => {
                let mut v = v;
                let a = AtomT::with(ident, offset, content);
                proof {
                    lemma_views_t_push(v@, a);
                }
                v.push(a);
                ContentT::Atoms(v)
            },
            other => other,
        }
    }

    /// The children templates: those of a list, none of any other template.
    pub fn iter(&self) -> (r: &[AtomT])
        ensures
            views_t(r@) == self@.children(),
    {
        match self {
            ContentT::Atoms(v) => v.as_slice(),
            _ => {
                let r: &[AtomT] = &[];
                assert(views_t(r@) =~= self@.children());
                r
            },
        }
    }

    /// The children templates, to be changed in place: those of a list, none
    /// of any other template.
    pub fn iter_mut(&mut self) -> (r: &mut [AtomT])
        ensures
            r@ == old(self).atoms_of(),
            *old(self) is Atoms ==> final(self).atoms_of() == final(r)@,
            !(*old(self) is Atoms) ==> *final(self) == *old(self),
    {
        match self {
            ContentT::Atoms(v) => v.as_mut_slice(),
            _ => &mut [],
        }
    }

    /// The first child template with the identifier.
    pub fn child(&self, ident: Ident) -> (r: Option<&AtomT>)
        ensures
            match first_index_t(self@.children(), ident, 0) {
                Some(i) => r is Some && r->0@ == self@.children()[i],
                None => r is None,
            },
    {
        match self {
            ContentT::Atoms(v) => {
                assert(self@.children() == views_t(v@));
                match find_atom_t(v, ident) {
                    Some(i) => {
                        assert(views_t(v@)[i as int] == v@[i as int]@);
                        Some(&v[i])
                    },
                    None => None,
                }
            },
            _ => None,
        }
    }

    /// The first child template.
    pub fn first_child(&self) -> (r: Option<&AtomT>)
        ensures
            match r {
                Some(a) => self@.children().len() > 0 && a@ == self@.children()[0],
                None => self@.children().len() == 0,
            },
    {
        match self {
            ContentT::Atoms(v) => if v.len() > 0 {
                assert(self@.children() == views_t(v@));
                assert(views_t(v@)[0] == v@[0]@);
                Some(&v[0])
            } else {
                None
            },
            _ => None,
        }
    }

    /// The first child template, to be changed in place.
    pub fn first_child_mut(&mut self) -> (r: Option<&mut AtomT>)
        ensures
            match r {
                Some(a) => old(self).atoms_of().len() > 0 && *a == old(self).atoms_of()[0]
                    && final(self).atoms_of() == old(self).atoms_of().update(0, *final(a)),
                None => old(self)@.children().len() == 0 && *final(self) == *old(self),
            },
    {
        match self {
            ContentT::Atoms(v) => {
                if v.len() > 0 {
                    Some(&mut v[0])
                } else {
                    None
                }
            },
            _ => None,
        }
    }

    /// The first child template with the identifier, to be changed in place.
    pub fn child_mut(&mut self, ident: Ident) -> (r: Option<&mut AtomT>)
        ensures
            match first_index_t(old(self)@.children(), ident, 0) {
                Some(i) => r is Some && *r->0 == old(self).atoms_of()[i] && final(self).atoms_of()
                    == old(self).atoms_of().update(i, *final(r->0)),
                None => r is None && *final(self) == *old(self),
            },
    {
        match self {
            ContentT::Atoms(v) => {
                assert(old(self)@.children() == views_t(v@));
                match find_atom_t(v, ident) {
                    Some(i) => Some(&mut v[i]),
                    None => None,
                }
            },
            _ => None,
        }
    }

    /// Reads a content of `length` bytes as the template says.
    pub fn parse(&self, reader: &mut Reader, length: u64) -> (r: Result<Content, Error>)
        requires
            old(reader).wf(),
        ensures
            match r {
                Ok(c) => content_parsed(self@, old(reader).data@, old(reader).pos as int, length as int)
                    == Ok::<ContentView, ErrorView>(c@) && final(reader).moved(
                    old(reader),
                    if self@ is Empty {
                        0
                    } else {
                        length as int
                    },
                ),
                Err(e) => content_parsed(
                    self@,
                    old(reader).data@,
                    old(reader).pos as int,
                    length as int,
                ) == Err::<ContentView, ErrorView>(e@) && final(reader).same_stream(old(reader)),
            },
        decreases self,
    {
        match self {
            ContentT::Atoms(v) => {
                assert(self->Atoms_0 == *v);
                Ok(Content::Atoms(AtomT::parse_atoms(v, reader, length)?))
            },
            ContentT::RawData(d) => Ok(Content::RawData(d.parse(reader, length)?)),
            ContentT::TypedData => {
                if length < 8 {
                    return Err(Error::new(ErrorKind::Parsing, "Typed data head to short"));
                }
                let code = match reader.read_be_u32() {
                    Ok(c) => c,
                    Err(_) => {
                        return Err(
                            Error::new(
                                ErrorKind::Io(IoErrorKind::UnexpectedEof),
                                "Error reading typed data head",
                            ),
                        );
                    },
                };
                reader.skip(4)?;
                Ok(Content::TypedData(DataT::new(code).parse(reader, length - 8)?))
            },
            ContentT::Empty => Ok(Content::Empty),
        }
    }

    /// Gives the template away for its first child template with the
    /// identifier.
    pub fn take_child(self, ident: Ident) -> (r: Option<AtomT>)
        ensures
            match first_index_t(self@.children(), ident, 0) {
                Some(i) => r is Some && r->0@ == self@.children()[i],
                None => r is None,
            },
    {
        match self {
            ContentT::Atoms(v) => {
                let mut v = v;
                assert(self@.children() == views_t(v@));
                match find_atom_t(&v, ident) {
                    Some(i) => {
                        assert(views_t(v@)[i as int] == v@[i as int]@);
                        Some(v.remove(i))
                    },
                    None => None,
                }
            },
            _ => None,
        }
    }

    /// Gives the template away for its first child template.
    pub fn take_first_child(self) -> (r: Option<AtomT>)
        ensures
            match r {
                Some(a) => self@.children().len() > 0 && a@ == self@.children()[0],
                None => self@.children().len() == 0,
            },
    {
        match self {
            ContentT::Atoms(v) => {
                let mut v = v;
                assert(self@.children() == views_t(v@));
                if v.len() > 0 {
                    assert(views_t(v@)[0] == v@[0]@);
                    Some(v.remove(0))
                } else {
                    None
                }
            },
            _ => None,
        }
    }
}

} // verus!
