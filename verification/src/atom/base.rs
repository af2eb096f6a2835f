//! What the typed atoms share: what is read of a file, how the children of
//! an atom are walked, and how an atom is written around its content.

use crate::error::{annotate, eof, error, Error, ErrorKind, ErrorKindView, ErrorView};
use crate::head::{bounds_at, find_bounds, head_at, parse_head, write_head, AtomBounds, Head, Size};
use crate::ident::Ident;
use crate::reader::Reader;
use vstd::prelude::*;

verus! {

/// What is to be read of a file. What serves none of the three is passed
/// over.
#[derive(Clone, Copy, Debug, PartialEq, Eq, Structural)]
pub struct ReadConfig {
    /// Whether the duration and the audio format are read.
    pub read_audio_info: bool,
    /// Whether the track headers and track references are read, which
    /// chapters hang on.
    pub read_chapters: bool,
    /// Whether the metadata items are read.
    pub read_tag: bool,
}

impl ReadConfig {
    /// The configuration under which everything is read.
    pub open spec fn spec_all() -> ReadConfig {
        ReadConfig { read_audio_info: true, read_chapters: true, read_tag: true }
    }

    /// The configuration under which everything is read.
    #[verifier::when_used_as_spec(spec_all)]
    pub fn all() -> (r: ReadConfig)
        ensures
            r == ReadConfig::spec_all(),
    {
        ReadConfig { read_audio_info: true, read_chapters: true, read_tag: true }
    }
}

/// The result with the values that it holds taken as mathematical values.
pub open spec fn view_of<T: View>(r: Result<T, Error>) -> Result<T::V, ErrorView> {
    match r {
        Ok(v) => Ok(v@),
        Err(e) => Err(e@),
    }
}

/// The result with its error, if it is one, taken as a mathematical value.
pub open spec fn plain_of<T>(r: Result<T, Error>) -> Result<T, ErrorView> {
    match r {
        Ok(v) => Ok(v),
        Err(e) => Err(e@),
    }
}

/// How a reader stands after something was read from it: where `want` is a
/// value, `n` bytes further; where it is an error, over the same stream.
pub open spec fn read<V>(
    want: Result<V, ErrorView>,
    got: Result<V, ErrorView>,
    before: &Reader,
    after: &Reader,
    n: int,
) -> bool {
    &&& got == want
    &&& match want {
        Ok(_) => after.moved(before, n),
        Err(_) => after.same_stream(before),
    }
}

/// The content of the atom of size `size` whose content starts at position
/// `p` of the stream `s`, where the stream holds all of it.
pub open spec fn content_of(s: Seq<u8>, p: int, size: Size) -> Option<Seq<u8>> {
    if s.len() - p < size.spec_content_len() {
        None
    } else {
        Some(s.subrange(p, p + size.spec_content_len()))
    }
}

/// The head of the child atom that stands at position `p` of the content `c`
/// of an atom. A child that declares to reach to the end of the stream, or
/// beyond the content, is an error.
pub open spec fn child_at(c: Seq<u8>, p: int) -> Result<Head, ErrorView> {
    match head_at(c, p) {
        Err(e) => Err(e),
        Ok(h) => if h.size == 0 {
            Err(error(ErrorKindView::Parsing, "Atom of open length inside another"))
        } else if h.spec_size().len > c.len() - p {
            Err(error(ErrorKindView::Parsing, "Atom reaches beyond the atom around it"))
        } else {
            Ok(h)
        },
    }
}

/// Reads the head of the next child atom from the content of an atom.
pub fn next_child(content: &mut Reader) -> (r: Result<Head, Error>)
    requires
        old(content).wf(),
    ensures
        match r {
            Ok(h) => child_at(old(content).data@, old(content).pos as int) == Ok::<
                Head,
                ErrorView,
            >(h) && h.wf() && final(content).moved(
                old(content),
                h.spec_size().spec_head_len() as int,
            ) && h.spec_size().spec_content_len() <= final(content).left(),
            Err(e) => child_at(old(content).data@, old(content).pos as int) == Err::<
                Head,
                ErrorView,
            >(e@) && final(content).same_stream(old(content)),
        },
{
    let left = content.remaining();
    let head = parse_head(content)?;
    if head.size == 0 {
        return Err(Error::new(ErrorKind::Parsing, "Atom of open length inside another"));
    }
    if head.len() > left {
        return Err(Error::new(ErrorKind::Parsing, "Atom reaches beyond the atom around it"));
    }
    Ok(head)
}

/// Where the atom of the given size and identifier lies whose content starts
/// at position `p` of the stream `s`, which starts at position `base` of the
/// file. The stream must hold all of the content.
#[verifier::opaque]
pub open spec fn found_at(s: Seq<u8>, p: int, base: int, size: Size, fourcc: Ident) -> Result<
    AtomBounds,
    ErrorView,
> {
    annotate(
        "parsing",
        fourcc,
        match content_of(s, p, size) {
            None => Err(eof()),
            Some(_) => Ok(bounds_at(base + p, size, fourcc)),
        },
    )
}

/// Finds where an atom lies of which nothing else is to be known: the cursor
/// stands behind its head, which declared the size `size`, and moves past
/// its content.
pub fn find_leaf(reader: &mut Reader, size: Size, fourcc: Ident) -> (r: Result<AtomBounds, Error>)
    requires
        old(reader).wf(),
        size.wf(),
        old(reader).abs() >= size.spec_head_len(),
    ensures
        read(
            found_at(
                old(reader).data@,
                old(reader).pos as int,
                old(reader).base as int,
                size,
                fourcc,
            ),
            plain_of(r),
            old(reader),
            final(reader),
            size.spec_content_len(),
        ),
        r is Ok ==> r->Ok_0.wf(),
{
    proof {
        reveal(found_at);
    }
    match reader.take(size.content_len()) {
        Ok(content) => Ok(find_bounds(&content, size, fourcc)),
        Err(e) => Err(e.annotate("parsing", fourcc)),
    }
}

/// The lengths of contents that an atom can be written around: the length of
/// the atom must be a number of 64 bits.
pub open spec fn fits(content_len: int) -> bool {
    content_len + 16 <= u64::MAX
}

/// The bytes of an atom with the given identifier and content: the head,
/// extended where the length asks for it, and the content.
pub open spec fn boxed(fourcc: Ident, content: Seq<u8>) -> Seq<u8> {
    Head::of(Size::of(content.len() as int), fourcc).bytes() + content
}

/// Writes an atom with the given identifier and content.
pub fn write_boxed(out: &mut Vec<u8>, fourcc: Ident, content: &Vec<u8>)
    requires
        fits(content@.len() as int),
    ensures
        final(out)@ == old(out)@ + boxed(fourcc, content@),
{
    let size = Size::from(content.len() as u64);
    write_head(out, Head::from(size, fourcc));
    out.extend_from_slice(content.as_slice());
    assert(out@ =~= old(out)@ + boxed(fourcc, content@));
}

/// The length of an atom is that of its head and its content.
pub proof fn lemma_boxed_len(fourcc: Ident, content: Seq<u8>)
    requires
        fits(content.len() as int),
    ensures
        boxed(fourcc, content).len() == Size::of(content.len() as int).len,
        boxed(fourcc, content).len() >= content.len() + 8,
        boxed(fourcc, content).len() <= content.len() + 16,
{
}

/// The child atom whose head stands at position `p` of the content `c`,
/// which is the part of the file `f` from position `base` on, is an atom of
/// the file: it lies inside the content, and its head holds its length.
pub proof fn lemma_child_anchored(f: Seq<u8>, c: Seq<u8>, base: int, p: int)
    requires
        0 <= base,
        0 <= p,
        base + c.len() <= f.len(),
        f.len() <= u64::MAX,
        c == f.subrange(base, base + c.len()),
        child_at(c, p) is Ok,
    ensures
        ({
            let h = child_at(c, p)->Ok_0;
            let b = bounds_at(base + p + h.spec_size().spec_head_len(), h.spec_size(), h.fourcc);
            &&& b.anchored(f)
            &&& b.pos == base + p
            &&& b.spec_end() == base + p + h.spec_size().len
            &&& b.spec_end() <= base + c.len()
            &&& h.spec_size().wf()
            &&& h.spec_size().len >= 8
        }),
{
    reveal(AtomBounds::headed);
    let h = child_at(c, p)->Ok_0;
    assert(c.subrange(p, p + 4) =~= f.subrange(base + p, base + p + 4));
    if h.size == 1 {
        assert(c.subrange(p + 8, p + 16) =~= f.subrange(base + p + 8, base + p + 16));
    }
}

/// At position `p` of the content `c` stands the head of an atom with the
/// identifier `fourcc` and the length `len`.
pub open spec fn stands_at(c: Seq<u8>, p: int, fourcc: Ident, len: int) -> bool {
    &&& child_at(c, p) is Ok
    &&& child_at(c, p)->Ok_0.fourcc == fourcc
    &&& child_at(c, p)->Ok_0.spec_size().len == len
}

/// The size that the head of the child atom at position `p` of the content
/// `c` declares.
pub open spec fn size_at(c: Seq<u8>, p: int) -> Size {
    child_at(c, p)->Ok_0.spec_size()
}

/// The position in the content `c` at which the content of the child atom
/// starts whose head stands at position `p`.
pub open spec fn content_at(c: Seq<u8>, p: int) -> int {
    p + child_at(c, p)->Ok_0.spec_size().spec_head_len()
}

/// Where the bytes of an atom stand at position `p` of the content `c` of
/// another, the head that is read there is that of the atom, and the content
/// behind it is that of the atom.
pub proof fn lemma_boxed_child(c: Seq<u8>, p: int, fourcc: Ident, content: Seq<u8>)
    requires
        0 <= p,
        fits(content.len() as int),
        p + boxed(fourcc, content).len() <= c.len(),
        c.subrange(p, p + boxed(fourcc, content).len()) == boxed(fourcc, content),
    ensures
        child_at(c, p) == Ok::<Head, ErrorView>(Head::of(Size::of(content.len() as int), fourcc)),
        child_at(c, p)->Ok_0.spec_size() == Size::of(content.len() as int),
        child_at(c, p)->Ok_0.fourcc == fourcc,
        content_of(
            c,
            p + Size::of(content.len() as int).spec_head_len(),
            Size::of(content.len() as int),
        ) == Some(content),
        Size::of(content.len() as int).len == boxed(fourcc, content).len(),
{
    let size = Size::of(content.len() as int);
    let h = Head::of(size, fourcc);
    let b = boxed(fourcc, content);
    assert(c.subrange(p, p + h.bytes().len()) =~= b.subrange(0, h.bytes().len() as int));
    assert(b.subrange(0, h.bytes().len() as int) =~= h.bytes());
    crate::head::lemma_head_round_trip(h, c, p);
    let hl = size.spec_head_len() as int;
    assert(c.subrange(p + hl, p + hl + content.len()) =~= b.subrange(hl, b.len() as int));
    assert(b.subrange(hl, b.len() as int) =~= content);
}

/// An atom is at least 8 bytes longer than its content, and at most 16.
pub proof fn lemma_boxed_bounds(fourcc: Ident, content: Seq<u8>)
    ensures
        content.len() + 8 <= boxed(fourcc, content).len() <= content.len() + 16,
{
    let h = Head::of(Size::of(content.len() as int), fourcc);
    assert(h.bytes().len() == 8 || h.bytes().len() == 16);
}

} // verus!
