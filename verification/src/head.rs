//! The head of an atom: its length and identifier, and where it lies.

use crate::codec::{put_be_u32, put_be_u64, put_u8, u32_be, u64_be};
use crate::codec::{lemma_be_u32_of_bytes, lemma_be_u64_of_bytes};
use crate::error::{eof, error, Error, ErrorKind, ErrorKindView, ErrorView, IoErrorKind};
use crate::ident::Ident;
use crate::reader::{at32, at64, Reader};
use vstd::prelude::*;

verus! {

/// The length of an atom, and whether its head holds the length in the
/// extended 64 bit form.
#[derive(Clone, Copy, Debug, PartialEq, Eq, Structural)]
pub struct Size {
    /// Whether the head has the extended form of 16 bytes.
    pub ext: bool,
    /// The length of the atom, head included.
    pub len: u64,
}

impl Size {
    /// The length covers the head.
    pub open spec fn wf(self) -> bool {
        self.len >= self.spec_head_len()
    }

    /// The length of the head: 8 bytes, or 16 in the extended form.
    pub open spec fn spec_head_len(self) -> u64 {
        if self.ext {
            16
        } else {
            8
        }
    }

    /// The length of the content: what follows the head.
    pub open spec fn spec_content_len(self) -> int {
        self.len - self.spec_head_len()
    }

    /// The size of an atom with a content of `content_len` bytes: the head
    /// is extended where the length does not fit 32 bits.
    pub open spec fn of(content_len: int) -> Size {
        if content_len + 8 <= u32::MAX {
            Size { ext: false, len: (content_len + 8) as u64 }
        } else {
            Size { ext: true, len: (content_len + 16) as u64 }
        }
    }

    /// The size of an atom with a content of `content_len` bytes.
    pub fn from(content_len: u64) -> (r: Size)
        requires
            content_len + 16 <= u64::MAX,
        ensures
            r == Size::of(content_len as int),
            r.wf(),
            r.spec_content_len() == content_len,
    {
        if content_len <= 0xffff_fff7 {
            Size { ext: false, len: content_len + 8 }
        } else {
            Size { ext: true, len: content_len + 16 }
        }
    }

    /// Whether the head has the extended form.
    pub fn ext(self) -> (r: bool)
        ensures
            r == self.ext,
    {
        self.ext
    }

    /// The length of the atom, head included.
    pub fn len(self) -> (r: u64)
        ensures
            r == self.len,
    {
        self.len
    }

    /// The length of the head.
    #[verifier::when_used_as_spec(spec_head_len)]
    pub fn head_len(self) -> (r: u64)
        ensures
            r == self.spec_head_len(),
    {
        if self.ext {
            16
        } else {
            8
        }
    }

    /// The length of the content.
    pub fn content_len(self) -> (r: u64)
        requires
            self.wf(),
        ensures
            r == self.spec_content_len(),
    {
        self.len - self.head_len()
    }
}

/// The head of an atom as it stands in the file.
#[derive(Clone, Copy, Debug, PartialEq, Eq, Structural)]
pub struct Head {
    /// The 32 bit length field: the length of the atom, 1 where the extended
    /// length follows the identifier, 0 where the atom reaches to the end of
    /// the stream.
    pub size: u32,
    /// The identifier.
    pub fourcc: Ident,
    /// The length of the atom where the length field is 1 or 0.
    pub ext_size: Option<u64>,
}

impl Head {
    /// The three fields fit together, and the length covers the head.
    pub open spec fn wf(self) -> bool {
        if self.size == 1 {
            self.ext_size is Some && self.ext_size->0 >= 16
        } else if self.size == 0 {
            self.ext_size is Some && self.ext_size->0 >= 8
        } else {
            self.ext_size is None && self.size >= 8
        }
    }

    /// The size of the atom.
    pub open spec fn spec_size(self) -> Size {
        Size {
            ext: self.size == 1,
            len: if self.size == 1 || self.size == 0 {
                self.ext_size->0
            } else {
                self.size as u64
            },
        }
    }

    /// The bytes of the head in the file.
    pub open spec fn bytes(self) -> Seq<u8> {
        if self.size == 1 {
            u32_be(1) + self.fourcc.bytes() + u64_be(self.ext_size->0)
        } else {
            u32_be(self.size) + self.fourcc.bytes()
        }
    }

    /// The head of an atom of the given size: extended where the size is.
    pub open spec fn of(size: Size, fourcc: Ident) -> Head {
        if size.ext {
            Head { size: 1, fourcc, ext_size: Some(size.len) }
        } else {
            Head { size: size.len as u32, fourcc, ext_size: None }
        }
    }

    /// The head of an atom of the given size. A size without the extended
    /// form must fit the 32 bit field and be neither 0 nor 1, which that
    /// field keeps for other uses.
    pub fn from(size: Size, fourcc: Ident) -> (r: Head)
        requires
            size.wf(),
            !size.ext ==> size.len <= u32::MAX,
        ensures
            r == Head::of(size, fourcc),
            r.wf(),
            r.spec_size() == size,
    {
        if size.ext {
            Head { size: 1, fourcc, ext_size: Some(size.len) }
        } else {
            Head { size: size.len as u32, fourcc, ext_size: None }
        }
    }

    /// The identifier.
    pub fn fourcc(self) -> (r: Ident)
        ensures
            r == self.fourcc,
    {
        self.fourcc
    }

    /// The size of the atom.
    #[verifier::when_used_as_spec(spec_size)]
    pub fn size(self) -> (r: Size)
        requires
            self.wf(),
        ensures
            r == self.spec_size(),
            r.wf(),
    {
        match self.ext_size {
            Some(len) => Size { ext: self.size == 1, len },
            None => Size { ext: false, len: self.size as u64 },
        }
    }

    /// The length of the atom, head included.
    pub fn len(self) -> (r: u64)
        requires
            self.wf(),
        ensures
            r == self.spec_size().len,
    {
        self.size().len
    }

    /// The length of the head.
    pub fn head_len(self) -> (r: u64)
        requires
            self.wf(),
        ensures
            r == self.spec_size().spec_head_len(),
    {
        self.size().head_len()
    }

    /// The length of the content.
    pub fn content_len(self) -> (r: u64)
        requires
            self.wf(),
        ensures
            r == self.spec_size().spec_content_len(),
    {
        self.size().content_len()
    }
}

/// `n` as far as 64 bits can count: beyond that, the highest number of 64
/// bits.
pub open spec fn clip(n: int) -> u64 {
    if n > u64::MAX {
        u64::MAX
    } else {
        n as u64
    }
}

/// The head that stands at position `p` of the stream `s`, or the error that
/// reading it gives.
pub open spec fn head_at(s: Seq<u8>, p: int) -> Result<Head, ErrorView> {
    if s.len() - p < 4 {
        Err(error(ErrorKindView::Io(IoErrorKind::UnexpectedEof), "Error reading atom length"))
    } else if s.len() - p < 8 {
        Err(error(ErrorKindView::Io(IoErrorKind::UnexpectedEof), "Error reading atom identifier"))
    } else {
        let size = at32(s, p);
        let fourcc = Ident(at32(s, p + 4));
        if size == 1 {
            if s.len() - p < 16 {
                Err(
                    error(
                        ErrorKindView::Io(IoErrorKind::UnexpectedEof),
                        "Error reading extended atom length",
                    ),
                )
            } else if at64(s, p + 8) < 16 {
                Err(
                    error(
                        ErrorKindView::Parsing,
                        "Read extended atom length of less than 16 bytes",
                    ),
                )
            } else {
                Ok(Head { size, fourcc, ext_size: Some(at64(s, p + 8)) })
            }
        } else if size == 0 {
            Ok(Head { size, fourcc, ext_size: Some(clip(s.len() - p)) })
        } else if size < 8 {
            Err(error(ErrorKindView::Parsing, "Read atom length of less than 8 bytes"))
        } else {
            Ok(Head { size, fourcc, ext_size: None })
        }
    }
}

/// Reads the head of an atom: the length and the identifier, and the
/// extended length where the length field is 1. Where the length field is 0
/// the atom reaches to the end of the stream.
pub fn parse_head(reader: &mut Reader) -> (r: Result<Head, Error>)
    requires
        old(reader).wf(),
    ensures
        match r {
            Ok(h) => head_at(old(reader).data@, old(reader).pos as int) == Ok::<Head, ErrorView>(h)
                && h.wf() && final(reader).moved(old(reader), h.spec_size().spec_head_len() as int),
            Err(e) => head_at(old(reader).data@, old(reader).pos as int) == Err::<Head, ErrorView>(
                e@,
            ) && final(reader).same_stream(old(reader)),
        },
{
    let left = reader.remaining();
    let size = match reader.read_be_u32() {
        Ok(n) => n,
        Err(_) => {
            return Err(
                Error::new(ErrorKind::Io(IoErrorKind::UnexpectedEof), "Error reading atom length"),
            );
        },
    };
    let fourcc = match reader.read_be_u32() {
        Ok(n) => Ident(n),
        Err(_) => {
            return Err(
                Error::new(
                    ErrorKind::Io(IoErrorKind::UnexpectedEof),
                    "Error reading atom identifier",
                ),
            );
        },
    };
    if size == 1 {
        let ext = match reader.read_be_u64() {
            Ok(n) => n,
            Err(_) => {
                return Err(
                    Error::new(
                        ErrorKind::Io(IoErrorKind::UnexpectedEof),
                        "Error reading extended atom length",
                    ),
                );
            },
        };
        if ext < 16 {
            return Err(
                Error::new(ErrorKind::Parsing, "Read extended atom length of less than 16 bytes"),
            );
        }
        Ok(Head { size, fourcc, ext_size: Some(ext) })
    } else if size == 0 {
        Ok(Head { size, fourcc, ext_size: Some(left) })
    } else if size < 8 {
        Err(Error::new(ErrorKind::Parsing, "Read atom length of less than 8 bytes"))
    } else {
        Ok(Head { size, fourcc, ext_size: None })
    }
}

/// Writes the head of an atom.
pub fn write_head(out: &mut Vec<u8>, head: Head)
    requires
        head.wf(),
    ensures
        final(out)@ == old(out)@ + head.bytes(),
{
    put_be_u32(out, head.size);
    put_be_u32(out, head.fourcc.0);
    match head.ext_size {
        Some(len) => {
            if head.size == 1 {
                put_be_u64(out, len);
            }
        },
        None => {},
    }
    assert(out@ =~= old(out)@ + head.bytes());
}

/// Reading the head back from where it was written gives the head: for every
/// well-formed head, the extended form included. A head whose length field is
/// 0 says that the atom reaches to the end of the stream, so it is read back
/// as it was where its length is what is left of the stream.
pub proof fn lemma_head_round_trip(h: Head, s: Seq<u8>, p: int)
    requires
        h.wf(),
        0 <= p,
        p + h.bytes().len() <= s.len(),
        s.subrange(p, p + h.bytes().len()) == h.bytes(),
        h.size == 0 ==> h.ext_size == Some(clip(s.len() - p)),
    ensures
        head_at(s, p) == Ok::<Head, ErrorView>(h),
{
    let b = h.bytes();
    lemma_be_u32_of_bytes(h.size);
    lemma_be_u32_of_bytes(h.fourcc.0);
    assert(s.subrange(p, p + 4) =~= b.subrange(0, 4));
    assert(s.subrange(p + 4, p + 8) =~= b.subrange(4, 8));
    assert(b.subrange(0, 4) =~= u32_be(h.size));
    assert(b.subrange(4, 8) =~= u32_be(h.fourcc.0));
    if h.size == 1 {
        lemma_be_u64_of_bytes(h.ext_size->0);
        assert(s.subrange(p + 8, p + 16) =~= b.subrange(8, 16));
        assert(b.subrange(8, 16) =~= u64_be(h.ext_size->0));
    }
}

/// The version and the flags that open the content of a full atom at position
/// `p` of `s`.
pub open spec fn full_head_at(s: Seq<u8>, p: int) -> Result<(u8, Seq<u8>), ErrorView> {
    if s.len() - p < 4 {
        Err(eof())
    } else {
        Ok((s[p], s.subrange(p + 1, p + 4)))
    }
}

/// The bytes of the version and the flags of a full atom.
pub open spec fn full_head_bytes(version: u8, flags: Seq<u8>) -> Seq<u8> {
    seq![version] + flags
}

/// Reads the version and the three bytes of flags that open the content of a
/// full atom.
pub fn parse_full_head(reader: &mut Reader) -> (r: Result<(u8, [u8; 3]), Error>)
    requires
        old(reader).wf(),
    ensures
        match r {
            Ok(f) => full_head_at(old(reader).data@, old(reader).pos as int) == Ok::<
                (u8, Seq<u8>),
                ErrorView,
            >((f.0, f.1@)) && final(reader).moved(old(reader), 4),
            Err(e) => full_head_at(old(reader).data@, old(reader).pos as int) == Err::<
                (u8, Seq<u8>),
                ErrorView,
            >(e@) && final(reader).same_stream(old(reader)),
        },
{
    if reader.remaining() < 4 {
        return Err(Error::eof());
    }
    let version = reader.read_u8()?;
    let a = reader.read_u8()?;
    let b = reader.read_u8()?;
    let c = reader.read_u8()?;
    let flags = [a, b, c];
    assert(flags@ =~= old(reader).data@.subrange(old(reader).pos + 1, old(reader).pos + 4));
    Ok((version, flags))
}

/// Writes the version and the three bytes of flags that open the content of a
/// full atom.
pub fn write_full_head(out: &mut Vec<u8>, version: u8, flags: [u8; 3])
    ensures
        final(out)@ == old(out)@ + full_head_bytes(version, flags@),
{
    put_u8(out, version);
    put_u8(out, flags[0]);
    put_u8(out, flags[1]);
    put_u8(out, flags[2]);
    assert(out@ =~= old(out)@ + full_head_bytes(version, flags@));
}

/// Where an atom lies in the file.
#[derive(Clone, Copy, Debug, PartialEq, Eq, Structural)]
pub struct AtomBounds {
    /// The position of the first byte of the head.
    pub pos: u64,
    /// The size of the atom.
    pub size: Size,
    /// The identifier of the atom.
    pub fourcc: Ident,
}

impl AtomBounds {
    /// The size is well-formed and the end of the atom can be held in 64
    /// bits.
    pub open spec fn wf(self) -> bool {
        &&& self.size.wf()
        &&& self.pos + self.size.len <= u64::MAX
    }

    /// The position after the last byte of the atom.
    pub open spec fn spec_end(self) -> int {
        self.pos + self.size.len
    }

    /// The position of the first byte of the content.
    pub open spec fn spec_content_pos(self) -> int {
        self.pos + self.size.spec_head_len()
    }

    /// The bounds are those of an atom of the file `f`: the atom lies inside
    /// the file, and its head holds the length in the form that the size
    /// says.
    pub open spec fn anchored(self, f: Seq<u8>) -> bool {
        &&& self.wf()
        &&& self.spec_end() <= f.len()
        &&& self.headed(f)
    }

    /// The head of the atom in the file `f` holds the length of the atom, in
    /// the form that the size says.
    #[verifier::opaque]
    pub open spec fn headed(self, f: Seq<u8>) -> bool {
        if self.size.ext {
            at32(f, self.pos as int) == 1 && at64(f, self.pos + 8) == self.size.len
        } else {
            at32(f, self.pos as int) == self.size.len
        }
    }

    /// Whether the two atoms share no byte.
    pub open spec fn apart(self, other: AtomBounds) -> bool {
        self.spec_end() <= other.pos || other.spec_end() <= self.pos
    }

    /// Whether `other` lies inside the content of `self`.
    pub open spec fn holds(self, other: AtomBounds) -> bool {
        self.spec_content_pos() <= other.pos && other.spec_end() <= self.spec_end()
    }

    /// The position of the first byte of the head.
    pub fn pos(&self) -> (r: u64)
        ensures
            r == self.pos,
    {
        self.pos
    }

    /// The length of the atom, head included.
    pub fn len(&self) -> (r: u64)
        ensures
            r == self.size.len,
    {
        self.size.len
    }

    /// The size of the atom.
    pub fn size(&self) -> (r: Size)
        ensures
            r == self.size,
    {
        self.size
    }

    /// The position after the last byte of the atom.
    pub fn end(&self) -> (r: u64)
        requires
            self.wf(),
        ensures
            r == self.spec_end(),
    {
        self.pos + self.size.len
    }

    /// The position of the first byte of the content.
    pub fn content_pos(&self) -> (r: u64)
        requires
            self.wf(),
        ensures
            r == self.spec_content_pos(),
    {
        self.pos + self.size.head_len()
    }

    /// The position after the last byte of the content, which is the end of
    /// the atom.
    pub fn content_end(&self) -> (r: u64)
        requires
            self.wf(),
        ensures
            r == self.spec_end(),
    {
        self.end()
    }

    /// Whether the head has the extended form of 16 bytes.
    pub fn ext(&self) -> (r: bool)
        ensures
            r == self.size.ext,
    {
        self.size.ext
    }
}

/// The bounds of the atom of the given size and identifier whose content
/// starts at the position `content_pos` of the file.
pub open spec fn bounds_at(content_pos: int, size: Size, fourcc: Ident) -> AtomBounds {
    AtomBounds { pos: (content_pos - size.spec_head_len()) as u64, size, fourcc }
}

/// The bounds of the atom whose content the cursor holds: the cursor is over
/// the content alone, and the head lies before it in the file.
pub fn find_bounds(content: &Reader, size: Size, fourcc: Ident) -> (r: AtomBounds)
    requires
        content.wf(),
        size.wf(),
        content.base >= size.spec_head_len(),
        content.data@.len() == size.spec_content_len(),
    ensures
        r == bounds_at(content.base as int, size, fourcc),
        r.wf(),
{
    AtomBounds { pos: content.base - size.head_len(), size, fourcc }
}

} // verus!
