//! The values that metadata atoms hold, and how they stand in the file.

use crate::codec::{put_be_u16, put_be_u32, put_bytes, u16_be, u32_be};
use crate::error::{eof, error, Error, ErrorKind, ErrorKindView, ErrorView};
use crate::reader::{at16, Reader};
use vstd::prelude::*;
use vstd::string::*;
use vstd::utf8::{decode_utf8, encode_utf8, valid_utf8};

verus! {

/// Type code of data without a declared type.
pub const RESERVED: u32 = 0;
/// Type code of UTF-8 text.
pub const UTF8: u32 = 1;
/// Type code of big-endian UTF-16 text.
pub const UTF16: u32 = 2;
/// Type code of a JPEG image.
pub const JPEG: u32 = 13;
/// Type code of a PNG image.
pub const PNG: u32 = 14;
/// Type code of a big-endian signed integer.
pub const BE_SIGNED: u32 = 21;
/// Type code of a BMP image.
pub const BMP: u32 = 27;

/// A value of a metadata atom, with the type that the file declares for it.
#[derive(Clone, Debug, PartialEq, Eq, Hash)]
pub enum Data {
    /// Bytes without a declared type.
    Reserved(Vec<u8>),
    /// Text that stands in the file as UTF-8.
    Utf8(String),
    /// Text that stands in the file as big-endian UTF-16.
    Utf16(String),
    /// A JPEG image.
    Jpeg(Vec<u8>),
    /// A PNG image.
    Png(Vec<u8>),
    /// A big-endian signed integer.
    BeSigned(Vec<u8>),
    /// A BMP image.
    Bmp(Vec<u8>),
}

/// The mathematical value of a [`Data`].
pub enum DataView {
    Reserved(Seq<u8>),
    Utf8(Seq<char>),
    Utf16(Seq<char>),
    Jpeg(Seq<u8>),
    Png(Seq<u8>),
    BeSigned(Seq<u8>),
    Bmp(Seq<u8>),
}

impl View for Data {
    type V = DataView;

    open spec fn view(&self) -> DataView {
        match self {
            Data::Reserved(v) => DataView::Reserved(v@),
            Data::Utf8(s) => DataView::Utf8(s@),
            Data::Utf16(s) => DataView::Utf16(s@),
            Data::Jpeg(v) => DataView::Jpeg(v@),
            Data::Png(v) => DataView::Png(v@),
            Data::BeSigned(v) => DataView::BeSigned(v@),
            Data::Bmp(v) => DataView::Bmp(v@),
        }
    }
}

/// The UTF-16 code units of a text: what `str::encode_utf16` of std yields.
pub uninterp spec fn utf16_units(text: Seq<char>) -> Seq<u16>;

/// The text that a run of UTF-16 code units stands for, if it is valid
/// UTF-16: what `String::from_utf16` of std returns.
pub uninterp spec fn utf16_text(units: Seq<u16>) -> Option<Seq<char>>;

/// `str::encode_utf16` of std, collected: the UTF-16 code units of the text.
/// Decoding them gives the text back, and as a vector of 16 bit units in
/// memory their bytes can be counted in a `usize`.
#[verifier::external_body]
pub(crate) fn encode_utf16(s: &str) -> (r: Vec<u16>)
    ensures
        r@ == utf16_units(s@),
        utf16_text(r@) == Some(s@),
        2 * r@.len() <= usize::MAX,
{
    s.encode_utf16().collect()
}

/// `String::from_utf16` of std: the text of the code units, where they are
/// valid UTF-16.
#[verifier::external_body]
pub(crate) fn decode_utf16(units: &Vec<u16>) -> (r: Option<String>)
    ensures
        r is Some == utf16_text(units@) is Some,
        r matches Some(s) ==> utf16_text(units@) == Some(s@),
{
    String::from_utf16(units).ok()
}

/// `String::from_utf8` of std: the text of the bytes, where they are valid
/// UTF-8.
#[verifier::external_body]
pub(crate) fn decode_utf8_string(bytes: Vec<u8>) -> (r: Option<String>)
    ensures
        r is Some == valid_utf8(bytes@),
        r matches Some(s) ==> s@ == decode_utf8(bytes@),
{
    String::from_utf8(bytes).ok()
}

/// The bytes of a run of 16 bit units, each most significant byte first.
pub open spec fn units_be(units: Seq<u16>) -> Seq<u8>
    decreases units.len(),
{
    if units.len() == 0 {
        Seq::empty()
    } else {
        units_be(units.drop_last()) + u16_be(units.last())
    }
}

/// The 16 bit units that a run of bytes holds, each most significant byte
/// first. A last odd byte is left out.
pub open spec fn be_units(bytes: Seq<u8>) -> Seq<u16> {
    Seq::new((bytes.len() / 2) as nat, |i: int| at16(bytes, 2 * i))
}

/// The bytes of `n` units are `2 * n` bytes, and reading them back gives the
/// units.
pub proof fn lemma_units_be(units: Seq<u16>)
    ensures
        units_be(units).len() == 2 * units.len(),
        be_units(units_be(units)) == units,
    decreases units.len(),
{
    if units.len() > 0 {
        let init = units.drop_last();
        lemma_units_be(init);
        let b = units_be(units);
        let back = be_units(b);
        assert(b == units_be(init) + u16_be(units.last()));
        assert forall|i: int| 0 <= i < units.len() implies back[i] == units[i] by {
            if i < init.len() {
                assert(b.subrange(2 * i, 2 * i + 2) =~= units_be(init).subrange(2 * i, 2 * i + 2));
                assert(be_units(units_be(init))[i] == init[i]);
            } else {
                assert(b.subrange(2 * i, 2 * i + 2) =~= u16_be(units.last()));
                crate::codec::lemma_be_u16_of_bytes(units.last());
            }
        }
        assert(back =~= units);
    } else {
        assert(be_units(units_be(units)) =~= units);
    }
}

impl DataView {
    /// The type code that the file declares for the value.
    pub open spec fn code(self) -> u32 {
        match self {
            DataView::Reserved(_) => RESERVED,
            DataView::Utf8(_) => UTF8,
            DataView::Utf16(_) => UTF16,
            DataView::Jpeg(_) => JPEG,
            DataView::Png(_) => PNG,
            DataView::BeSigned(_) => BE_SIGNED,
            DataView::Bmp(_) => BMP,
        }
    }

    /// The bytes of the value in the file, without its type.
    pub open spec fn raw_bytes(self) -> Seq<u8> {
        match self {
            DataView::Utf8(s) => encode_utf8(s),
            DataView::Utf16(s) => units_be(utf16_units(s)),
            DataView::Reserved(v) => v,
            DataView::Jpeg(v) => v,
            DataView::Png(v) => v,
            DataView::BeSigned(v) => v,
            DataView::Bmp(v) => v,
        }
    }

    /// The bytes of the value in the file with its type: the type code, a
    /// locale indicator of zero, and the value.
    pub open spec fn typed_bytes(self) -> Seq<u8> {
        u32_be(self.code()) + u32_be(0) + self.raw_bytes()
    }
}

/// The value of the type with the code `code` that the bytes hold, or the
/// error that decoding them gives.
pub open spec fn decode_data(code: u32, bytes: Seq<u8>) -> Result<DataView, ErrorView> {
    if code == RESERVED {
        Ok(DataView::Reserved(bytes))
    } else if code == UTF8 {
        if valid_utf8(bytes) {
            Ok(DataView::Utf8(decode_utf8(bytes)))
        } else {
            Err(error(ErrorKindView::Parsing, "Data is not valid utf-8"))
        }
    } else if code == UTF16 {
        if bytes.len() % 2 != 0 {
            Err(error(ErrorKindView::Parsing, "Utf-16 data of odd length"))
        } else {
            match utf16_text(be_units(bytes)) {
                Some(s) => Ok(DataView::Utf16(s)),
                None => Err(error(ErrorKindView::Parsing, "Data is not valid utf-16")),
            }
        }
    } else if code == JPEG {
        Ok(DataView::Jpeg(bytes))
    } else if code == PNG {
        Ok(DataView::Png(bytes))
    } else if code == BE_SIGNED {
        Ok(DataView::BeSigned(bytes))
    } else if code == BMP {
        Ok(DataView::Bmp(bytes))
    } else {
        Err(error(ErrorKindView::Parsing, "Unknown data type code"))
    }
}

/// Decoding the bytes of a value under its own type code gives the value.
pub proof fn lemma_data_round_trip(d: DataView)
    requires
        d is Utf16 ==> utf16_text(utf16_units(d->Utf16_0)) == Some(d->Utf16_0),
    ensures
        decode_data(d.code(), d.raw_bytes()) == Ok::<DataView, ErrorView>(d),
{
    match d {
        DataView::Utf8(s) => {
            vstd::utf8::encode_utf8_valid_utf8(s);
            vstd::utf8::encode_utf8_decode_utf8(s);
        },
        DataView::Utf16(s) => {
            lemma_units_be(utf16_units(s));
        },
        _ => {},
    }
}

impl Data {
    /// The type code that the file declares for the value.
    pub fn code(&self) -> (r: u32)
        ensures
            r == self@.code(),
    {
        match self {
            Data::Reserved(_) => RESERVED,
            Data::Utf8(_) => UTF8,
            Data::Utf16(_) => UTF16,
            Data::Jpeg(_) => JPEG,
            Data::Png(_) => PNG,
            Data::BeSigned(_) => BE_SIGNED,
            Data::Bmp(_) => BMP,
        }
    }

    /// The number of bytes of the value in the file, without its type.
    pub fn len(&self) -> (r: usize)
        ensures
            r == self@.raw_bytes().len(),
    {
        match self {
            Data::Utf8(s) => s.as_str().as_bytes().len(),
            Data::Utf16(s) => {
                let units = encode_utf16(s.as_str());
                proof {
                    lemma_units_be(units@);
                }
                2 * units.len()
            },
            Data::Reserved(v) => v.len(),
            Data::Jpeg(v) => v.len(),
            Data::Png(v) => v.len(),
            Data::BeSigned(v) => v.len(),
            Data::Bmp(v) => v.len(),
        }
    }

    /// Whether the value has no bytes.
    pub fn is_empty(&self) -> (r: bool)
        ensures
            r == (self@.raw_bytes().len() == 0),
    {
        self.len() == 0
    }

    /// A copy of the value.
    pub fn duplicate(&self) -> (r: Data)
        ensures
            r@ == self@,
    {
        match self {
            Data::Reserved(v) => Data::Reserved(v.clone()),
            Data::Utf8(s) => Data::Utf8(s.clone()),
            Data::Utf16(s) => Data::Utf16(s.clone()),
            Data::Jpeg(v) => Data::Jpeg(v.clone()),
            Data::Png(v) => Data::Png(v.clone()),
            Data::BeSigned(v) => Data::BeSigned(v.clone()),
            Data::Bmp(v) => Data::Bmp(v.clone()),
        }
    }

    /// Writes the bytes of the value, without its type.
    pub fn write_raw(&self, out: &mut Vec<u8>)
        ensures
            final(out)@ == old(out)@ + self@.raw_bytes(),
    {
        match self {
            Data::Utf8(s) => put_bytes(out, s.as_str().as_bytes()),
            Data::Utf16(s) => {
                let units = encode_utf16(s.as_str());
                let mut i: usize = 0;
                while i < units.len()
                    invariant
                        i <= units.len(),
                        out@ == old(out)@ + units_be(units@.take(i as int)),
                    decreases units.len() - i,
                {
                    put_be_u16(out, units[i]);
                    proof {
                        let next = units@.take(i + 1);
                        assert(next.drop_last() =~= units@.take(i as int));
                        assert(out@ =~= old(out)@ + units_be(next));
                    }
                    i += 1;
                }
                assert(units@.take(i as int) =~= units@);
            },
            Data::Reserved(v) => put_bytes(out, v.as_slice()),
            Data::Jpeg(v) => put_bytes(out, v.as_slice()),
            Data::Png(v) => put_bytes(out, v.as_slice()),
            Data::BeSigned(v) => put_bytes(out, v.as_slice()),
            Data::Bmp(v) => put_bytes(out, v.as_slice()),
        }
    }

    /// Writes the type code, a locale indicator of zero, and the bytes of the
    /// value.
    pub fn write_typed(&self, out: &mut Vec<u8>)
        ensures
            final(out)@ == old(out)@ + self@.typed_bytes(),
    {
        put_be_u32(out, self.code());
        put_be_u32(out, 0);
        self.write_raw(out);
        assert(out@ =~= old(out)@ + self@.typed_bytes());
    }
}

/// The type of a value that is to be read, by its type code.
#[derive(Clone, Copy, Debug, PartialEq, Eq, Hash, Structural)]
pub struct DataT {
    /// The type code.
    pub code: u32,
}

impl DataT {
    /// The type with the given type code.
    pub fn new(code: u32) -> (r: DataT)
        ensures
            r.code == code,
    {
        DataT { code }
    }

    /// The type with the given type code.
    pub fn with(code: u32) -> (r: DataT)
        ensures
            r.code == code,
    {
        DataT { code }
    }

    /// What reading a value of this type from the next `length` bytes at
    /// position `p` of `s` gives.
    pub open spec fn parsed(self, s: Seq<u8>, p: int, length: int) -> Result<DataView, ErrorView> {
        if s.len() - p < length {
            Err(eof())
        } else {
            decode_data(self.code, s.subrange(p, p + length))
        }
    }

    /// Reads a value of this type from the next `length` bytes.
    pub fn parse(&self, reader: &mut Reader, length: u64) -> (r: Result<Data, Error>)
        requires
            old(reader).wf(),
        ensures
            match r {
                Ok(d) => self.parsed(old(reader).data@, old(reader).pos as int, length as int)
                    == Ok::<DataView, ErrorView>(d@) && final(reader).moved(
                    old(reader),
                    length as int,
                ),
                Err(e) => self.parsed(old(reader).data@, old(reader).pos as int, length as int)
                    == Err::<DataView, ErrorView>(e@) && final(reader).same_stream(old(reader)),
            },
    {
        let bytes = reader.read_u8_vec(length)?;
        let code = self.code;
        if code == RESERVED {
            Ok(Data::Reserved(bytes))
        } else if code == UTF8 {
            match decode_utf8_string(bytes) {
                Some(s) => Ok(Data::Utf8(s)),
                None => Err(Error::new(ErrorKind::Parsing, "Data is not valid utf-8")),
            }
        } else if code == UTF16 {
            if bytes.len() % 2 != 0 {
                return Err(Error::new(ErrorKind::Parsing, "Utf-16 data of odd length"));
            }
            let mut units: Vec<u16> = Vec::new();
            let mut i: usize = 0;
            while i < bytes.len() / 2
                invariant
                    i <= bytes.len() / 2,
                    units@ == be_units(bytes@).take(i as int),
                decreases bytes.len() / 2 - i,
            {
                let u = crate::codec::read_be_u16(
                    vstd::slice::slice_subrange(bytes.as_slice(), 2 * i, 2 * i + 2),
                );
                units.push(u);
                assert(units@ =~= be_units(bytes@).take(i + 1));
                i += 1;
            }
            assert(units@ =~= be_units(bytes@));
            match decode_utf16(&units) {
                Some(s) => Ok(Data::Utf16(s)),
                None => Err(Error::new(ErrorKind::Parsing, "Data is not valid utf-16")),
            }
        } else if code == JPEG {
            Ok(Data::Jpeg(bytes))
        } else if code == PNG {
            Ok(Data::Png(bytes))
        } else if code == BE_SIGNED {
            Ok(Data::BeSigned(bytes))
        } else if code == BMP {
            Ok(Data::Bmp(bytes))
        } else {
            Err(Error::new(ErrorKind::Parsing, "Unknown data type code"))
        }
    }
}

} // verus!
