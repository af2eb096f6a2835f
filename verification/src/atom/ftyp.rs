//! The file type atom (`ftyp`).

use crate::atom::base::{boxed, content_of, fits, write_boxed};
use crate::atom::{is_valid_brand, valid_brand};
use crate::data::decode_utf8_string;
use crate::error::{eof, error, Error, ErrorKind, ErrorKindView, ErrorView};
use crate::head::{head_at, parse_head};
use crate::ident::{Ident, FILE_TYPE};
use crate::reader::Reader;
use vstd::prelude::*;
use vstd::string::*;
use vstd::utf8::{decode_utf8, encode_utf8, valid_utf8};

verus! {

/// A file type atom: the brand of the file and what follows it, as text.
#[derive(Clone, Debug, Default, PartialEq, Eq)]
pub struct Ftyp(pub String);

impl View for Ftyp {
    type V = Seq<char>;

    open spec fn view(&self) -> Seq<char> {
        self.0@
    }
}

/// The text of the file type atom that stands at position `p` of the stream
/// `s`, and the length of the atom. It is an error where another atom
/// stands there, where the content is not UTF-8, or where it does not start
/// with a supported brand.
pub open spec fn ftyp_at(s: Seq<u8>, p: int) -> Result<(Seq<char>, int), ErrorView> {
    match head_at(s, p) {
        Err(e) => Err(e),
        Ok(h) => if h.fourcc != Ident(FILE_TYPE) {
            Err(error(ErrorKindView::NoTag, "No filetype atom found."))
        } else if h.size == 0 {
            Err(error(ErrorKindView::Parsing, "Filetype atom of open length"))
        } else {
            match content_of(s, p + h.spec_size().spec_head_len(), h.spec_size()) {
                None => Err(eof()),
                Some(c) => if !valid_utf8(c) {
                    Err(error(ErrorKindView::NoTag, "Filetype is not valid utf-8"))
                } else if !is_valid_brand(c) {
                    Err(error(ErrorKindView::InvalidFiletype(decode_utf8(c)), "Invalid filetype."))
                } else {
                    Ok((decode_utf8(c), h.spec_size().len as int))
                },
            }
        },
    }
}

impl Ftyp {
    /// The bytes of the file type atom with the text `v`.
    #[verifier::opaque]
    pub open spec fn bytes(v: Seq<char>) -> Seq<u8> {
        boxed(Ident(FILE_TYPE), encode_utf8(v))
    }

    /// Reads the file type atom, whose head stands at the cursor, and checks
    /// its brand.
    pub fn parse(reader: &mut Reader) -> (r: Result<Ftyp, Error>)
        requires
            old(reader).wf(),
        ensures
            match r {
                Ok(v) => ftyp_at(old(reader).data@, old(reader).pos as int) is Ok && ({
                    let t = ftyp_at(old(reader).data@, old(reader).pos as int)->Ok_0;
                    t.0 == v@ && final(reader).moved(old(reader), t.1)
                }),
                Err(e) => ftyp_at(old(reader).data@, old(reader).pos as int) == Err::<
                    (Seq<char>, int),
                    ErrorView,
                >(e@) && final(reader).same_stream(old(reader)),
            },
    {
        let head = parse_head(reader)?;
        if head.fourcc.0 != FILE_TYPE {
            return Err(Error::new(ErrorKind::NoTag, "No filetype atom found."));
        }
        if head.size == 0 {
            return Err(Error::new(ErrorKind::Parsing, "Filetype atom of open length"));
        }
        let bytes = reader.read_u8_vec(head.content_len())?;
        let valid = valid_brand(bytes.as_slice());
        match decode_utf8_string(bytes) {
            None => Err(Error::new(ErrorKind::NoTag, "Filetype is not valid utf-8")),
            Some(s) => {
                if valid {
                    Ok(Ftyp(s))
                } else {
                    Err(Error::new(ErrorKind::InvalidFiletype(s), "Invalid filetype."))
                }
            },
        }
    }

    /// Writes the atom.
    pub fn write(&self, out: &mut Vec<u8>)
        requires
            fits(encode_utf8(self@).len() as int),
        ensures
            final(out)@ == old(out)@ + Ftyp::bytes(self@),
    {
        proof {
            reveal(Ftyp::bytes);
        }
        let mut body: Vec<u8> = Vec::new();
        crate::codec::put_bytes(&mut body, self.0.as_str().as_bytes());
        write_boxed(out, Ident(FILE_TYPE), &body);
    }
}

/// Reading a file type atom back from where its bytes stand gives its text,
/// where the text starts with a supported brand.
pub proof fn lemma_ftyp_round_trip(s: Seq<u8>, p: int, v: Seq<char>)
    requires
        0 <= p,
        fits(encode_utf8(v).len() as int),
        is_valid_brand(encode_utf8(v)),
        p + Ftyp::bytes(v).len() <= s.len(),
        s.subrange(p, p + Ftyp::bytes(v).len()) == Ftyp::bytes(v),
    ensures
        ftyp_at(s, p) == Ok::<(Seq<char>, int), ErrorView>((v, Ftyp::bytes(v).len() as int)),
{
    reveal(Ftyp::bytes);
    let content = encode_utf8(v);
    crate::atom::base::lemma_boxed_child(s, p, Ident(FILE_TYPE), content);
    vstd::utf8::encode_utf8_valid_utf8(v);
    vstd::utf8::encode_utf8_decode_utf8(v);
}

} // verus!
