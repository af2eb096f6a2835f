//! The 64 bit sample table chunk offset atom (`co64`).

use crate::atom::base::{boxed, content_of, find_leaf, found_at, read, view_of};
use crate::atom::base::{write_boxed, ReadConfig};
use crate::atom::zeros;
use crate::codec::{put_be_u32, put_be_u64, u32_be, u64_be};
use crate::error::{annotate, eof, error, Error, ErrorKind, ErrorKindView, ErrorView};
use crate::head::{parse_full_head, AtomBounds, Size};
use crate::ident::{Ident, SAMPLE_TABLE_CHUNK_OFFSET_64};
use crate::reader::{at32, at64, Reader};
use vstd::prelude::*;

verus! {

/// A 64 bit sample table chunk offset atom: the positions in the file at
/// which the chunks of samples start, in 64 bits each.
#[derive(Clone, Debug, Default, PartialEq, Eq)]
pub struct Co64 {
    /// The position in the file at which the table of offsets starts.
    pub table_pos: u64,
    /// The offsets: positions in the file.
    pub offsets: Vec<u64>,
}

/// The mathematical value of a [`Co64`].
pub struct Co64View {
    pub table_pos: u64,
    pub offsets: Seq<u64>,
}

impl View for Co64 {
    type V = Co64View;

    open spec fn view(&self) -> Co64View {
        Co64View { table_pos: self.table_pos, offsets: self.offsets@ }
    }
}

/// Where a sample table chunk offset atom lies in the file.
#[derive(Clone, Copy, Debug, PartialEq, Eq, Structural)]
pub struct Co64Bounds {
    /// The bounds of the atom.
    pub bounds: AtomBounds,
}

/// The `n` numbers of 64 bits that stand one after another from position `p`
/// of `c`.
pub open spec fn table64(c: Seq<u8>, p: int, n: nat) -> Seq<u64> {
    Seq::new(n, |i: int| at64(c, p + 8 * i))
}

/// The bytes of a table of numbers of 64 bits.
pub open spec fn table64_bytes(t: Seq<u64>) -> Seq<u8>
    decreases t.len(),
{
    if t.len() == 0 {
        Seq::empty()
    } else {
        table64_bytes(t.drop_last()) + u64_be(t.last())
    }
}

/// A table of `n` numbers has `8 * n` bytes, and reading them back from
/// where they stand gives the numbers.
pub proof fn lemma_table64(t: Seq<u64>, c: Seq<u8>, p: int)
    requires
        0 <= p,
        p + table64_bytes(t).len() <= c.len(),
        c.subrange(p, p + table64_bytes(t).len()) == table64_bytes(t),
    ensures
        table64_bytes(t).len() == 8 * t.len(),
        table64(c, p, t.len()) == t,
    decreases t.len(),
{
    lemma_table64_len(t);
    if t.len() > 0 {
        let init = t.drop_last();
        lemma_table64_len(init);
        let b = table64_bytes(t);
        assert(c.subrange(p, p + table64_bytes(init).len()) =~= b.subrange(
            0,
            table64_bytes(init).len() as int,
        ));
        assert(b.subrange(0, table64_bytes(init).len() as int) =~= table64_bytes(init));
        lemma_table64(init, c, p);
        let got = table64(c, p, t.len());
        assert forall|i: int| 0 <= i < t.len() implies got[i] == t[i] by {
            if i < init.len() {
                assert(table64(c, p, init.len())[i] == init[i]);
            } else {
                assert(c.subrange(p + 8 * i, p + 8 * i + 8) =~= b.subrange(8 * i, 8 * i + 8));
                assert(b.subrange(8 * i, 8 * i + 8) =~= u64_be(t.last()));
                crate::codec::lemma_be_u64_of_bytes(t.last());
            }
        }
        assert(got =~= t);
    } else {
        assert(table64(c, p, 0) =~= t);
    }
}

/// A table of `n` numbers has `8 * n` bytes.
pub proof fn lemma_table64_len(t: Seq<u64>)
    ensures
        table64_bytes(t).len() == 8 * t.len(),
    decreases t.len(),
{
    if t.len() > 0 {
        lemma_table64_len(t.drop_last());
    }
}

impl Co64 {
    /// What the content `c` of a chunk offset atom says, which starts at
    /// position `base` of the file: behind the version and flags stands the
    /// number of offsets, then the offsets. The table must fill the content.
    pub open spec fn decode(c: Seq<u8>, base: int) -> Result<Co64View, ErrorView> {
        if c.len() < 4 {
            Err(eof())
        } else if c[0] != 0 {
            Err(
                error(
                    ErrorKindView::UnknownVersion(c[0]),
                    "Unknown sample table chunk offset (co64) version",
                ),
            )
        } else if c.len() < 8 {
            Err(eof())
        } else if 8 + 8 * at32(c, 4) != c.len() {
            Err(
                error(
                    ErrorKindView::Parsing,
                    "Sample table chunk offset (co64) table size doesn't match atom length",
                ),
            )
        } else {
            Ok(
                Co64View {
                    table_pos: (base + 8) as u64,
                    offsets: table64(c, 8, at32(c, 4) as nat),
                },
            )
        }
    }

    /// What reading a chunk offset atom gives whose content starts at
    /// position `p` of the stream `s`, which starts at position `base` of
    /// the file.
    #[verifier::opaque]
    pub open spec fn parsed(s: Seq<u8>, p: int, base: int, size: Size) -> Result<
        Co64View,
        ErrorView,
    > {
        annotate(
            "parsing",
            Ident(SAMPLE_TABLE_CHUNK_OFFSET_64),
            match content_of(s, p, size) {
                None => Err(eof()),
                Some(c) => Co64::decode(c, base + p),
            },
        )
    }

    /// The content of a chunk offset atom with the offsets `offsets`.
    pub open spec fn content_bytes(offsets: Seq<u64>) -> Seq<u8> {
        zeros(4) + u32_be(offsets.len() as u32) + table64_bytes(offsets)
    }

    /// The bytes of the atom.
    #[verifier::opaque]
    pub open spec fn bytes(offsets: Seq<u64>) -> Seq<u8> {
        boxed(Ident(SAMPLE_TABLE_CHUNK_OFFSET_64), Co64::content_bytes(offsets))
    }

    /// Reads a chunk offset atom: the cursor stands behind its head, which
    /// declared the size `size`.
    pub fn parse(reader: &mut Reader, cfg: &ReadConfig, size: Size) -> (r: Result<Co64, Error>)
        requires
            old(reader).wf(),
            size.wf(),
        ensures
            read(
                Co64::parsed(
                    old(reader).data@,
                    old(reader).pos as int,
                    old(reader).base as int,
                    size,
                ),
                view_of(r),
                old(reader),
                final(reader),
                size.spec_content_len(),
            ),
    {
        proof {
            reveal(Co64::parsed);
        }
        let mut content = match reader.take(size.content_len()) {
            Ok(c) => c,
            Err(e) => {
                return Err(e.annotate("parsing", Ident(SAMPLE_TABLE_CHUNK_OFFSET_64)));
            },
        };
        match Co64::parse_atom(&mut content) {
            Ok(v) => Ok(v),
            Err(e) => Err(e.annotate("parsing", Ident(SAMPLE_TABLE_CHUNK_OFFSET_64))),
        }
    }

    /// Reads the content of a chunk offset atom, which the cursor is over.
    pub fn parse_atom(content: &mut Reader) -> (r: Result<Co64, Error>)
        requires
            old(content).wf(),
            old(content).pos == 0,
        ensures
            view_of(r) == Co64::decode(old(content).data@, old(content).base as int),
            final(content).same_stream(old(content)),
    {
        let ghost c = content.data@;
        let (version, _) = parse_full_head(content)?;
        if version != 0 {
            return Err(
                Error::new(
                    ErrorKind::UnknownVersion(version),
                    "Unknown sample table chunk offset (co64) version",
                ),
            );
        }
        let entries = content.read_be_u32()?;
        if 8 * (entries as u64) != content.remaining() {
            return Err(
                Error::new(
                    ErrorKind::Parsing,
                    "Sample table chunk offset (co64) table size doesn't match atom length",
                ),
            );
        }
        let table_pos = content.position();
        let mut offsets: Vec<u64> = Vec::new();
        let mut i: u32 = 0;
        while i < entries
            invariant
                i <= entries,
                content.same_stream(old(content)),
                content.pos == 8 + 8 * i,
                c == content.data@,
                c.len() == 8 + 8 * entries,
                offsets@ == table64(c, 8, i as nat),
            decreases entries - i,
        {
            let offset = match content.read_be_u64() {
                Ok(n) => n,
                Err(e) => {
                    return Err(e);
                },
            };
            offsets.push(offset);
            assert(offsets@ =~= table64(c, 8, (i + 1) as nat));
            i += 1;
        }
        Ok(Co64 { table_pos, offsets })
    }

    /// Finds where a chunk offset atom lies: the cursor stands behind its
    /// head, which declared the size `size`.
    pub fn find(reader: &mut Reader, size: Size) -> (r: Result<Co64Bounds, Error>)
        requires
            old(reader).wf(),
            size.wf(),
            old(reader).abs() >= size.spec_head_len(),
        ensures
            read(
                found_at(
                    old(reader).data@,
                    old(reader).pos as int,
                    old(reader).base as int,
                    size,
                    Ident(SAMPLE_TABLE_CHUNK_OFFSET_64),
                ),
                match r {
                    Ok(b) => Ok(b.bounds),
                    Err(e) => Err(e@),
                },
                old(reader),
                final(reader),
                size.spec_content_len(),
            ),
            r is Ok ==> r->Ok_0.bounds.wf(),
    {
        Ok(Co64Bounds { bounds: find_leaf(reader, size, Ident(SAMPLE_TABLE_CHUNK_OFFSET_64))? })
    }

    /// The table has no more offsets than 32 bits can count.
    pub open spec fn wf(offsets: Seq<u64>) -> bool {
        offsets.len() <= u32::MAX
    }

    /// The size of the atom.
    pub fn size(&self) -> (r: Size)
        requires
            Co64::wf(self@.offsets),
        ensures
            r == Size::of(Co64::content_bytes(self@.offsets).len() as int),
            r.len == Co64::bytes(self@.offsets).len(),
    {
        proof {
            reveal(Co64::bytes);
        }
        proof {
            lemma_table64_len(self@.offsets);
        }
        Size::from(8 + 8 * (self.offsets.len() as u64))
    }

    /// The length of the atom in bytes.
    pub fn len(&self) -> (r: u64)
        requires
            Co64::wf(self@.offsets),
        ensures
            r == Co64::bytes(self@.offsets).len(),
    {
        self.size().len()
    }

    /// Writes the atom.
    pub fn write(&self, out: &mut Vec<u8>)
        requires
            Co64::wf(self@.offsets),
        ensures
            final(out)@ == old(out)@ + Co64::bytes(self@.offsets),
    {
        proof {
            reveal(Co64::bytes);
        }
        let mut body: Vec<u8> = Vec::new();
        crate::atom::put_zeros(&mut body, 4);
        put_be_u32(&mut body, self.offsets.len() as u32);
        let ghost head = body@;
        let mut i: usize = 0;
        assert(body@ =~= head + table64_bytes(self.offsets@.take(0)));
        while i < self.offsets.len()
            invariant
                i <= self.offsets.len(),
                body@ == head + table64_bytes(self.offsets@.take(i as int)),
            decreases self.offsets.len() - i,
        {
            put_be_u64(&mut body, self.offsets[i]);
            proof {
                let next = self.offsets@.take(i + 1);
                assert(next.drop_last() =~= self.offsets@.take(i as int));
                assert(body@ =~= head + table64_bytes(next));
            }
            i += 1;
        }
        proof {
            assert(self.offsets@.take(i as int) =~= self.offsets@);
            assert(body@ =~= Co64::content_bytes(self@.offsets));
            lemma_table64_len(self@.offsets);
        }
        write_boxed(out, Ident(SAMPLE_TABLE_CHUNK_OFFSET_64), &body);
    }

    /// Reading an atom back from what was written of it gives the atom,
    /// where its table stands at the position that the atom names.
    pub proof fn lemma_round_trip(v: Co64View, base: int)
        requires
            Co64::wf(v.offsets),
            v.table_pos == base + 8,
        ensures
            Co64::decode(Co64::content_bytes(v.offsets), base) == Ok::<Co64View, ErrorView>(v),
    {
        let c = Co64::content_bytes(v.offsets);
        let n = v.offsets.len();
        lemma_table64_len(v.offsets);
        assert(c.subrange(4, 8) =~= u32_be(n as u32));
        crate::codec::lemma_be_u32_of_bytes(n as u32);
        assert(c.subrange(8, 8 + table64_bytes(v.offsets).len() as int) =~= table64_bytes(v.offsets));
        lemma_table64(v.offsets, c, 8);
    }
}

/// Reading the atom back from where its bytes stand gives the atom.
pub proof fn lemma_co64_round_trip(c: Seq<u8>, p: int, base: int, v: Co64View)
    requires
        0 <= p,
        Co64::wf(v.offsets),
        v.table_pos == base + p + crate::head::Size::of(
            Co64::content_bytes(v.offsets).len() as int,
        ).spec_head_len() + 8,
        p + Co64::bytes(v.offsets).len() <= c.len(),
        c.subrange(p, p + Co64::bytes(v.offsets).len()) == Co64::bytes(v.offsets),
    ensures
        crate::atom::base::stands_at(
            c,
            p,
            Ident(SAMPLE_TABLE_CHUNK_OFFSET_64),
            Co64::bytes(v.offsets).len() as int,
        ),
        Co64::parsed(c, crate::atom::base::content_at(c, p), base, crate::atom::base::size_at(c, p))
            == Ok::<
            Co64View,
            ErrorView,
        >(v),
{
    reveal(Co64::parsed);
    reveal(Co64::bytes);
    lemma_table64_len(v.offsets);
    crate::atom::base::lemma_boxed_child(
        c,
        p,
        Ident(SAMPLE_TABLE_CHUNK_OFFSET_64),
        Co64::content_bytes(v.offsets),
    );
    Co64::lemma_round_trip(v, base + crate::atom::base::content_at(c, p));
}

} // verus!
