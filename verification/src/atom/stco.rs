//! The sample table chunk offset atom (`stco`).

use crate::atom::base::{boxed, content_of, find_leaf, found_at, read, view_of};
use crate::atom::base::{write_boxed, ReadConfig};
use crate::atom::zeros;
use crate::codec::{put_be_u32, u32_be};
use crate::error::{annotate, eof, error, Error, ErrorKind, ErrorKindView, ErrorView};
use crate::head::{parse_full_head, AtomBounds, Size};
use crate::ident::{Ident, SAMPLE_TABLE_CHUNK_OFFSET};
use crate::reader::{at32, Reader};
use vstd::prelude::*;

verus! {

/// A sample table chunk offset atom: the positions in the file at which the
/// chunks of samples start, in 32 bits each.
#[derive(Clone, Debug, Default, PartialEq, Eq)]
pub struct Stco {
    /// The position in the file at which the table of offsets starts.
    pub table_pos: u64,
    /// The offsets: positions in the file.
    pub offsets: Vec<u32>,
}

/// The mathematical value of a [`Stco`].
pub struct StcoView {
    pub table_pos: u64,
    pub offsets: Seq<u32>,
}

impl View for Stco {
    type V = StcoView;

    open spec fn view(&self) -> StcoView {
        StcoView { table_pos: self.table_pos, offsets: self.offsets@ }
    }
}

/// Where a sample table chunk offset atom lies in the file.
#[derive(Clone, Copy, Debug, PartialEq, Eq, Structural)]
pub struct StcoBounds {
    /// The bounds of the atom.
    pub bounds: AtomBounds,
}

/// The `n` numbers of 32 bits that stand one after another from position `p`
/// of `c`.
pub open spec fn table32(c: Seq<u8>, p: int, n: nat) -> Seq<u32> {
    Seq::new(n, |i: int| at32(c, p + 4 * i))
}

/// The bytes of a table of numbers of 32 bits.
pub open spec fn table32_bytes(t: Seq<u32>) -> Seq<u8>
    decreases t.len(),
{
    if t.len() == 0 {
        Seq::empty()
    } else {
        table32_bytes(t.drop_last()) + u32_be(t.last())
    }
}

/// A table of `n` numbers has `4 * n` bytes, and reading them back from
/// where they stand gives the numbers.
pub proof fn lemma_table32(t: Seq<u32>, c: Seq<u8>, p: int)
    requires
        0 <= p,
        p + table32_bytes(t).len() <= c.len(),
        c.subrange(p, p + table32_bytes(t).len()) == table32_bytes(t),
    ensures
        table32_bytes(t).len() == 4 * t.len(),
        table32(c, p, t.len()) == t,
    decreases t.len(),
{
    lemma_table32_len(t);
    if t.len() > 0 {
        let init = t.drop_last();
        lemma_table32_len(init);
        let b = table32_bytes(t);
        assert(c.subrange(p, p + table32_bytes(init).len()) =~= b.subrange(
            0,
            table32_bytes(init).len() as int,
        ));
        assert(b.subrange(0, table32_bytes(init).len() as int) =~= table32_bytes(init));
        lemma_table32(init, c, p);
        let got = table32(c, p, t.len());
        assert forall|i: int| 0 <= i < t.len() implies got[i] == t[i] by {
            if i < init.len() {
                assert(table32(c, p, init.len())[i] == init[i]);
            } else {
                assert(c.subrange(p + 4 * i, p + 4 * i + 4) =~= b.subrange(4 * i, 4 * i + 4));
                assert(b.subrange(4 * i, 4 * i + 4) =~= u32_be(t.last()));
                crate::codec::lemma_be_u32_of_bytes(t.last());
            }
        }
        assert(got =~= t);
    } else {
        assert(table32(c, p, 0) =~= t);
    }
}

/// A table of `n` numbers has `4 * n` bytes.
pub proof fn lemma_table32_len(t: Seq<u32>)
    ensures
        table32_bytes(t).len() == 4 * t.len(),
    decreases t.len(),
{
    if t.len() > 0 {
        lemma_table32_len(t.drop_last());
    }
}

impl Stco {
    /// What the content `c` of a chunk offset atom says, which starts at
    /// position `base` of the file: behind the version and flags stands the
    /// number of offsets, then the offsets. The table must fill the content.
    pub open spec fn decode(c: Seq<u8>, base: int) -> Result<StcoView, ErrorView> {
        if c.len() < 4 {
            Err(eof())
        } else if c[0] != 0 {
            Err(
                error(
                    ErrorKindView::UnknownVersion(c[0]),
                    "Unknown sample table chunk offset (stco) version",
                ),
            )
        } else if c.len() < 8 {
            Err(eof())
        } else if 8 + 4 * at32(c, 4) != c.len() {
            Err(
                error(
                    ErrorKindView::Parsing,
                    "Sample table chunk offset (stco) table size doesn't match atom length",
                ),
            )
        } else {
            Ok(
                StcoView {
                    table_pos: (base + 8) as u64,
                    offsets: table32(c, 8, at32(c, 4) as nat),
                },
            )
        }
    }

    /// What reading a chunk offset atom gives whose content starts at
    /// position `p` of the stream `s`, which starts at position `base` of
    /// the file.
    #[verifier::opaque]
    pub open spec fn parsed(s: Seq<u8>, p: int, base: int, size: Size) -> Result<
        StcoView,
        ErrorView,
    > {
        annotate(
            "parsing",
            Ident(SAMPLE_TABLE_CHUNK_OFFSET),
            match content_of(s, p, size) {
                None => Err(eof()),
                Some(c) => Stco::decode(c, base + p),
            },
        )
    }

    /// The content of a chunk offset atom with the offsets `offsets`.
    pub open spec fn content_bytes(offsets: Seq<u32>) -> Seq<u8> {
        zeros(4) + u32_be(offsets.len() as u32) + table32_bytes(offsets)
    }

    /// The bytes of the atom.
    #[verifier::opaque]
    pub open spec fn bytes(offsets: Seq<u32>) -> Seq<u8> {
        boxed(Ident(SAMPLE_TABLE_CHUNK_OFFSET), Stco::content_bytes(offsets))
    }

    /// Reads a chunk offset atom: the cursor stands behind its head, which
    /// declared the size `size`.
    pub fn parse(reader: &mut Reader, cfg: &ReadConfig, size: Size) -> (r: Result<Stco, Error>)
        requires
            old(reader).wf(),
            size.wf(),
        ensures
            read(
                Stco::parsed(
                    old(reader).data@,
                    old(reader).pos as int,
                    old(reader).base as int,
                    size,
                ),
                view_of(r),
                old(reader),
                final(reader),
                size.spec_content_len(),
            ),
    {
        proof {
            reveal(Stco::parsed);
        }
        let mut content = match reader.take(size.content_len()) {
            Ok(c) => c,
            Err(e) => {
                return Err(e.annotate("parsing", Ident(SAMPLE_TABLE_CHUNK_OFFSET)));
            },
        };
        match Stco::parse_atom(&mut content) {
            Ok(v) => Ok(v),
            Err(e) => Err(e.annotate("parsing", Ident(SAMPLE_TABLE_CHUNK_OFFSET))),
        }
    }

    /// Reads the content of a chunk offset atom, which the cursor is over.
    pub fn parse_atom(content: &mut Reader) -> (r: Result<Stco, Error>)
        requires
            old(content).wf(),
            old(content).pos == 0,
        ensures
            view_of(r) == Stco::decode(old(content).data@, old(content).base as int),
            final(content).same_stream(old(content)),
    {
        let ghost c = content.data@;
        let (version, _) = parse_full_head(content)?;
        if version != 0 {
            return Err(
                Error::new(
                    ErrorKind::UnknownVersion(version),
                    "Unknown sample table chunk offset (stco) version",
                ),
            );
        }
        let entries = content.read_be_u32()?;
        if 4 * (entries as u64) != content.remaining() {
            return Err(
                Error::new(
                    ErrorKind::Parsing,
                    "Sample table chunk offset (stco) table size doesn't match atom length",
                ),
            );
        }
        let table_pos = content.position();
        let mut offsets: Vec<u32> = Vec::new();
        let mut i: u32 = 0;
        while i < entries
            invariant
                i <= entries,
                content.same_stream(old(content)),
                content.pos == 8 + 4 * i,
                c == content.data@,
                c.len() == 8 + 4 * entries,
                offsets@ == table32(c, 8, i as nat),
            decreases entries - i,
        {
            let offset = match content.read_be_u32() {
                Ok(n) => n,
                Err(e) => {
                    return Err(e);
                },
            };
            offsets.push(offset);
            assert(offsets@ =~= table32(c, 8, (i + 1) as nat));
            i += 1;
        }
        Ok(Stco { table_pos, offsets })
    }

    /// Finds where a chunk offset atom lies: the cursor stands behind its
    /// head, which declared the size `size`.
    pub fn find(reader: &mut Reader, size: Size) -> (r: Result<StcoBounds, Error>)
        requires
            old(reader).wf(),
            size.wf(),
            old(reader).abs() >= size.spec_head_len(),
        ensures
            read(
                found_at(
                    old(reader).data@,
                    old(reader).pos as int,
                    old(reader).base as int,
                    size,
                    Ident(SAMPLE_TABLE_CHUNK_OFFSET),
                ),
                match r {
                    Ok(b) => Ok(b.bounds),
                    Err(e) => Err(e@),
                },
                old(reader),
                final(reader),
                size.spec_content_len(),
            ),
            r is Ok ==> r->Ok_0.bounds.wf(),
    {
        Ok(StcoBounds { bounds: find_leaf(reader, size, Ident(SAMPLE_TABLE_CHUNK_OFFSET))? })
    }

    /// The table has no more offsets than 32 bits can count.
    pub open spec fn wf(offsets: Seq<u32>) -> bool {
        offsets.len() <= u32::MAX
    }

    /// The size of the atom.
    pub fn size(&self) -> (r: Size)
        requires
            Stco::wf(self@.offsets),
        ensures
            r == Size::of(Stco::content_bytes(self@.offsets).len() as int),
            r.len == Stco::bytes(self@.offsets).len(),
    {
        proof {
            reveal(Stco::bytes);
        }
        proof {
            lemma_table32_len(self@.offsets);
        }
        Size::from(8 + 4 * (self.offsets.len() as u64))
    }

    /// The length of the atom in bytes.
    pub fn len(&self) -> (r: u64)
        requires
            Stco::wf(self@.offsets),
        ensures
            r == Stco::bytes(self@.offsets).len(),
    {
        self.size().len()
    }

    /// Writes the atom.
    pub fn write(&self, out: &mut Vec<u8>)
        requires
            Stco::wf(self@.offsets),
        ensures
            final(out)@ == old(out)@ + Stco::bytes(self@.offsets),
    {
        proof {
            reveal(Stco::bytes);
        }
        let mut body: Vec<u8> = Vec::new();
        crate::atom::put_zeros(&mut body, 4);
        put_be_u32(&mut body, self.offsets.len() as u32);
        let ghost head = body@;
        let mut i: usize = 0;
        assert(body@ =~= head + table32_bytes(self.offsets@.take(0)));
        while i < self.offsets.len()
            invariant
                i <= self.offsets.len(),
                body@ == head + table32_bytes(self.offsets@.take(i as int)),
            decreases self.offsets.len() - i,
        {
            put_be_u32(&mut body, self.offsets[i]);
            proof {
                let next = self.offsets@.take(i + 1);
                assert(next.drop_last() =~= self.offsets@.take(i as int));
                assert(body@ =~= head + table32_bytes(next));
            }
            i += 1;
        }
        proof {
            assert(self.offsets@.take(i as int) =~= self.offsets@);
            assert(body@ =~= Stco::content_bytes(self@.offsets));
            lemma_table32_len(self@.offsets);
        }
        write_boxed(out, Ident(SAMPLE_TABLE_CHUNK_OFFSET), &body);
    }

    /// Reading an atom back from what was written of it gives the atom,
    /// where its table stands at the position that the atom names.
    pub proof fn lemma_round_trip(v: StcoView, base: int)
        requires
            Stco::wf(v.offsets),
            v.table_pos == base + 8,
        ensures
            Stco::decode(Stco::content_bytes(v.offsets), base) == Ok::<StcoView, ErrorView>(v),
    {
        let c = Stco::content_bytes(v.offsets);
        let n = v.offsets.len();
        lemma_table32_len(v.offsets);
        assert(c.subrange(4, 8) =~= u32_be(n as u32));
        crate::codec::lemma_be_u32_of_bytes(n as u32);
        assert(c.subrange(8, 8 + table32_bytes(v.offsets).len() as int) =~= table32_bytes(v.offsets));
        lemma_table32(v.offsets, c, 8);
    }
}

/// Reading the atom back from where its bytes stand gives the atom.
pub proof fn lemma_stco_round_trip(c: Seq<u8>, p: int, base: int, v: StcoView)
    requires
        0 <= p,
        Stco::wf(v.offsets),
        v.table_pos == base + p + crate::head::Size::of(
            Stco::content_bytes(v.offsets).len() as int,
        ).spec_head_len() + 8,
        p + Stco::bytes(v.offsets).len() <= c.len(),
        c.subrange(p, p + Stco::bytes(v.offsets).len()) == Stco::bytes(v.offsets),
    ensures
        crate::atom::base::stands_at(
            c,
            p,
            Ident(SAMPLE_TABLE_CHUNK_OFFSET),
            Stco::bytes(v.offsets).len() as int,
        ),
        Stco::parsed(c, crate::atom::base::content_at(c, p), base, crate::atom::base::size_at(c, p))
            == Ok::<
            StcoView,
            ErrorView,
        >(v),
{
    reveal(Stco::parsed);
    reveal(Stco::bytes);
    lemma_table32_len(v.offsets);
    crate::atom::base::lemma_boxed_child(
        c,
        p,
        Ident(SAMPLE_TABLE_CHUNK_OFFSET),
        Stco::content_bytes(v.offsets),
    );
    Stco::lemma_round_trip(v, base + crate::atom::base::content_at(c, p));
}

} // verus!
