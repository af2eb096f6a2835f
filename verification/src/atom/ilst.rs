//! The metadata item list atom (`ilst`).

use crate::atom::base::{boxed, child_at, content_of, find_leaf, fits, found_at, next_child, read};
use crate::atom::base::{view_of, write_boxed, ReadConfig};
use crate::atom::metaitem::{item_readable, lemma_item_round_trip, MetaItem, MetaItemView};
use crate::atom::base::{lemma_boxed_bounds, lemma_boxed_child};
use crate::error::{annotate, eof, Error, ErrorView};
use crate::head::{AtomBounds, Size};
use crate::ident::{Ident, ITEM_LIST};
use crate::reader::Reader;
use vstd::prelude::*;

verus! {

/// A metadata item list: items that the list owns, or items of another
/// owner that are only to be written.
#[derive(Clone, Debug, PartialEq, Eq)]
pub enum Ilst<'a> {
    /// Items that the list owns.
    Owned(Vec<MetaItem>),
    /// Items of another owner.
    Borrowed(&'a [MetaItem]),
}

/// The values of a list of items.
pub open spec fn item_views(s: Seq<MetaItem>) -> Seq<MetaItemView> {
    Seq::new(s.len(), |i: int| s[i]@)
}

impl<'a> View for Ilst<'a> {
    type V = Seq<MetaItemView>;

    open spec fn view(&self) -> Seq<MetaItemView> {
        match self {
            Ilst::Owned(v) => item_views(v@),
            Ilst::Borrowed(s) => item_views(s@),
        }
    }
}

/// Where a metadata item list atom lies in the file.
#[derive(Clone, Copy, Debug, PartialEq, Eq, Structural)]
pub struct IlstBounds {
    /// The bounds of the atom.
    pub bounds: AtomBounds,
}

/// The bytes of the atoms of the items, one after another.
pub open spec fn items_bytes(s: Seq<MetaItemView>) -> Seq<u8>
    decreases s.len(),
{
    if s.len() == 0 {
        Seq::empty()
    } else {
        items_bytes(s.drop_last()) + s.last().bytes()
    }
}

/// What reading the items from position `p` of the content `c` of an item
/// list adds to the items `acc` that were read before: every child atom is
/// an item.
pub open spec fn items_parsed(c: Seq<u8>, p: int, acc: Seq<MetaItemView>) -> Result<
    Seq<MetaItemView>,
    ErrorView,
>
    decreases c.len() - p,
{
    if p >= c.len() {
        Ok(acc)
    } else {
        match child_at(c, p) {
            Err(e) => Err(e),
            Ok(h) => {
                let size = h.spec_size();
                match MetaItem::parsed(c, p + size.spec_head_len(), h.fourcc, size) {
                    Err(e) => Err(e),
                    Ok(item) => items_parsed(c, p + size.len, acc.push(item)),
                }
            },
        }
    }
}

/// The bytes of a list of items grow by those of the item that is added, and
/// no item is longer than the list.
pub proof fn lemma_items_take(s: Seq<MetaItemView>, i: int)
    requires
        0 <= i < s.len(),
    ensures
        items_bytes(s.take(i + 1)) == items_bytes(s.take(i)) + s[i].bytes(),
        items_bytes(s.take(i)).len() + s[i].bytes().len() <= items_bytes(s).len(),
    decreases s.len() - i,
{
    assert(s.take(i + 1).drop_last() =~= s.take(i));
    if i + 1 < s.len() {
        lemma_items_take(s, i + 1);
    } else {
        assert(s.take(i + 1) =~= s);
    }
}

/// The items of a list that can be written can be written themselves.
pub proof fn lemma_items_writable(s: Seq<MetaItemView>, i: int)
    requires
        0 <= i < s.len(),
        fits(items_bytes(s).len() as int),
    ensures
        s[i].writable(),
        fits((items_bytes(s.take(i)).len() + s[i].bytes().len()) as int),
{
    reveal(MetaItemView::bytes);
    lemma_items_take(s, i);
    crate::atom::base::lemma_boxed_bounds(s[i].fourcc(), s[i].content_bytes());
}

impl<'a> Ilst<'a> {
    /// The items of the list.
    pub fn items(&self) -> (r: &[MetaItem])
        ensures
            item_views(r@) == self@,
    {
        match self {
            Ilst::Owned(v) => v.as_slice(),
            Ilst::Borrowed(s) => s,
        }
    }

    /// The items of the list, where the list owns them.
    pub fn owned(self) -> (r: Option<Vec<MetaItem>>)
        ensures
            match self {
                Ilst::Owned(v) => r == Some(v),
                Ilst::Borrowed(_) => r is None,
            },
    {
        match self {
            Ilst::Owned(v) => Some(v),
            Ilst::Borrowed(_) => None,
        }
    }

    /// The items of the list as a list of its own: the items themselves
    /// where the list owns them, else copies.
    pub fn into_items(self) -> (r: Vec<MetaItem>)
        ensures
            item_views(r@) == self@,
    {
        match self {
            Ilst::Owned(v) => v,
            Ilst::Borrowed(s) => copy_items(s),
        }
    }

    /// What the content `c` of an item list says.
    pub open spec fn decode(c: Seq<u8>) -> Result<Seq<MetaItemView>, ErrorView> {
        items_parsed(c, 0, Seq::empty())
    }

    /// What reading an item list atom gives whose content starts at position
    /// `p` of the stream `s`.
    #[verifier::opaque]
    pub open spec fn parsed(s: Seq<u8>, p: int, size: Size) -> Result<
        Seq<MetaItemView>,
        ErrorView,
    > {
        annotate(
            "parsing",
            Ident(ITEM_LIST),
            match content_of(s, p, size) {
                None => Err(eof()),
                Some(c) => Ilst::decode(c),
            },
        )
    }

    /// The bytes of the item list atom that holds the items.
    #[verifier::opaque]
    pub open spec fn bytes(v: Seq<MetaItemView>) -> Seq<u8> {
        boxed(Ident(ITEM_LIST), items_bytes(v))
    }

    /// The list can be written: the length of its atom is a number of 64
    /// bits.
    pub open spec fn writable(v: Seq<MetaItemView>) -> bool {
        fits(items_bytes(v).len() as int)
    }

    /// Reads an item list atom: the cursor stands behind its head, which
    /// declared the size `size`.
    pub fn parse(reader: &mut Reader, cfg: &ReadConfig, size: Size) -> (r: Result<
        Ilst<'static>,
        Error,
    >)
        requires
            old(reader).wf(),
            size.wf(),
        ensures
            read(
                Ilst::parsed(old(reader).data@, old(reader).pos as int, size),
                view_of(r),
                old(reader),
                final(reader),
                size.spec_content_len(),
            ),
            r is Ok ==> r->Ok_0 is Owned,
    {
        proof {
            reveal(Ilst::parsed);
        }
        let mut content = match reader.take(size.content_len()) {
            Ok(c) => c,
            Err(e) => {
                return Err(e.annotate("parsing", Ident(ITEM_LIST)));
            },
        };
        match Ilst::parse_atom(&mut content) {
            Ok(v) => Ok(Ilst::Owned(v)),
            Err(e) => Err(e.annotate("parsing", Ident(ITEM_LIST))),
        }
    }

    /// Reads the content of an item list atom, which the cursor is over.
    pub fn parse_atom(content: &mut Reader) -> (r: Result<Vec<MetaItem>, Error>)
        requires
            old(content).wf(),
            old(content).pos == 0,
        ensures
            match r {
                Ok(v) => Ilst::decode(old(content).data@) == Ok::<Seq<MetaItemView>, ErrorView>(
                    item_views(v@),
                ),
                Err(e) => Ilst::decode(old(content).data@) == Err::<Seq<MetaItemView>, ErrorView>(
                    e@,
                ),
            },
            final(content).same_stream(old(content)),
    {
        let ghost c = content.data@;
        let mut items: Vec<MetaItem> = Vec::new();
        assert(item_views(items@) =~= Seq::empty());
        while content.remaining() > 0
            invariant
                content.same_stream(old(content)),
                c == content.data@,
                items_parsed(c, content.pos as int, item_views(items@)) == items_parsed(
                    c,
                    0,
                    Seq::empty(),
                ),
            decreases content.left(),
        {
            let head = match next_child(content) {
                Ok(h) => h,
                Err(e) => {
                    return Err(e);
                },
            };
            let item = match MetaItem::parse(content, head.fourcc, head.size()) {
                Ok(i) => i,
                Err(e) => {
                    return Err(e);
                },
            };
            assert(item_views(items@.push(item)) =~= item_views(items@).push(item@));
            items.push(item);
        }
        Ok(items)
    }

    /// Finds where an item list atom lies: the cursor stands behind its
    /// head, which declared the size `size`.
    pub fn find(reader: &mut Reader, size: Size) -> (r: Result<IlstBounds, Error>)
        requires
            old(reader).wf(),
            size.wf(),
            old(reader).abs() >= size.spec_head_len(),
        ensures
            read(
                found_at(
                    old(reader).data@,
                    old(reader).pos as int,
                    old(reader).base as int,
                    size,
                    Ident(ITEM_LIST),
                ),
                match r {
                    Ok(b) => Ok(b.bounds),
                    Err(e) => Err(e@),
                },
                old(reader),
                final(reader),
                size.spec_content_len(),
            ),
            r is Ok ==> r->Ok_0.bounds.wf(),
    {
        Ok(IlstBounds { bounds: find_leaf(reader, size, Ident(ITEM_LIST))? })
    }

    /// The size of the atom.
    pub fn size(&self) -> (r: Size)
        requires
            Ilst::writable(self@),
        ensures
            r == Size::of(items_bytes(self@).len() as int),
            r.len == Ilst::bytes(self@).len(),
    {
        proof {
            reveal(Ilst::bytes);
        }
        let items = self.items();
        let ghost v = self@;
        let mut n: u64 = 0;
        let mut i: usize = 0;
        assert(items_bytes(v.take(0)).len() == 0);
        while i < items.len()
            invariant
                i <= items.len(),
                v == item_views(items@),
                Ilst::writable(v),
                n == items_bytes(v.take(i as int)).len(),
            decreases items.len() - i,
        {
            proof {
                lemma_items_writable(v, i as int);
                lemma_items_take(v, i as int);
            }
            n = n + items[i].len();
            i += 1;
        }
        assert(v.take(i as int) =~= v);
        Size::from(n)
    }

    /// The length of the atom in bytes.
    pub fn len(&self) -> (r: u64)
        requires
            Ilst::writable(self@),
        ensures
            r == Ilst::bytes(self@).len(),
    {
        self.size().len()
    }

    /// Writes the atom.
    pub fn write(&self, out: &mut Vec<u8>)
        requires
            Ilst::writable(self@),
        ensures
            final(out)@ == old(out)@ + Ilst::bytes(self@),
    {
        proof {
            reveal(Ilst::bytes);
        }
        let mut body: Vec<u8> = Vec::new();
        write_items(&mut body, self.items());
        assert(body@ =~= items_bytes(self@));
        write_boxed(out, Ident(ITEM_LIST), &body);
    }
}

/// Copies of the items.
pub fn copy_items(items: &[MetaItem]) -> (r: Vec<MetaItem>)
    ensures
        item_views(r@) == item_views(items@),
{
    let mut out: Vec<MetaItem> = Vec::new();
    let mut i: usize = 0;
    while i < items.len()
        invariant
            i <= items.len(),
            item_views(out@) == item_views(items@).take(i as int),
        decreases items.len() - i,
    {
        let item = items[i].duplicate();
        assert(item_views(out@.push(item)) =~= item_views(out@).push(item@));
        assert(item_views(items@).take(i + 1) =~= item_views(items@).take(i as int).push(
            items@[i as int]@,
        ));
        out.push(item);
        i += 1;
    }
    assert(item_views(items@).take(i as int) =~= item_views(items@));
    out
}

/// Writes the atoms of the items, one after another.
pub fn write_items(out: &mut Vec<u8>, items: &[MetaItem])
    requires
        fits(items_bytes(item_views(items@)).len() as int),
    ensures
        final(out)@ == old(out)@ + items_bytes(item_views(items@)),
{
    let ghost v = item_views(items@);
    let mut i: usize = 0;
    assert(out@ =~= old(out)@ + items_bytes(v.take(0)));
    while i < items.len()
        invariant
            i <= items.len(),
            v == item_views(items@),
            fits(items_bytes(v).len() as int),
            out@ == old(out)@ + items_bytes(v.take(i as int)),
        decreases items.len() - i,
    {
        proof {
            lemma_items_writable(v, i as int);
            lemma_items_take(v, i as int);
        }
        items[i].write(out);
        assert(out@ =~= old(out)@ + items_bytes(v.take(i + 1)));
        i += 1;
    }
    assert(v.take(i as int) =~= v);
}

/// The items can be read back from their bytes: the list can be written, and
/// each item can be read back.
pub open spec fn items_readable(vs: Seq<MetaItemView>) -> bool {
    &&& Ilst::writable(vs)
    &&& forall|i: int| 0 <= i < vs.len() ==> item_readable(#[trigger] vs[i])
}

/// The bytes of a list of items with one more item in front are the bytes of
/// that item and those of the list.
pub proof fn lemma_items_front(v: MetaItemView, rest: Seq<MetaItemView>)
    ensures
        items_bytes(seq![v] + rest) == v.bytes() + items_bytes(rest),
    decreases rest.len(),
{
    reveal_with_fuel(items_bytes, 3);
    if rest.len() == 0 {
        assert(seq![v] + rest =~= seq![v]);
        assert(seq![v].drop_last() =~= Seq::<MetaItemView>::empty());
        assert(items_bytes(seq![v]) =~= v.bytes());
        assert(v.bytes() + items_bytes(rest) =~= v.bytes());
    } else {
        let all = seq![v] + rest;
        assert(all.drop_last() =~= seq![v] + rest.drop_last());
        assert(all.last() == rest.last());
        lemma_items_front(v, rest.drop_last());
        assert(items_bytes(all) =~= v.bytes() + items_bytes(rest));
    }
}

/// Reading items back from where their bytes stand, to the end of the
/// content, adds them to what was read before.
pub proof fn lemma_items_parsed(c: Seq<u8>, p: int, acc: Seq<MetaItemView>, vs: Seq<MetaItemView>)
    requires
        0 <= p,
        p + items_bytes(vs).len() == c.len(),
        c.subrange(p, c.len() as int) == items_bytes(vs),
        forall|i: int| 0 <= i < vs.len() ==> item_readable(#[trigger] vs[i]),
    ensures
        items_parsed(c, p, acc) == Ok::<Seq<MetaItemView>, ErrorView>(acc + vs),
    decreases vs.len(),
{
    if vs.len() == 0 {
        assert(acc + vs =~= acc);
    } else {
        let v = vs[0];
        let rest = vs.drop_first();
        assert(vs =~= seq![v] + rest);
        lemma_items_front(v, rest);
        let a = v.bytes();
        let tail = items_bytes(rest);
        let all = c.subrange(p, c.len() as int);
        assert(all == a + tail);
        assert(c.subrange(p, p + a.len()) =~= all.subrange(0, a.len() as int));
        assert(all.subrange(0, a.len() as int) =~= a);
        assert(item_readable(vs[0]));
        lemma_item_round_trip(c, p, v);
        let next = p + a.len();
        assert(c.subrange(next, c.len() as int) =~= all.subrange(a.len() as int, all.len() as int));
        assert(all.subrange(a.len() as int, all.len() as int) =~= tail);
        assert forall|i: int| 0 <= i < rest.len() implies item_readable(#[trigger] rest[i]) by {
            assert(rest[i] == vs[i + 1]);
        }
        lemma_items_parsed(c, next, acc.push(v), rest);
        assert(acc.push(v) + rest =~= acc + vs);
    }
}

/// Reading an item list atom back from where its bytes stand gives its
/// items.
pub proof fn lemma_ilst_round_trip(c: Seq<u8>, p: int, vs: Seq<MetaItemView>)
    requires
        0 <= p,
        items_readable(vs),
        p + Ilst::bytes(vs).len() <= c.len(),
        c.subrange(p, p + Ilst::bytes(vs).len()) == Ilst::bytes(vs),
    ensures
        child_at(c, p) is Ok,
        child_at(c, p)->Ok_0.fourcc == Ident(ITEM_LIST),
        child_at(c, p)->Ok_0.spec_size().len == Ilst::bytes(vs).len(),
        Ilst::parsed(
            c,
            p + child_at(c, p)->Ok_0.spec_size().spec_head_len(),
            child_at(c, p)->Ok_0.spec_size(),
        ) == Ok::<Seq<MetaItemView>, ErrorView>(vs),
{
    reveal(Ilst::parsed);
    reveal(Ilst::bytes);
    let body = items_bytes(vs);
    lemma_boxed_child(c, p, Ident(ITEM_LIST), body);
    assert(body.subrange(0, body.len() as int) =~= body);
    lemma_items_parsed(body, 0, Seq::empty(), vs);
    assert(Seq::<MetaItemView>::empty() + vs =~= vs);
}

} // verus!
