//! The tag of a file: its file type, what it says of its audio, and its
//! metadata items.

pub mod accessors;
pub mod format;

use crate::atom::ilst::item_views;
use crate::atom::metaitem::{data_views, MetaItem, MetaItemView};
use crate::audio::{AudioInfo, ChannelConfig, Duration, SampleRate};
use crate::codec::{be_u16, u16_be};
use crate::data::{Data, DataView};
use crate::ident::{DataIdent, DataIdentView};
use vstd::prelude::*;
use vstd::string::*;

verus! {

/// The tag of a file.
#[derive(Clone, Debug, PartialEq, Eq)]
pub struct Tag {
    /// The text of the file type atom, which starts with the brand.
    pub ftyp: String,
    /// What the file says of its audio.
    pub info: AudioInfo,
    /// The metadata items, in the order of the file.
    pub items: Vec<MetaItem>,
}

/// The mathematical value of a [`Tag`].
pub struct TagView {
    pub ftyp: Seq<char>,
    pub info: AudioInfo,
    pub items: Seq<MetaItemView>,
}

impl View for Tag {
    type V = TagView;

    open spec fn view(&self) -> TagView {
        TagView { ftyp: self.ftyp@, info: self.info, items: item_views(self.items@) }
    }
}

impl Tag {
    /// The tag with the given file type, audio information and items.
    pub fn new(ftyp: String, info: AudioInfo, items: Vec<MetaItem>) -> (r: Tag)
        ensures
            r == (Tag { ftyp, info, items }),
    {
        Tag { ftyp, info, items }
    }

    /// What the file says of its audio.
    pub fn audio_info(&self) -> (r: &AudioInfo)
        ensures
            *r == self.info,
    {
        &self.info
    }

    /// The duration of the movie.
    pub fn duration(&self) -> (r: Option<Duration>)
        ensures
            r == self.info.duration,
    {
        self.info.duration
    }

    /// The channel configuration.
    pub fn channel_config(&self) -> (r: Option<ChannelConfig>)
        ensures
            r == self.info.channel_config,
    {
        self.info.channel_config
    }

    /// The sample rate.
    pub fn sample_rate(&self) -> (r: Option<SampleRate>)
        ensures
            r == self.info.sample_rate,
    {
        self.info.sample_rate
    }

    /// The average bitrate.
    pub fn avg_bitrate(&self) -> (r: Option<u32>)
        ensures
            r == self.info.avg_bitrate,
    {
        self.info.avg_bitrate
    }

    /// The highest bitrate.
    pub fn max_bitrate(&self) -> (r: Option<u32>)
        ensures
            r == self.info.max_bitrate,
    {
        self.info.max_bitrate
    }

    /// The text of the file type atom (`ftyp`).
    pub fn filetype(&self) -> (r: &str)
        ensures
            r@ == self.ftyp@,
    {
        self.ftyp.as_str()
    }
}

/// The values of the items that `ident` identifies, in the order of the
/// items.
pub open spec fn data_of(items: Seq<MetaItemView>, ident: DataIdentView) -> Seq<DataView>
    decreases items.len(),
{
    if items.len() == 0 {
        Seq::empty()
    } else if items.last().ident == ident {
        data_of(items.drop_last(), ident) + items.last().data
    } else {
        data_of(items.drop_last(), ident)
    }
}

/// The items without those that `ident` identifies.
pub open spec fn without(items: Seq<MetaItemView>, ident: DataIdentView) -> Seq<MetaItemView>
    decreases items.len(),
{
    if items.len() == 0 {
        Seq::empty()
    } else if items.last().ident == ident {
        without(items.drop_last(), ident)
    } else {
        without(items.drop_last(), ident).push(items.last())
    }
}

/// The index of the first item at or behind `from` that `ident` identifies.
pub open spec fn first_item(items: Seq<MetaItemView>, ident: DataIdentView, from: int) -> Option<int>
    decreases items.len() - from,
{
    if from < 0 || from >= items.len() {
        None
    } else if items[from].ident == ident {
        Some(from)
    } else {
        first_item(items, ident, from + 1)
    }
}

/// The items with one more value for `ident`: the first item that `ident`
/// identifies holds it as its last value, or, where there is no such item, a
/// new last item holds it.
pub open spec fn added(items: Seq<MetaItemView>, ident: DataIdentView, data: DataView) -> Seq<
    MetaItemView,
> {
    match first_item(items, ident, 0) {
        Some(i) => items.update(i, MetaItemView { ident, data: items[i].data.push(data) }),
        None => items.push(MetaItemView { ident, data: seq![data] }),
    }
}

/// The identifier of the items with the four byte identifier `code`.
pub open spec fn fourcc(code: u32) -> DataIdentView {
    DataIdentView::Fourcc(crate::ident::Ident(code))
}

impl TagView {
    /// The tag without the items that `ident` identifies.
    pub open spec fn removed(self, ident: DataIdentView) -> TagView {
        TagView { items: without(self.items, ident), ..self }
    }

    /// The tag in which the one value is what `ident` identifies.
    pub open spec fn set(self, ident: DataIdentView, data: DataView) -> TagView {
        TagView {
            items: without(self.items, ident).push(MetaItemView { ident, data: seq![data] }),
            ..self
        }
    }

    /// The tag with one more value for `ident`.
    pub open spec fn added(self, ident: DataIdentView, data: DataView) -> TagView {
        TagView { items: added(self.items, ident, data), ..self }
    }

    /// The values of the items that `ident` identifies.
    pub open spec fn data(self, ident: DataIdentView) -> Seq<DataView> {
        data_of(self.items, ident)
    }
}

/// The text of the first of the values that is text.
pub open spec fn first_text(data: Seq<DataView>, from: int) -> Option<Seq<char>>
    decreases data.len() - from,
{
    if from < 0 || from >= data.len() {
        None
    } else {
        match data[from] {
            DataView::Utf8(s) => Some(s),
            DataView::Utf16(s) => Some(s),
            _ => first_text(data, from + 1),
        }
    }
}

/// The texts of the values that are text, in their order.
pub open spec fn texts(data: Seq<DataView>) -> Seq<Seq<char>>
    decreases data.len(),
{
    if data.len() == 0 {
        Seq::empty()
    } else {
        match data.last() {
            DataView::Utf8(s) => texts(data.drop_last()).push(s),
            DataView::Utf16(s) => texts(data.drop_last()).push(s),
            _ => texts(data.drop_last()),
        }
    }
}

/// The bytes of the first of the values, where it is a number or has no
/// declared type.
pub open spec fn first_bytes(data: Seq<DataView>) -> Option<Seq<u8>> {
    if data.len() == 0 {
        None
    } else {
        match data[0] {
            DataView::Reserved(v) => Some(v),
            DataView::BeSigned(v) => Some(v),
            _ => None,
        }
    }
}

/// The number of 16 bits that the first of the values holds in its first two
/// bytes.
pub open spec fn first_u16(data: Seq<DataView>) -> Option<u16> {
    match first_bytes(data) {
        Some(v) => if v.len() >= 2 {
            Some(be_u16(v))
        } else {
            None
        },
        None => None,
    }
}

/// Whether the first byte of the first of the values is 1.
pub open spec fn first_flag(data: Seq<DataView>) -> bool {
    match first_bytes(data) {
        Some(v) => v.len() >= 1 && v[0] == 1,
        None => false,
    }
}

/// The values that the references point to.
pub open spec fn ref_views(s: Seq<&Data>) -> Seq<DataView> {
    Seq::new(s.len(), |i: int| s[i]@)
}

/// The texts that the references point to.
pub open spec fn str_views(s: Seq<&str>) -> Seq<Seq<char>> {
    Seq::new(s.len(), |i: int| s[i]@)
}

/// The text of the value, where it is text.
pub fn data_text(data: &Data) -> (r: Option<&str>)
    ensures
        match data@ {
            DataView::Utf8(s) => r is Some && r->0@ == s,
            DataView::Utf16(s) => r is Some && r->0@ == s,
            _ => r is None,
        },
{
    match data {
        Data::Utf8(s) => Some(s.as_str()),
        Data::Utf16(s) => Some(s.as_str()),
        _ => None,
    }
}

impl Tag {
    /// The values of the items that `ident` identifies, in the order of the
    /// items.
    pub fn get(&self, ident: &DataIdent) -> (r: Vec<&Data>)
        ensures
            ref_views(r@) == data_of(self@.items, ident@),
    {
        let ghost items = self@.items;
        let mut out: Vec<&Data> = Vec::new();
        let mut i: usize = 0;
        assert(ref_views(out@) =~= data_of(items.take(0), ident@));
        while i < self.items.len()
            invariant
                i <= self.items.len(),
                items == self@.items,
                ref_views(out@) == data_of(items.take(i as int), ident@),
            decreases self.items.len() - i,
        {
            let item = &self.items[i];
            let ghost before = ref_views(out@);
            assert(items.take(i + 1).drop_last() =~= items.take(i as int));
            assert(items.take(i + 1).last() == item@);
            if item.ident.same(ident) {
                let mut j: usize = 0;
                while j < item.data.len()
                    invariant
                        j <= item.data.len(),
                        ref_views(out@) == before + item@.data.take(j as int),
                    decreases item.data.len() - j,
                {
                    let ghost prev = ref_views(out@);
                    out.push(&item.data[j]);
                    assert(ref_views(out@) =~= prev.push(item.data@[j as int]@));
                    assert(item@.data.take(j + 1) =~= item@.data.take(j as int).push(
                        item.data@[j as int]@,
                    ));
                    j += 1;
                }
                assert(item@.data.take(j as int) =~= item@.data);
            }
            i += 1;
        }
        assert(items.take(i as int) =~= items);
        out
    }

    /// Removes the items that `ident` identifies.
    pub fn remove(&mut self, ident: &DataIdent)
        ensures
            final(self)@ == old(self)@.removed(ident@),
            final(self).ftyp == old(self).ftyp,
            final(self).info == old(self).info,
    {
        let ghost items = self@.items;
        let mut kept: Vec<MetaItem> = Vec::new();
        let mut rest: Vec<MetaItem> = Vec::new();
        core::mem::swap(&mut self.items, &mut rest);
        let mut i: usize = 0;
        assert(item_views(kept@) =~= without(items.take(0), ident@));
        while i < rest.len()
            invariant
                i <= rest.len(),
                items == item_views(rest@),
                item_views(kept@) == without(items.take(i as int), ident@),
            decreases rest.len() - i,
        {
            assert(items.take(i + 1).drop_last() =~= items.take(i as int));
            assert(items.take(i + 1).last() == rest@[i as int]@);
            if !rest[i].ident.same(ident) {
                let item = rest[i].duplicate();
                assert(item_views(kept@.push(item)) =~= item_views(kept@).push(item@));
                kept.push(item);
            }
            i += 1;
        }
        assert(items.take(i as int) =~= items);
        self.items = kept;
    }

    /// Gives the items that `ident` identifies the one value: the items
    /// that it identified before are removed, and a new last item holds the
    /// value.
    pub fn set(&mut self, ident: DataIdent, data: Data)
        ensures
            final(self)@ == old(self)@.set(ident@, data@),
            final(self).ftyp == old(self).ftyp,
            final(self).info == old(self).info,
    {
        self.remove(&ident);
        let mut v: Vec<Data> = Vec::new();
        v.push(data);
        let item = MetaItem { ident, data: v };
        assert(item@.data =~= seq![data@]);
        assert(item_views(self.items@.push(item)) =~= item_views(self.items@).push(item@));
        self.items.push(item);
    }

    /// Adds a value for `ident`: the first item that `ident` identifies
    /// gets it as its last value, or, where there is no such item, a new
    /// last item holds it.
    pub fn add(&mut self, ident: DataIdent, data: Data)
        ensures
            final(self)@ == old(self)@.added(ident@, data@),
            final(self).ftyp == old(self).ftyp,
            final(self).info == old(self).info,
    {
        let ghost items = self@.items;
        let mut i: usize = 0;
        while i < self.items.len()
            invariant
                i <= self.items.len(),
                *self == *old(self),
                items == self@.items,
                first_item(items, ident@, i as int) == first_item(items, ident@, 0),
            decreases self.items.len() - i,
        {
            if self.items[i].ident.same(&ident) {
                let mut rest = self.items.split_off(i);
                let mut item = rest.remove(0);
                let ghost before = item@;
                assert(data_views(item.data@.push(data)) =~= data_views(item.data@).push(data@));
                item.data.push(data);
                let ghost head = self.items@;
                let ghost tail = rest@;
                self.items.push(item);
                self.items.append(&mut rest);
                assert(self.items@ =~= (head.push(item)) + tail);
                assert(item_views(self.items@) =~= items.update(
                    i as int,
                    MetaItemView { ident: ident@, data: items[i as int].data.push(data@) },
                )) by {
                    let got = item_views(self.items@);
                    let want = items.update(
                        i as int,
                        MetaItemView { ident: ident@, data: items[i as int].data.push(data@) },
                    );
                    assert(got.len() == want.len());
                    assert forall|k: int| 0 <= k < got.len() implies got[k] == want[k] by {
                        if k < i {
                            assert(self.items@[k] == old(self).items@[k]);
                        } else if k > i {
                            assert(self.items@[k] == old(self).items@[k]);
                        } else {
                        }
                    }
                }
                return ;
            }
            i += 1;
        }
        let mut v: Vec<Data> = Vec::new();
        v.push(data);
        let item = MetaItem { ident, data: v };
        assert(item@.data =~= seq![data@]);
        assert(item_views(self.items@.push(item)) =~= item_views(self.items@).push(item@));
        self.items.push(item);
    }

    /// The texts of the values of the items that `ident` identifies.
    pub fn strings(&self, ident: &DataIdent) -> (r: Vec<&str>)
        ensures
            str_views(r@) == texts(data_of(self@.items, ident@)),
    {
        let data = self.get(ident);
        let ghost all = ref_views(data@);
        let mut out: Vec<&str> = Vec::new();
        let mut i: usize = 0;
        assert(str_views(out@) =~= texts(all.take(0)));
        while i < data.len()
            invariant
                i <= data.len(),
                all == ref_views(data@),
                all == data_of(self@.items, ident@),
                str_views(out@) == texts(all.take(i as int)),
            decreases data.len() - i,
        {
            assert(all.take(i + 1).drop_last() =~= all.take(i as int));
            assert(all.take(i + 1).last() == data@[i as int]@);
            match data_text(data[i]) {
                Some(s) => {
                    let ghost prev = str_views(out@);
                    out.push(s);
                    assert(str_views(out@) =~= prev.push(s@));
                },
                None => {},
            }
            i += 1;
        }
        assert(all.take(i as int) =~= all);
        out
    }

    /// The text of the first value that is text of the items that `ident`
    /// identifies.
    pub fn string(&self, ident: &DataIdent) -> (r: Option<&str>)
        ensures
            match first_text(data_of(self@.items, ident@), 0) {
                Some(s) => r is Some && r->0@ == s,
                None => r is None,
            },
    {
        let data = self.get(ident);
        let ghost all = ref_views(data@);
        let mut i: usize = 0;
        while i < data.len()
            invariant
                i <= data.len(),
                all == ref_views(data@),
                all == data_of(self@.items, ident@),
                first_text(all, i as int) == first_text(all, 0),
            decreases data.len() - i,
        {
            assert(all[i as int] == data@[i as int]@);
            match data_text(data[i]) {
                Some(s) => {
                    assert(first_text(all, i as int) == Some(s@));
                    return Some(s);
                },
                None => {
                    assert(first_text(all, i as int) == first_text(all, i + 1));
                },
            }
            i += 1;
        }
        None
    }

    /// The number of 16 bits that the first value of the items holds that
    /// `ident` identifies: its first two bytes, where it is a number or has
    /// no declared type.
    pub fn u16_value(&self, ident: &DataIdent) -> (r: Option<u16>)
        ensures
            r == first_u16(data_of(self@.items, ident@)),
    {
        let data = self.get(ident);
        if data.len() == 0 {
            return None;
        }
        assert(ref_views(data@)[0] == data@[0]@);
        let v = match data[0] {
            Data::Reserved(v) => v,
            Data::BeSigned(v) => v,
            _ => {
                return None;
            },
        };
        if v.len() < 2 {
            return None;
        }
        Some(crate::codec::read_be_u16(v.as_slice()))
    }

    /// Whether the first value of the items that `ident` identifies says
    /// yes: its first byte is 1, where it is a number or has no declared
    /// type.
    pub fn flag(&self, ident: &DataIdent) -> (r: bool)
        ensures
            r == first_flag(data_of(self@.items, ident@)),
    {
        let data = self.get(ident);
        if data.len() == 0 {
            return false;
        }
        assert(ref_views(data@)[0] == data@[0]@);
        let v = match data[0] {
            Data::Reserved(v) => v,
            Data::BeSigned(v) => v,
            _ => {
                return false;
            },
        };
        v.len() >= 1 && v[0] == 1
    }

    /// Gives the items that `ident` identifies the one text.
    pub fn set_string(&mut self, ident: DataIdent, text: &str)
        ensures
            final(self)@ == old(self)@.set(ident@, DataView::Utf8(text@)),
    {
        self.set(ident, Data::Utf8(text.to_owned()));
    }

    /// Adds a text for `ident`.
    pub fn add_string(&mut self, ident: DataIdent, text: &str)
        ensures
            final(self)@ == old(self)@.added(ident@, DataView::Utf8(text@)),
    {
        self.add(ident, Data::Utf8(text.to_owned()));
    }

    /// Gives the items that `ident` identifies the one number of 16 bits,
    /// as two bytes, most significant first.
    pub fn set_u16(&mut self, ident: DataIdent, value: u16)
        ensures
            final(self)@ == old(self)@.set(ident@, DataView::BeSigned(u16_be(value))),
    {
        let mut v: Vec<u8> = Vec::new();
        crate::codec::put_be_u16(&mut v, value);
        assert(v@ =~= u16_be(value));
        self.set(ident, Data::BeSigned(v));
    }

    /// Sets or clears a flag: to set it, the items that `ident` identifies
    /// get the one value of the byte 1; to clear it, they are removed.
    pub fn set_flag(&mut self, ident: DataIdent, value: bool)
        ensures
            final(self)@ == (if value {
                old(self)@.set(ident@, DataView::BeSigned(seq![1u8]))
            } else {
                old(self)@.removed(ident@)
            }),
    {
        if value {
            let mut v: Vec<u8> = Vec::new();
            v.push(1);
            assert(v@ =~= seq![1u8]);
            self.set(ident, Data::BeSigned(v));
        } else {
            self.remove(&ident);
        }
    }
}

} // verus!
