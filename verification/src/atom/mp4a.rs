//! The MPEG-4 audio sample entry atom (`mp4a`) and the elementary stream
//! description that it holds.

use crate::atom::base::{boxed, child_at, content_of, next_child, plain_of, read, write_boxed};
use crate::atom::base::ReadConfig;
use crate::atom::zeros;
use crate::audio::{ChannelConfig, SampleRate};
use crate::codec::{put_be_u16, put_be_u32, put_u8, u16_be, u32_be};
use crate::error::{annotate, eof, error, Error, ErrorKind, ErrorKindView, ErrorView};
use crate::head::Size;
use crate::ident::{Ident, ELEMENTARY_STREAM_DESCRIPTION, MP4_AUDIO};
use crate::reader::{at16, at32, Reader};
use vstd::prelude::*;

verus! {

/// Tag of the elementary stream descriptor.
pub const ELEMENTARY_DESCRIPTOR: u8 = 3;
/// Tag of the decoder configuration descriptor.
pub const DECODER_CONFIG_DESCRIPTOR: u8 = 4;
/// Tag of the decoder specific descriptor.
pub const DECODER_SPECIFIC_DESCRIPTOR: u8 = 5;

/// An MPEG-4 audio sample entry: what its elementary stream description says
/// of the format of the audio.
#[derive(Clone, Copy, Debug, PartialEq, Eq, Structural)]
pub struct Mp4a {
    /// The channel configuration.
    pub channel_config: Option<ChannelConfig>,
    /// The sample rate.
    pub sample_rate: Option<SampleRate>,
    /// The highest bitrate.
    pub max_bitrate: Option<u32>,
    /// The average bitrate.
    pub avg_bitrate: Option<u32>,
}

/// The head of a descriptor: its tag, the length of the head, and the length
/// of what follows the head.
pub struct DescHead {
    pub tag: u8,
    pub head_len: int,
    pub len: int,
}

/// The length that stands at position `p` of `c` in the form of descriptors,
/// and the number of bytes that it takes: one to four bytes, each of which
/// gives seven bits, the most significant first, and all but the last of
/// which are 128 or more.
pub open spec fn desc_len_at(c: Seq<u8>, p: int) -> Result<(int, int), ErrorView> {
    if c.len() - p < 1 {
        Err(eof())
    } else if c[p] < 128 {
        Ok((1, c[p] as int))
    } else if c.len() - p < 2 {
        Err(eof())
    } else {
        let a = (c[p] % 128) * 128 + c[p + 1] % 128;
        if c[p + 1] < 128 {
            Ok((2, a))
        } else if c.len() - p < 3 {
            Err(eof())
        } else {
            let b = a * 128 + c[p + 2] % 128;
            if c[p + 2] < 128 {
                Ok((3, b))
            } else if c.len() - p < 4 {
                Err(eof())
            } else {
                Ok((4, b * 128 + c[p + 3] % 128))
            }
        }
    }
}

/// The head of the descriptor that stands at position `p` of `c`. A
/// descriptor that declares to reach beyond `c` is an error.
pub open spec fn desc_at(c: Seq<u8>, p: int) -> Result<DescHead, ErrorView> {
    if c.len() - p < 1 {
        Err(eof())
    } else {
        match desc_len_at(c, p + 1) {
            Err(e) => Err(e),
            Ok(l) => if 1 + l.0 + l.1 > c.len() - p {
                Err(error(ErrorKindView::Parsing, "Descriptor reaches beyond what holds it"))
            } else {
                Ok(DescHead { tag: c[p], head_len: 1 + l.0, len: l.1 })
            },
        }
    }
}

/// What the content `d` of a decoder specific descriptor adds to `acc`: the
/// sample rate and the channel configuration, which stand in its first 16
/// bits behind the five bits of the object type, in four bits each.
pub open spec fn ds_decoded(d: Seq<u8>, acc: Mp4a) -> Result<Mp4a, ErrorView> {
    if d.len() < 2 {
        Err(eof())
    } else {
        Ok(
            Mp4a {
                sample_rate: SampleRate::of_index((at16(d, 0) / 128 % 16) as int),
                channel_config: ChannelConfig::of_code((at16(d, 0) / 8 % 16) as int),
                ..acc
            },
        )
    }
}

/// What the descriptors from position `p` of the content `d` of a decoder
/// configuration descriptor add to `acc`.
pub open spec fn dc_parts(d: Seq<u8>, p: int, acc: Mp4a) -> Result<Mp4a, ErrorView>
    decreases d.len() - p,
{
    if p >= d.len() {
        Ok(acc)
    } else {
        match desc_at(d, p) {
            Err(e) => Err(e),
            Ok(h) => {
                let cp = p + h.head_len;
                let next = cp + h.len;
                if h.tag == DECODER_SPECIFIC_DESCRIPTOR {
                    match ds_decoded(d.subrange(cp, next), acc) {
                        Err(e) => Err(e),
                        Ok(v) => dc_parts(d, next, v),
                    }
                } else {
                    dc_parts(d, next, acc)
                }
            },
        }
    }
}

/// What the content `d` of a decoder configuration descriptor adds to `acc`:
/// the highest and the average bitrate, which follow five bytes that are
/// passed over, and what its decoder specific descriptor says.
pub open spec fn dc_decoded(d: Seq<u8>, acc: Mp4a) -> Result<Mp4a, ErrorView> {
    if d.len() < 13 {
        Err(eof())
    } else {
        dc_parts(
            d,
            13,
            Mp4a { max_bitrate: Some(at32(d, 5)), avg_bitrate: Some(at32(d, 9)), ..acc },
        )
    }
}

/// What the descriptors from position `p` of the content `d` of an
/// elementary stream descriptor add to `acc`.
pub open spec fn es_parts(d: Seq<u8>, p: int, acc: Mp4a) -> Result<Mp4a, ErrorView>
    decreases d.len() - p,
{
    if p >= d.len() {
        Ok(acc)
    } else {
        match desc_at(d, p) {
            Err(e) => Err(e),
            Ok(h) => {
                let cp = p + h.head_len;
                let next = cp + h.len;
                if h.tag == DECODER_CONFIG_DESCRIPTOR {
                    match dc_decoded(d.subrange(cp, next), acc) {
                        Err(e) => Err(e),
                        Ok(v) => es_parts(d, next, v),
                    }
                } else {
                    es_parts(d, next, acc)
                }
            },
        }
    }
}

/// The sample entry of which nothing is known.
pub open spec fn unknown() -> Mp4a {
    Mp4a { channel_config: None, sample_rate: None, max_bitrate: None, avg_bitrate: None }
}

/// What the content `e` of an elementary stream description atom says:
/// behind the version and flags stands the elementary stream descriptor,
/// whose first three bytes are passed over.
pub open spec fn esds_decoded(e: Seq<u8>) -> Result<Mp4a, ErrorView> {
    if e.len() < 4 {
        Err(eof())
    } else if e[0] != 0 {
        Err(
            error(
                ErrorKindView::UnknownVersion(e[0]),
                "Unknown elementary stream description (esds) version",
            ),
        )
    } else {
        match desc_at(e, 4) {
            Err(err) => Err(err),
            Ok(h) => if h.tag != ELEMENTARY_DESCRIPTOR {
                Err(error(ErrorKindView::Parsing, "Missing elementary stream descriptor"))
            } else if h.len < 3 {
                Err(eof())
            } else {
                es_parts(e.subrange(4 + h.head_len, 4 + h.head_len + h.len), 3, unknown())
            },
        }
    }
}

/// The bytes of a descriptor with the tag `tag` and a content of fewer than
/// 128 bytes.
pub open spec fn desc_bytes(tag: u8, content: Seq<u8>) -> Seq<u8> {
    seq![tag, content.len() as u8] + content
}

impl Mp4a {
    /// The parts fit together as they do in a file: both bitrates are known
    /// or neither is, and the sample rate or the channel configuration is
    /// only known where the bitrates are.
    pub open spec fn wf(self) -> bool {
        &&& self.max_bitrate is Some <==> self.avg_bitrate is Some
        &&& self.sample_rate is Some || self.channel_config is Some ==> self.max_bitrate is Some
    }

    /// What the content `c` of a sample entry says: behind 28 bytes that are
    /// passed over stands the elementary stream description atom.
    pub open spec fn decode(c: Seq<u8>) -> Result<Mp4a, ErrorView> {
        if c.len() < 28 {
            Err(eof())
        } else {
            match child_at(c, 28) {
                Err(e) => Err(e),
                Ok(h) => if h.fourcc != Ident(ELEMENTARY_STREAM_DESCRIPTION) {
                    Err(
                        error(
                            ErrorKindView::AtomNotFound(Ident(ELEMENTARY_STREAM_DESCRIPTION)),
                            "Missing esds atom",
                        ),
                    )
                } else {
                    esds_decoded(
                        c.subrange(
                            28 + h.spec_size().spec_head_len(),
                            28 + h.spec_size().len as int,
                        ),
                    )
                },
            }
        }
    }

    /// What reading a sample entry gives whose content starts at position `p`
    /// of the stream `s`.
    #[verifier::opaque]
    pub open spec fn parsed(s: Seq<u8>, p: int, size: Size) -> Result<Mp4a, ErrorView> {
        annotate(
            "parsing",
            Ident(MP4_AUDIO),
            match content_of(s, p, size) {
                None => Err(eof()),
                Some(c) => Mp4a::decode(c),
            },
        )
    }

    /// The content of the decoder specific descriptor as it is written: the
    /// object type 2, the frequency index of the sample rate or 15 where it
    /// is not known, and the code of the channel configuration or 0.
    pub open spec fn ds_content(self) -> Seq<u8> {
        u16_be(
            (4096 + 128 * (match self.sample_rate {
                Some(r) => r.spec_index() as int,
                None => 15,
            }) + 8 * (match self.channel_config {
                Some(c) => c.spec_code() as int,
                None => 0,
            })) as u16,
        )
    }

    /// The content of the decoder configuration descriptor as it is written.
    pub open spec fn dc_content(self) -> Seq<u8> {
        zeros(5) + u32_be(self.max_bitrate->0) + u32_be(self.avg_bitrate->0)
            + (if self.sample_rate is Some
            || self.channel_config is Some {
            desc_bytes(DECODER_SPECIFIC_DESCRIPTOR, self.ds_content())
        } else {
            Seq::empty()
        })
    }

    /// The content of the elementary stream descriptor as it is written.
    pub open spec fn es_content(self) -> Seq<u8> {
        zeros(3) + (if self.max_bitrate is Some {
            desc_bytes(DECODER_CONFIG_DESCRIPTOR, self.dc_content())
        } else {
            Seq::empty()
        })
    }

    /// The content of the sample entry as it is written: 28 bytes of zero,
    /// and the elementary stream description atom.
    pub open spec fn content_bytes(self) -> Seq<u8> {
        zeros(28) + boxed(
            Ident(ELEMENTARY_STREAM_DESCRIPTION),
            zeros(4) + desc_bytes(ELEMENTARY_DESCRIPTOR, self.es_content()),
        )
    }

    /// The bytes of the atom.
    #[verifier::opaque]
    pub open spec fn bytes(self) -> Seq<u8> {
        boxed(Ident(MP4_AUDIO), self.content_bytes())
    }

    /// Reads a sample entry: the cursor stands behind its head, which
    /// declared the size `size`.
    pub fn parse(reader: &mut Reader, cfg: &ReadConfig, size: Size) -> (r: Result<Mp4a, Error>)
        requires
            old(reader).wf(),
            size.wf(),
        ensures
            read(
                Mp4a::parsed(old(reader).data@, old(reader).pos as int, size),
                plain_of(r),
                old(reader),
                final(reader),
                size.spec_content_len(),
            ),
    {
        proof {
            reveal(Mp4a::parsed);
        }
        let mut content = match reader.take(size.content_len()) {
            Ok(c) => c,
            Err(e) => {
                return Err(e.annotate("parsing", Ident(MP4_AUDIO)));
            },
        };
        match Mp4a::parse_atom(&mut content) {
            Ok(v) => Ok(v),
            Err(e) => Err(e.annotate("parsing", Ident(MP4_AUDIO))),
        }
    }

    /// Reads the content of a sample entry, which the cursor is over.
    pub fn parse_atom(content: &mut Reader) -> (r: Result<Mp4a, Error>)
        requires
            old(content).wf(),
            old(content).pos == 0,
        ensures
            plain_of(r) == Mp4a::decode(old(content).data@),
            final(content).same_stream(old(content)),
    {
        content.skip(28)?;
        let head = next_child(content)?;
        if head.fourcc.0 != ELEMENTARY_STREAM_DESCRIPTION {
            return Err(
                Error::new(
                    ErrorKind::AtomNotFound(Ident(ELEMENTARY_STREAM_DESCRIPTION)),
                    "Missing esds atom",
                ),
            );
        }
        let mut esds = match content.take(head.content_len()) {
            Ok(c) => c,
            Err(e) => {
                return Err(e);
            },
        };
        parse_esds(&mut esds)
    }

    /// The atom has at most 72 bytes.
    pub proof fn lemma_len(self)
        requires
            self.wf(),
        ensures
            self.bytes().len() <= 72,
    {
        reveal(Mp4a::bytes);
    }

    /// The size of the atom.
    pub fn size(&self) -> (r: Size)
        requires
            self.wf(),
        ensures
            r == Size::of(self.content_bytes().len() as int),
            r.len == self.bytes().len(),
    {
        proof {
            reveal(Mp4a::bytes);
        }
        let ds: u64 = if self.sample_rate.is_some() || self.channel_config.is_some() {
            4
        } else {
            0
        };
        let dc: u64 = if self.max_bitrate.is_some() {
            15 + ds
        } else {
            0
        };
        Size::from(28 + 8 + 4 + 2 + 3 + dc)
    }

    /// The length of the atom in bytes.
    pub fn len(&self) -> (r: u64)
        requires
            self.wf(),
        ensures
            r == self.bytes().len(),
    {
        self.size().len()
    }

    /// Writes the atom.
    pub fn write(&self, out: &mut Vec<u8>)
        requires
            self.wf(),
        ensures
            final(out)@ == old(out)@ + self.bytes(),
    {
        proof {
            reveal(Mp4a::bytes);
        }
        let mut es: Vec<u8> = Vec::new();
        crate::atom::put_zeros(&mut es, 3);
        match self.max_bitrate {
            Some(max) => {
                let mut dc: Vec<u8> = Vec::new();
                crate::atom::put_zeros(&mut dc, 5);
                put_be_u32(&mut dc, max);
                match self.avg_bitrate {
                    Some(avg) => put_be_u32(&mut dc, avg),
                    None => {},
                }
                if self.sample_rate.is_some() || self.channel_config.is_some() {
                    let index: u16 = match self.sample_rate {
                        Some(r) => r.index() as u16,
                        None => 15,
                    };
                    let code: u16 = match self.channel_config {
                        Some(c) => c.code() as u16,
                        None => 0,
                    };
                    let mut ds: Vec<u8> = Vec::new();
                    put_be_u16(&mut ds, 4096 + 128 * index + 8 * code);
                    assert(ds@ =~= self.ds_content());
                    write_desc(&mut dc, DECODER_SPECIFIC_DESCRIPTOR, &ds);
                }
                assert(dc@ =~= self.dc_content());
                write_desc(&mut es, DECODER_CONFIG_DESCRIPTOR, &dc);
            },
            None => {},
        }
        assert(es@ =~= self.es_content());
        let mut esds: Vec<u8> = Vec::new();
        crate::atom::put_zeros(&mut esds, 4);
        write_desc(&mut esds, ELEMENTARY_DESCRIPTOR, &es);
        let mut body: Vec<u8> = Vec::new();
        crate::atom::put_zeros(&mut body, 28);
        write_boxed(&mut body, Ident(ELEMENTARY_STREAM_DESCRIPTION), &esds);
        assert(body@ =~= self.content_bytes());
        write_boxed(out, Ident(MP4_AUDIO), &body);
    }
}

/// Writes a descriptor with the tag `tag` and a content of fewer than 128
/// bytes.
pub fn write_desc(out: &mut Vec<u8>, tag: u8, content: &Vec<u8>)
    requires
        content@.len() < 128,
    ensures
        final(out)@ == old(out)@ + desc_bytes(tag, content@),
{
    put_u8(out, tag);
    put_u8(out, content.len() as u8);
    out.extend_from_slice(content.as_slice());
    assert(out@ =~= old(out)@ + desc_bytes(tag, content@));
}

/// Reads the head of the next descriptor: its tag and the length of what
/// follows the head.
pub fn next_desc(content: &mut Reader) -> (r: Result<(u8, u64), Error>)
    requires
        old(content).wf(),
    ensures
        match r {
            Ok(h) => desc_at(old(content).data@, old(content).pos as int) is Ok && ({
                let d = desc_at(old(content).data@, old(content).pos as int)->Ok_0;
                d.tag == h.0 && d.len == h.1 && final(content).moved(old(content), d.head_len)
                    && h.1 <= final(content).left()
            }),
            Err(e) => desc_at(old(content).data@, old(content).pos as int) == Err::<
                DescHead,
                ErrorView,
            >(e@) && final(content).same_stream(old(content)),
        },
{
    let left = content.remaining();
    let tag = content.read_u8()?;
    let b0 = content.read_u8()?;
    let mut len: u64 = (b0 % 128) as u64;
    let mut count: u64 = 1;
    if b0 >= 128 {
        let b1 = content.read_u8()?;
        len = len * 128 + (b1 % 128) as u64;
        count = 2;
        if b1 >= 128 {
            let b2 = content.read_u8()?;
            len = len * 128 + (b2 % 128) as u64;
            count = 3;
            if b2 >= 128 {
                let b3 = content.read_u8()?;
                len = len * 128 + (b3 % 128) as u64;
                count = 4;
            }
        }
    }
    if 1 + count + len > left {
        return Err(Error::new(ErrorKind::Parsing, "Descriptor reaches beyond what holds it"));
    }
    Ok((tag, len))
}

/// Reads the content of a decoder specific descriptor, which the cursor is
/// over.
pub fn parse_ds(content: &mut Reader, acc: Mp4a) -> (r: Result<Mp4a, Error>)
    requires
        old(content).wf(),
        old(content).pos == 0,
    ensures
        plain_of(r) == ds_decoded(old(content).data@, acc),
        final(content).same_stream(old(content)),
{
    let num = content.read_be_u16()?;
    Ok(
        Mp4a {
            sample_rate: SampleRate::from_index((num / 128 % 16) as u8),
            channel_config: ChannelConfig::from_code((num / 8 % 16) as u8),
            ..acc
        },
    )
}

/// Reads the content of a decoder configuration descriptor, which the cursor
/// is over.
pub fn parse_dc(content: &mut Reader, acc: Mp4a) -> (r: Result<Mp4a, Error>)
    requires
        old(content).wf(),
        old(content).pos == 0,
    ensures
        plain_of(r) == dc_decoded(old(content).data@, acc),
        final(content).same_stream(old(content)),
{
    let ghost d = content.data@;
    if content.remaining() < 13 {
        return Err(Error::eof());
    }
    content.skip(5)?;
    let max = content.read_be_u32()?;
    let avg = content.read_be_u32()?;
    let mut v = Mp4a { max_bitrate: Some(max), avg_bitrate: Some(avg), ..acc };
    while content.remaining() > 0
        invariant
            content.same_stream(old(content)),
            d == content.data@,
            dc_parts(d, content.pos as int, v) == dc_decoded(d, acc),
        decreases content.left(),
    {
        let (tag, len) = match next_desc(content) {
            Ok(h) => h,
            Err(e) => {
                return Err(e);
            },
        };
        let mut sub = match content.take(len) {
            Ok(s) => s,
            Err(e) => {
                return Err(e);
            },
        };
        if tag == DECODER_SPECIFIC_DESCRIPTOR {
            match parse_ds(&mut sub, v) {
                Ok(n) => {
                    v = n;
                },
                Err(e) => {
                    return Err(e);
                },
            }
        }
    }
    Ok(v)
}

/// Reads the content of an elementary stream descriptor, which the cursor is
/// over.
pub fn parse_es(content: &mut Reader) -> (r: Result<Mp4a, Error>)
    requires
        old(content).wf(),
        old(content).pos == 0,
        old(content).data@.len() >= 3,
    ensures
        plain_of(r) == es_parts(old(content).data@, 3, unknown()),
        final(content).same_stream(old(content)),
{
    let ghost d = content.data@;
    content.skip(3)?;
    let mut v = Mp4a {
        channel_config: None,
        sample_rate: None,
        max_bitrate: None,
        avg_bitrate: None,
    };
    while content.remaining() > 0
        invariant
            content.same_stream(old(content)),
            d == content.data@,
            es_parts(d, content.pos as int, v) == es_parts(d, 3, unknown()),
        decreases content.left(),
    {
        let (tag, len) = match next_desc(content) {
            Ok(h) => h,
            Err(e) => {
                return Err(e);
            },
        };
        let mut sub = match content.take(len) {
            Ok(s) => s,
            Err(e) => {
                return Err(e);
            },
        };
        if tag == DECODER_CONFIG_DESCRIPTOR {
            match parse_dc(&mut sub, v) {
                Ok(n) => {
                    v = n;
                },
                Err(e) => {
                    return Err(e);
                },
            }
        }
    }
    Ok(v)
}

/// Reads the content of an elementary stream description atom, which the
/// cursor is over.
pub fn parse_esds(content: &mut Reader) -> (r: Result<Mp4a, Error>)
    requires
        old(content).wf(),
        old(content).pos == 0,
    ensures
        plain_of(r) == esds_decoded(old(content).data@),
        final(content).same_stream(old(content)),
{
    let (version, _) = crate::head::parse_full_head(content)?;
    if version != 0 {
        return Err(
            Error::new(
                ErrorKind::UnknownVersion(version),
                "Unknown elementary stream description (esds) version",
            ),
        );
    }
    let (tag, len) = next_desc(content)?;
    if tag != ELEMENTARY_DESCRIPTOR {
        return Err(Error::new(ErrorKind::Parsing, "Missing elementary stream descriptor"));
    }
    if len < 3 {
        return Err(Error::eof());
    }
    let mut es = match content.take(len) {
        Ok(s) => s,
        Err(e) => {
            return Err(e);
        },
    };
    parse_es(&mut es)
}

/// The head that is read where the bytes of a descriptor with a content of
/// fewer than 128 bytes stand is that of the descriptor.
pub proof fn lemma_desc_at(c: Seq<u8>, p: int, tag: u8, content: Seq<u8>)
    requires
        0 <= p,
        content.len() < 128,
        p + 2 + content.len() <= c.len(),
        c.subrange(p, p + 2 + content.len()) == desc_bytes(tag, content),
    ensures
        desc_at(c, p) is Ok,
        desc_at(c, p)->Ok_0.tag == tag,
        desc_at(c, p)->Ok_0.head_len == 2,
        desc_at(c, p)->Ok_0.len == content.len(),
        c.subrange(p + 2, p + 2 + content.len()) == content,
{
    let d = desc_bytes(tag, content);
    assert(c[p] == c.subrange(p, p + 2 + content.len())[0]);
    assert(c[p + 1] == c.subrange(p, p + 2 + content.len())[1]);
    assert(c.subrange(p + 2, p + 2 + content.len()) =~= d.subrange(2, d.len() as int));
    assert(d.subrange(2, d.len() as int) =~= content);
}

/// Reading the decoder specific descriptor back from what is written of
/// it gives the sample rate and the channel configuration.
pub proof fn lemma_ds_decoded(v: Mp4a, acc: Mp4a)
    ensures
        ds_decoded(v.ds_content(), acc) == Ok::<Mp4a, ErrorView>(
            Mp4a { sample_rate: v.sample_rate, channel_config: v.channel_config, ..acc },
        ),
        v.ds_content().len() == 2,
{
    let index: int = match v.sample_rate {
        Some(r) => r.spec_index() as int,
        None => 15,
    };
    let code: int = match v.channel_config {
        Some(c) => c.spec_code() as int,
        None => 0,
    };
    let num = (4096 + 128 * index + 8 * code) as u16;
    crate::codec::lemma_be_u16_of_bytes(num);
    let d = v.ds_content();
    assert(d.subrange(0, 2) =~= d);
    assert(num / 128 % 16 == index);
    assert(num / 8 % 16 == code);
}

/// Reading the decoder configuration descriptor back from what is written
/// of it gives the bitrates, the sample rate and the channel configuration.
pub proof fn lemma_dc_decoded(v: Mp4a)
    requires
        v.wf(),
        v.max_bitrate is Some,
    ensures
        dc_decoded(v.dc_content(), unknown()) == Ok::<Mp4a, ErrorView>(v),
        v.dc_content().len() <= 17,
{
    let d = v.dc_content();
    let max = v.max_bitrate->0;
    let avg = v.avg_bitrate->0;
    crate::codec::lemma_be_u32_of_bytes(max);
    crate::codec::lemma_be_u32_of_bytes(avg);
    assert(d.subrange(5, 9) =~= u32_be(max));
    assert(d.subrange(9, 13) =~= u32_be(avg));
    let acc = Mp4a { max_bitrate: Some(max), avg_bitrate: Some(avg), ..unknown() };
    lemma_ds_decoded(v, acc);
    if v.sample_rate is Some || v.channel_config is Some {
        let ds = v.ds_content();
        assert(d.subrange(13, 17) =~= desc_bytes(DECODER_SPECIFIC_DESCRIPTOR, ds));
        lemma_desc_at(d, 13, DECODER_SPECIFIC_DESCRIPTOR, ds);
        assert(dc_parts(d, 13, acc) == dc_parts(d, 17, v));
    } else {
        assert(v == acc);
    }
}

/// Reading the elementary stream descriptor back from what is written of
/// it gives the sample entry.
pub proof fn lemma_es_decoded(v: Mp4a)
    requires
        v.wf(),
    ensures
        es_parts(v.es_content(), 3, unknown()) == Ok::<Mp4a, ErrorView>(v),
        3 <= v.es_content().len() <= 22,
{
    let e = v.es_content();
    if v.max_bitrate is Some {
        let dc = v.dc_content();
        lemma_dc_decoded(v);
        assert(e.subrange(3, 3 + 2 + dc.len() as int) =~= desc_bytes(DECODER_CONFIG_DESCRIPTOR, dc));
        lemma_desc_at(e, 3, DECODER_CONFIG_DESCRIPTOR, dc);
        assert(es_parts(e, 3, unknown()) == es_parts(e, e.len() as int, v));
    } else {
        assert(v == unknown());
    }
}

impl Mp4a {
    /// Reading a sample entry back from the content that is written of it
    /// gives the sample entry.
    pub proof fn lemma_decode(self)
        requires
            self.wf(),
        ensures
            Mp4a::decode(self.content_bytes()) == Ok::<Mp4a, ErrorView>(self),
    {
        let c = self.content_bytes();
        let es = self.es_content();
        lemma_es_decoded(self);
        let esds = zeros(4) + desc_bytes(ELEMENTARY_DESCRIPTOR, es);
        let b = boxed(Ident(ELEMENTARY_STREAM_DESCRIPTION), esds);
        crate::atom::base::lemma_boxed_bounds(Ident(ELEMENTARY_STREAM_DESCRIPTION), esds);
        assert(c.subrange(28, 28 + b.len() as int) =~= b);
        crate::atom::base::lemma_boxed_child(c, 28, Ident(ELEMENTARY_STREAM_DESCRIPTION), esds);
        let h = child_at(c, 28)->Ok_0;
        let got = c.subrange(
            28 + h.spec_size().spec_head_len(),
            28 + h.spec_size().len as int,
        );
        assert(got =~= esds);
        assert(esds.subrange(4, 4 + 2 + es.len() as int) =~= desc_bytes(ELEMENTARY_DESCRIPTOR, es));
        lemma_desc_at(esds, 4, ELEMENTARY_DESCRIPTOR, es);
    }
}

/// Reading the atom back from where its bytes stand gives the atom.
pub proof fn lemma_mp4a_round_trip(c: Seq<u8>, p: int, v: Mp4a)
    requires
        0 <= p,
        v.wf(),
        p + v.bytes().len() <= c.len(),
        c.subrange(p, p + v.bytes().len()) == v.bytes(),
    ensures
        crate::atom::base::stands_at(c, p, Ident(MP4_AUDIO), v.bytes().len() as int),
        Mp4a::parsed(c, crate::atom::base::content_at(c, p), crate::atom::base::size_at(c, p))
            == Ok::<Mp4a, ErrorView>(v),
{
    reveal(Mp4a::parsed);
    reveal(Mp4a::bytes);
    v.lemma_len();
    crate::atom::base::lemma_boxed_bounds(Ident(MP4_AUDIO), v.content_bytes());
    crate::atom::base::lemma_boxed_child(c, p, Ident(MP4_AUDIO), v.content_bytes());
    v.lemma_decode();
}

} // verus!
