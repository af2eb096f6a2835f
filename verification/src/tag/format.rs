//! What a tag says of the audio, in words.

use crate::audio::{ChannelConfig, Duration, SampleRate};
use crate::ident::push_char;
use crate::tag::Tag;
use vstd::prelude::*;
use vstd::string::*;

verus! {

/// The character of a decimal digit.
pub open spec fn digit(d: nat) -> char {
    ((48 + d) as u8) as char
}

/// The decimal digits of a number.
pub open spec fn digits(n: nat) -> Seq<char>
    decreases n,
{
    if n < 10 {
        seq![digit(n)]
    } else {
        digits(n / 10).push(digit(n % 10))
    }
}

/// The decimal digits of a number, with a zero in front of a single digit.
pub open spec fn two_digits(n: nat) -> Seq<char> {
    if n < 10 {
        seq!['0'] + digits(n)
    } else {
        digits(n)
    }
}

/// Appends the decimal digits of `n` to `s`.
pub fn push_decimal(s: &mut String, n: u64)
    ensures
        final(s)@ == old(s)@ + digits(n as nat),
    decreases n,
{
    if n >= 10 {
        push_decimal(s, n / 10);
    }
    push_char(s, (48 + (n % 10) as u8) as char);
    assert(s@ =~= old(s)@ + digits(n as nat));
}

/// Appends the decimal digits of `n` to `s`, with a zero in front of a
/// single digit.
pub fn push_two_digits(s: &mut String, n: u64)
    ensures
        final(s)@ == old(s)@ + two_digits(n as nat),
{
    if n < 10 {
        push_char(s, '0');
    }
    push_decimal(s, n);
    assert(s@ =~= old(s)@ + two_digits(n as nat));
}

/// A duration in words: in the largest unit of nanoseconds, microseconds,
/// milliseconds and seconds of which it has one, and from a minute on as
/// minutes and seconds, or hours, minutes and seconds.
pub open spec fn duration_text(d: Duration) -> Seq<char> {
    let seconds = (d.secs % 60) as nat;
    let minutes = (d.secs / 60 % 60) as nat;
    let hours = (d.secs / 3600) as nat;
    let nanos = d.nanos as nat;
    "duration: "@ + (if hours > 0 {
        digits(hours) + ":"@ + two_digits(minutes) + ":"@ + two_digits(seconds)
    } else if minutes > 0 {
        digits(minutes) + ":"@ + two_digits(seconds)
    } else if seconds > 0 {
        digits(seconds) + "s"@
    } else if nanos / 1_000_000 > 0 {
        digits(nanos / 1_000_000) + "ms"@
    } else if nanos / 1_000 > 0 {
        digits(nanos / 1_000) + "\u{b5}s"@
    } else {
        digits(nanos) + "ns"@
    }) + "\n"@
}

/// The name of a channel configuration.
pub open spec fn channel_config_text(c: ChannelConfig) -> Seq<char> {
    match c {
        ChannelConfig::Mono => "Mono"@,
        ChannelConfig::Stereo => "Stereo"@,
        ChannelConfig::Three => "3.0"@,
        ChannelConfig::Four => "4.0"@,
        ChannelConfig::Five => "5.0"@,
        ChannelConfig::FiveOne => "5.1"@,
        ChannelConfig::SevenOne => "7.1"@,
    }
}

/// A bitrate in words, in units of 1024 bits per second.
pub open spec fn bitrate_text(what: &str, rate: u32) -> Seq<char> {
    what@ + " bitrate: "@ + digits((rate / 1024) as nat) + "kbps\n"@
}

impl ChannelConfig {
    /// The name of the channel configuration.
    pub fn to_string(self) -> (r: String)
        ensures
            r@ == channel_config_text(self),
    {
        match self {
            ChannelConfig::Mono => "Mono".to_owned(),
            ChannelConfig::Stereo => "Stereo".to_owned(),
            ChannelConfig::Three => "3.0".to_owned(),
            ChannelConfig::Four => "4.0".to_owned(),
            ChannelConfig::Five => "5.0".to_owned(),
            ChannelConfig::FiveOne => "5.1".to_owned(),
            ChannelConfig::SevenOne => "7.1".to_owned(),
        }
    }
}

impl SampleRate {
    /// The sample rate in words.
    pub fn to_string(self) -> (r: String)
        ensures
            r@ == digits(self.spec_hz() as nat) + "Hz"@,
    {
        let mut s = String::new();
        push_decimal(&mut s, self.hz() as u64);
        s.append("Hz");
        assert(s@ =~= digits(self.spec_hz() as nat) + "Hz"@);
        s
    }
}

impl Tag {
    /// The duration in words, in a line of its own; nothing where it is not
    /// known.
    pub fn format_duration(&self) -> (r: String)
        ensures
            r@ == (match self.info.duration {
                Some(d) => duration_text(d),
                None => Seq::empty(),
            }),
    {
        let d = match self.duration() {
            Some(d) => d,
            None => {
                return String::new();
            },
        };
        let total = d.as_secs();
        let nanos = d.subsec_nanos() as u64;
        let seconds = total % 60;
        let minutes = total / 60 % 60;
        let hours = total / 60 / 60;
        assert(hours == total / 3600);
        let mut s = "duration: ".to_owned();
        let ghost head = s@;
        if hours > 0 {
            push_decimal(&mut s, hours);
            s.append(":");
            push_two_digits(&mut s, minutes);
            s.append(":");
            push_two_digits(&mut s, seconds);
            assert(s@ =~= head + (digits(hours as nat) + ":"@ + two_digits(minutes as nat) + ":"@
                + two_digits(seconds as nat)));
        } else if minutes > 0 {
            push_decimal(&mut s, minutes);
            s.append(":");
            push_two_digits(&mut s, seconds);
            assert(s@ =~= head + (digits(minutes as nat) + ":"@ + two_digits(seconds as nat)));
        } else if seconds > 0 {
            push_decimal(&mut s, seconds);
            s.append("s");
            assert(s@ =~= head + (digits(seconds as nat) + "s"@));
        } else if nanos / 1_000_000 > 0 {
            push_decimal(&mut s, nanos / 1_000_000);
            s.append("ms");
            assert(s@ =~= head + (digits((nanos / 1_000_000) as nat) + "ms"@));
        } else if nanos / 1_000 > 0 {
            push_decimal(&mut s, nanos / 1_000);
            s.append("\u{b5}s");
            assert(s@ =~= head + (digits((nanos / 1_000) as nat) + "\u{b5}s"@));
        } else {
            push_decimal(&mut s, nanos);
            s.append("ns");
            assert(s@ =~= head + (digits(nanos as nat) + "ns"@));
        }
        s.append("\n");
        s
    }

    /// The channel configuration in words, in a line of its own; nothing
    /// where it is not known.
    pub fn format_channel_config(&self) -> (r: String)
        ensures
            r@ == (match self.info.channel_config {
                Some(c) => "channel config: "@ + channel_config_text(c) + "\n"@,
                None => Seq::empty(),
            }),
    {
        match self.channel_config() {
            Some(c) => {
                let mut s = "channel config: ".to_owned();
                s.append(c.to_string().as_str());
                s.append("\n");
                s
            },
            None => String::new(),
        }
    }

    /// The sample rate in words, in a line of its own; nothing where it is
    /// not known.
    pub fn format_sample_rate(&self) -> (r: String)
        ensures
            r@ == (match self.info.sample_rate {
                Some(rate) => "sample rate: "@ + (digits(rate.spec_hz() as nat) + "Hz"@) + "\n"@,
                None => Seq::empty(),
            }),
    {
        match self.sample_rate() {
            Some(rate) => {
                let mut s = "sample rate: ".to_owned();
                s.append(rate.to_string().as_str());
                s.append("\n");
                s
            },
            None => String::new(),
        }
    }

    /// The average bitrate in words, in a line of its own; nothing where it
    /// is not known.
    pub fn format_avg_bitrate(&self) -> (r: String)
        ensures
            r@ == (match self.info.avg_bitrate {
                Some(rate) => bitrate_text("average", rate),
                None => Seq::empty(),
            }),
    {
        match self.avg_bitrate() {
            Some(rate) => {
                let mut s = "average".to_owned();
                s.append(" bitrate: ");
                push_decimal(&mut s, (rate / 1024) as u64);
                s.append("kbps\n");
                assert(s@ =~= bitrate_text("average", rate));
                s
            },
            None => String::new(),
        }
    }

    /// The highest bitrate in words, in a line of its own; nothing where it
    /// is not known.
    pub fn format_max_bitrate(&self) -> (r: String)
        ensures
            r@ == (match self.info.max_bitrate {
                Some(rate) => bitrate_text("maximum", rate),
                None => Seq::empty(),
            }),
    {
        match self.max_bitrate() {
            Some(rate) => {
                let mut s = "maximum".to_owned();
                s.append(" bitrate: ");
                push_decimal(&mut s, (rate / 1024) as u64);
                s.append("kbps\n");
                assert(s@ =~= bitrate_text("maximum", rate));
                s
            },
            None => String::new(),
        }
    }
}

} // verus!
