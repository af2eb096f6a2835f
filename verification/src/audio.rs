//! What a file says of its audio: the duration and the format.

use vstd::prelude::*;

verus! {

/// The number of nanoseconds in a second.
pub const NANOS_PER_SEC: u32 = 1_000_000_000;

/// A span of time: whole seconds, and nanoseconds below one second.
#[derive(Clone, Copy, Debug, PartialEq, Eq, Hash, Structural)]
pub struct Duration {
    /// The whole seconds.
    pub secs: u64,
    /// The nanoseconds beyond the whole seconds: fewer than a second.
    pub nanos: u32,
}

impl Duration {
    /// The nanoseconds are fewer than a second.
    pub open spec fn wf(self) -> bool {
        self.nanos < 1_000_000_000
    }

    /// The span in nanoseconds.
    pub open spec fn total_nanos(self) -> int {
        self.secs * 1_000_000_000 + self.nanos
    }

    /// The span of the given number of nanoseconds.
    pub open spec fn of_nanos(nanos: int) -> Duration {
        Duration {
            secs: (nanos / 1_000_000_000) as u64,
            nanos: (nanos % 1_000_000_000) as u32,
        }
    }

    /// The span of `units` units of time of which `timescale` make a second,
    /// to the nanosecond below.
    pub open spec fn scaled(units: u64, timescale: u32) -> Duration {
        Duration::of_nanos(units * 1_000_000_000 / timescale as int)
    }

    /// The span of the given number of nanoseconds.
    pub fn from_nanos(nanos: u64) -> (r: Duration)
        ensures
            r == Duration::of_nanos(nanos as int),
            r.wf(),
            r.total_nanos() == nanos,
    {
        let secs = nanos / 1_000_000_000;
        let rest = nanos % 1_000_000_000;
        assert(nanos == secs * 1_000_000_000 + rest);
        Duration { secs, nanos: rest as u32 }
    }

    /// The span of `units` units of time of which `timescale` make a second,
    /// to the nanosecond below.
    pub fn from_scaled(units: u64, timescale: u32) -> (r: Duration)
        requires
            timescale > 0,
        ensures
            r == Duration::scaled(units, timescale),
            r.wf(),
    {
        let product: u128 = (units as u128) * (NANOS_PER_SEC as u128);
        let nanos: u128 = product / (timescale as u128);
        assert(nanos <= product) by (nonlinear_arith)
            requires
                nanos == product / (timescale as u128),
                timescale > 0,
        ;
        assert(product / 1_000_000_000 == units) by (nonlinear_arith)
            requires
                product == units * 1_000_000_000,
        ;
        let secs: u128 = nanos / (NANOS_PER_SEC as u128);
        Duration { secs: secs as u64, nanos: (nanos % (NANOS_PER_SEC as u128)) as u32 }
    }

    /// The whole seconds of the span.
    pub fn as_secs(&self) -> (r: u64)
        ensures
            r == self.secs,
    {
        self.secs
    }

    /// The nanoseconds of the span beyond its whole seconds.
    pub fn subsec_nanos(&self) -> (r: u32)
        ensures
            r == self.nanos,
    {
        self.nanos
    }
}

/// The channel configuration of an audio track.
#[derive(Clone, Copy, Debug, PartialEq, Eq, Hash, Structural)]
pub enum ChannelConfig {
    /// One channel.
    Mono,
    /// Two channels.
    Stereo,
    /// Three channels.
    Three,
    /// Four channels.
    Four,
    /// Five channels.
    Five,
    /// Five channels and one for low frequencies.
    FiveOne,
    /// Seven channels and one for low frequencies.
    SevenOne,
}

impl ChannelConfig {
    /// The configuration that the code stands for: 1 to 7.
    pub open spec fn of_code(code: int) -> Option<ChannelConfig> {
        if code == 1 {
            Some(ChannelConfig::Mono)
        } else if code == 2 {
            Some(ChannelConfig::Stereo)
        } else if code == 3 {
            Some(ChannelConfig::Three)
        } else if code == 4 {
            Some(ChannelConfig::Four)
        } else if code == 5 {
            Some(ChannelConfig::Five)
        } else if code == 6 {
            Some(ChannelConfig::FiveOne)
        } else if code == 7 {
            Some(ChannelConfig::SevenOne)
        } else {
            None
        }
    }

    /// The code of the configuration.
    pub open spec fn spec_code(self) -> u8 {
        match self {
            ChannelConfig::Mono => 1,
            ChannelConfig::Stereo => 2,
            ChannelConfig::Three => 3,
            ChannelConfig::Four => 4,
            ChannelConfig::Five => 5,
            ChannelConfig::FiveOne => 6,
            ChannelConfig::SevenOne => 7,
        }
    }

    /// The number of channels.
    pub open spec fn spec_channel_count(self) -> u8 {
        match self {
            ChannelConfig::Mono => 1,
            ChannelConfig::Stereo => 2,
            ChannelConfig::Three => 3,
            ChannelConfig::Four => 4,
            ChannelConfig::Five => 5,
            ChannelConfig::FiveOne => 6,
            ChannelConfig::SevenOne => 8,
        }
    }

    /// The configuration that the code stands for.
    pub fn from_code(code: u8) -> (r: Option<ChannelConfig>)
        ensures
            r == ChannelConfig::of_code(code as int),
    {
        if code == 1 {
            Some(ChannelConfig::Mono)
        } else if code == 2 {
            Some(ChannelConfig::Stereo)
        } else if code == 3 {
            Some(ChannelConfig::Three)
        } else if code == 4 {
            Some(ChannelConfig::Four)
        } else if code == 5 {
            Some(ChannelConfig::Five)
        } else if code == 6 {
            Some(ChannelConfig::FiveOne)
        } else if code == 7 {
            Some(ChannelConfig::SevenOne)
        } else {
            None
        }
    }

    /// The code of the configuration.
    #[verifier::when_used_as_spec(spec_code)]
    pub fn code(self) -> (r: u8)
        ensures
            r == self.spec_code(),
            ChannelConfig::of_code(r as int) == Some(self),
    {
        match self {
            ChannelConfig::Mono => 1,
            ChannelConfig::Stereo => 2,
            ChannelConfig::Three => 3,
            ChannelConfig::Four => 4,
            ChannelConfig::Five => 5,
            ChannelConfig::FiveOne => 6,
            ChannelConfig::SevenOne => 7,
        }
    }

    /// The number of channels.
    #[verifier::when_used_as_spec(spec_channel_count)]
    pub fn channel_count(self) -> (r: u8)
        ensures
            r == self.spec_channel_count(),
    {
        match self {
            ChannelConfig::Mono => 1,
            ChannelConfig::Stereo => 2,
            ChannelConfig::Three => 3,
            ChannelConfig::Four => 4,
            ChannelConfig::Five => 5,
            ChannelConfig::FiveOne => 6,
            ChannelConfig::SevenOne => 8,
        }
    }
}

/// The sample rate of an audio track.
#[derive(Clone, Copy, Debug, PartialEq, Eq, Hash, Structural)]
pub enum SampleRate {
    /// 96000 Hz.
    Hz96000,
    /// 88200 Hz.
    Hz88200,
    /// 64000 Hz.
    Hz64000,
    /// 48000 Hz.
    Hz48000,
    /// 44100 Hz.
    Hz44100,
    /// 32000 Hz.
    Hz32000,
    /// 24000 Hz.
    Hz24000,
    /// 22050 Hz.
    Hz22050,
    /// 16000 Hz.
    Hz16000,
    /// 12000 Hz.
    Hz12000,
    /// 11025 Hz.
    Hz11025,
    /// 8000 Hz.
    Hz8000,
    /// 7350 Hz.
    Hz7350,
}

impl SampleRate {
    /// The sample rate that the frequency index stands for: 0 to 12.
    pub open spec fn of_index(index: int) -> Option<SampleRate> {
        if index == 0 {
            Some(SampleRate::Hz96000)
        } else if index == 1 {
            Some(SampleRate::Hz88200)
        } else if index == 2 {
            Some(SampleRate::Hz64000)
        } else if index == 3 {
            Some(SampleRate::Hz48000)
        } else if index == 4 {
            Some(SampleRate::Hz44100)
        } else if index == 5 {
            Some(SampleRate::Hz32000)
        } else if index == 6 {
            Some(SampleRate::Hz24000)
        } else if index == 7 {
            Some(SampleRate::Hz22050)
        } else if index == 8 {
            Some(SampleRate::Hz16000)
        } else if index == 9 {
            Some(SampleRate::Hz12000)
        } else if index == 10 {
            Some(SampleRate::Hz11025)
        } else if index == 11 {
            Some(SampleRate::Hz8000)
        } else if index == 12 {
            Some(SampleRate::Hz7350)
        } else {
            None
        }
    }

    /// The frequency index of the sample rate.
    pub open spec fn spec_index(self) -> u8 {
        match self {
            SampleRate::Hz96000 => 0,
            SampleRate::Hz88200 => 1,
            SampleRate::Hz64000 => 2,
            SampleRate::Hz48000 => 3,
            SampleRate::Hz44100 => 4,
            SampleRate::Hz32000 => 5,
            SampleRate::Hz24000 => 6,
            SampleRate::Hz22050 => 7,
            SampleRate::Hz16000 => 8,
            SampleRate::Hz12000 => 9,
            SampleRate::Hz11025 => 10,
            SampleRate::Hz8000 => 11,
            SampleRate::Hz7350 => 12,
        }
    }

    /// The sample rate in Hz.
    pub open spec fn spec_hz(self) -> u32 {
        match self {
            SampleRate::Hz96000 => 96000,
            SampleRate::Hz88200 => 88200,
            SampleRate::Hz64000 => 64000,
            SampleRate::Hz48000 => 48000,
            SampleRate::Hz44100 => 44100,
            SampleRate::Hz32000 => 32000,
            SampleRate::Hz24000 => 24000,
            SampleRate::Hz22050 => 22050,
            SampleRate::Hz16000 => 16000,
            SampleRate::Hz12000 => 12000,
            SampleRate::Hz11025 => 11025,
            SampleRate::Hz8000 => 8000,
            SampleRate::Hz7350 => 7350,
        }
    }

    /// The sample rate that the frequency index stands for.
    pub fn from_index(index: u8) -> (r: Option<SampleRate>)
        ensures
            r == SampleRate::of_index(index as int),
    {
        if index == 0 {
            Some(SampleRate::Hz96000)
        } else if index == 1 {
            Some(SampleRate::Hz88200)
        } else if index == 2 {
            Some(SampleRate::Hz64000)
        } else if index == 3 {
            Some(SampleRate::Hz48000)
        } else if index == 4 {
            Some(SampleRate::Hz44100)
        } else if index == 5 {
            Some(SampleRate::Hz32000)
        } else if index == 6 {
            Some(SampleRate::Hz24000)
        } else if index == 7 {
            Some(SampleRate::Hz22050)
        } else if index == 8 {
            Some(SampleRate::Hz16000)
        } else if index == 9 {
            Some(SampleRate::Hz12000)
        } else if index == 10 {
            Some(SampleRate::Hz11025)
        } else if index == 11 {
            Some(SampleRate::Hz8000)
        } else if index == 12 {
            Some(SampleRate::Hz7350)
        } else {
            None
        }
    }

    /// The frequency index of the sample rate.
    #[verifier::when_used_as_spec(spec_index)]
    pub fn index(self) -> (r: u8)
        ensures
            r == self.spec_index(),
            SampleRate::of_index(r as int) == Some(self),
    {
        match self {
            SampleRate::Hz96000 => 0,
            SampleRate::Hz88200 => 1,
            SampleRate::Hz64000 => 2,
            SampleRate::Hz48000 => 3,
            SampleRate::Hz44100 => 4,
            SampleRate::Hz32000 => 5,
            SampleRate::Hz24000 => 6,
            SampleRate::Hz22050 => 7,
            SampleRate::Hz16000 => 8,
            SampleRate::Hz12000 => 9,
            SampleRate::Hz11025 => 10,
            SampleRate::Hz8000 => 11,
            SampleRate::Hz7350 => 12,
        }
    }

    /// The sample rate in Hz.
    #[verifier::when_used_as_spec(spec_hz)]
    pub fn hz(self) -> (r: u32)
        ensures
            r == self.spec_hz(),
    {
        match self {
            SampleRate::Hz96000 => 96000,
            SampleRate::Hz88200 => 88200,
            SampleRate::Hz64000 => 64000,
            SampleRate::Hz48000 => 48000,
            SampleRate::Hz44100 => 44100,
            SampleRate::Hz32000 => 32000,
            SampleRate::Hz24000 => 24000,
            SampleRate::Hz22050 => 22050,
            SampleRate::Hz16000 => 16000,
            SampleRate::Hz12000 => 12000,
            SampleRate::Hz11025 => 11025,
            SampleRate::Hz8000 => 8000,
            SampleRate::Hz7350 => 7350,
        }
    }
}

/// What a file says of its audio. Each part is there where the file holds
/// it and it was read.
#[derive(Clone, Copy, Debug, PartialEq, Eq, Structural)]
pub struct AudioInfo {
    /// The duration of the movie.
    pub duration: Option<Duration>,
    /// The channel configuration.
    pub channel_config: Option<ChannelConfig>,
    /// The sample rate.
    pub sample_rate: Option<SampleRate>,
    /// The highest bitrate, in bits per second.
    pub max_bitrate: Option<u32>,
    /// The average bitrate, in bits per second.
    pub avg_bitrate: Option<u32>,
}

impl AudioInfo {
    /// The information that says nothing.
    pub open spec fn spec_none() -> AudioInfo {
        AudioInfo {
            duration: None,
            channel_config: None,
            sample_rate: None,
            max_bitrate: None,
            avg_bitrate: None,
        }
    }

    /// The information that says nothing.
    #[verifier::when_used_as_spec(spec_none)]
    pub fn none() -> (r: AudioInfo)
        ensures
            r == AudioInfo::spec_none(),
    {
        AudioInfo {
            duration: None,
            channel_config: None,
            sample_rate: None,
            max_bitrate: None,
            avg_bitrate: None,
        }
    }
}

} // verus!
