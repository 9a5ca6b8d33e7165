//! The client's audio settings: how many channels are recorded and played,
//! and how many samples go into one frame.
use vstd::prelude::*;

verus! {

/// The sample rate of recording and playback, in samples per second.
pub const SAMPLE_RATE: u32 = 11025;

/// The number of channels of surround sound.
#[derive(Copy, Clone, PartialEq, Eq, Hash, Structural)]
pub struct SurroundSoundChannels(pub u16);

/// How many samples go into one frame: fewer samples give less delay.
#[derive(Copy, Clone, PartialEq, Eq, Structural)]
pub enum FrequencyQuality {
    /// 512 samples, about 12 ms.
    Low,
    /// 256 samples, about 6 ms.
    Medium,
    /// 128 samples, about 3 ms.
    High,
}

/// How many channels are recorded and played.
#[derive(Copy, Clone, PartialEq, Eq, Hash, Structural)]
pub enum AudioMode {
    Mono,
    Stereo,
    SurroundSound(SurroundSoundChannels),
}

/// The number of samples in a frame of the given quality.
pub open spec fn quality_samples(q: FrequencyQuality) -> u32 {
    match q {
        FrequencyQuality::Low => 512,
        FrequencyQuality::Medium => 256,
        FrequencyQuality::High => 128,
    }
}

/// The number of channels of a mode.
pub open spec fn mode_channels(m: AudioMode) -> u16 {
    match m {
        AudioMode::Mono => 1,
        AudioMode::Stereo => 2,
        AudioMode::SurroundSound(c) => c.0,
    }
}

impl From<FrequencyQuality> for u32 {
    fn from(q: FrequencyQuality) -> (r: u32) {
        match q {
            FrequencyQuality::Low => 512,
            FrequencyQuality::Medium => 256,
            FrequencyQuality::High => 128,
        }
    }
}

impl vstd::std_specs::convert::FromSpecImpl<FrequencyQuality> for u32 {
    open spec fn obeys_from_spec() -> bool {
        true
    }

    open spec fn from_spec(q: FrequencyQuality) -> u32 {
        quality_samples(q)
    }
}

impl From<AudioMode> for u16 {
    fn from(m: AudioMode) -> (r: u16) {
        match m {
            AudioMode::Mono => 1,
            AudioMode::Stereo => 2,
            AudioMode::SurroundSound(c) => c.0,
        }
    }
}

impl vstd::std_specs::convert::FromSpecImpl<AudioMode> for u16 {
    open spec fn obeys_from_spec() -> bool {
        true
    }

    open spec fn from_spec(m: AudioMode) -> u16 {
        mode_channels(m)
    }
}

/// The channel count a mode is stored as: surround sound needs at least
/// three channels, and a mode with fewer has no code.
pub open spec fn mode_code(m: AudioMode) -> Option<u16> {
    match m {
        AudioMode::Mono => Some(1),
        AudioMode::Stereo => Some(2),
        AudioMode::SurroundSound(c) => if c.0 >= 3 {
            Some(c.0)
        } else {
            None
        },
    }
}

/// A mode and a quality as one word: the frame size in the low 32 bits, the
/// channel count above them.
pub open spec fn settings_word(mode: u16, q: FrequencyQuality) -> u64 {
    (quality_samples(q) as int + mode as int * 0x1_0000_0000) as u64
}

/// The mode stored in a word: none for a channel count of zero.
pub open spec fn word_mode(v: u64) -> Option<AudioMode> {
    let c = (v / 0x1_0000_0000) as u16;
    if c == 0 {
        None
    } else if c == 1 {
        Some(AudioMode::Mono)
    } else if c == 2 {
        Some(AudioMode::Stereo)
    } else {
        Some(AudioMode::SurroundSound(SurroundSoundChannels(c)))
    }
}

/// The quality stored in a word: a frame of 512 samples reads back as
/// `High`, as does one of 128; an unknown frame size reads as none.
pub open spec fn word_quality(v: u64) -> Option<FrequencyQuality> {
    let s = v % 0x1_0000_0000;
    if s == 512 {
        Some(FrequencyQuality::High)
    } else if s == 256 {
        Some(FrequencyQuality::Medium)
    } else if s == 128 {
        Some(FrequencyQuality::High)
    } else {
        None
    }
}

/// The mode and the quality of the audio streams, as one word.
pub struct AudioStreamSettings(u64);

impl View for AudioStreamSettings {
    type V = u64;

    closed spec fn view(&self) -> u64 {
        self.0
    }
}

/// The channel count a mode is stored as, if it has one.
fn mode_code_of(m: AudioMode) -> (r: Option<u16>)
    ensures
        r == mode_code(m),
{
    match m {
        AudioMode::Mono => Some(1),
        AudioMode::Stereo => Some(2),
        AudioMode::SurroundSound(c) => if c.0 >= 3 {
            Some(c.0)
        } else {
            None
        },
    }
}

/// The word holding a channel count and a quality.
fn settings_word_of(mode: u16, q: FrequencyQuality) -> (r: u64)
    ensures
        r == settings_word(mode, q),
{
    let samples: u64 = match q {
        FrequencyQuality::Low => 512,
        FrequencyQuality::Medium => 256,
        FrequencyQuality::High => 128,
    };
    let m = mode as u64;
    let r = samples | (m << 32);
    proof {
        assert(samples | (m << 32) == samples + m * 0x1_0000_0000) by (bit_vector)
            requires
                samples < 0x1_0000_0000,
                m < 0x1_0000,
        ;
    }
    r
}

impl AudioStreamSettings {
    /// Settings for a mode and a quality; none for surround sound with
    /// fewer than three channels.
    pub fn new(audio_mode: AudioMode, freq_quality: FrequencyQuality) -> (r: Option<Self>)
        ensures
            match mode_code(audio_mode) {
                Some(c) => r matches Some(s) && s@ == settings_word(c, freq_quality),
                None => r is None,
            },
    {
        match mode_code_of(audio_mode) {
            Some(c) => Some(AudioStreamSettings(settings_word_of(c, freq_quality))),
            None => None,
        }
    }

    /// Changes the mode and the quality; returns false, changing nothing,
    /// for surround sound with fewer than three channels.
    pub fn set(&mut self, audio_mode: AudioMode, freq_quality: FrequencyQuality) -> (r: bool)
        ensures
            r == (mode_code(audio_mode) is Some),
            r ==> final(self)@ == settings_word(mode_code(audio_mode)->Some_0, freq_quality),
            !r ==> final(self)@ == old(self)@,
    {
        match mode_code_of(audio_mode) {
            Some(c) => {
                self.0 = settings_word_of(c, freq_quality);
                true
            },
            None => false,
        }
    }

    /// The mode and the quality.
    pub fn get(&self) -> (r: (Option<AudioMode>, Option<FrequencyQuality>))
        ensures
            r == (word_mode(self@), word_quality(self@)),
    {
        let inner = self.0;
        let mode_inner = (inner >> 32) as u16;
        proof {
            assert((inner >> 32) as u16 == (inner / 0x1_0000_0000) as u16) by (bit_vector);
        }
        let audio_mode = if mode_inner == 0 {
            None
        } else if mode_inner == 1 {
            Some(AudioMode::Mono)
        } else if mode_inner == 2 {
            Some(AudioMode::Stereo)
        } else {
            Some(AudioMode::SurroundSound(SurroundSoundChannels(mode_inner)))
        };
        let quality_inner = inner as u32;
        proof {
            assert(inner as u32 == inner % 0x1_0000_0000) by (bit_vector);
        }
        let freq_quality = if quality_inner == 512 {
            Some(FrequencyQuality::High)
        } else if quality_inner == 256 {
            Some(FrequencyQuality::Medium)
        } else if quality_inner == 128 {
            Some(FrequencyQuality::High)
        } else {
            None
        };
        (audio_mode, freq_quality)
    }
}

/// Reading back what was stored gives the mode, and the quality, except that
/// `Low` reads back as `High`.
pub proof fn lemma_settings_roundtrip(m: AudioMode, q: FrequencyQuality)
    requires
        mode_code(m) is Some,
    ensures
        word_mode(settings_word(mode_code(m)->Some_0, q)) == Some(m),
        word_quality(settings_word(mode_code(m)->Some_0, q)) == Some(
            if q == FrequencyQuality::Low {
                FrequencyQuality::High
            } else {
                q
            },
        ),
{
    let c = mode_code(m)->Some_0;
    let s = quality_samples(q);
    let v = s as int + c as int * 0x1_0000_0000;
    assert(v % 0x1_0000_0000 == s && v / 0x1_0000_0000 == c) by (nonlinear_arith)
        requires
            v == s as int + c as int * 0x1_0000_0000,
            0 <= s < 0x1_0000_0000,
            0 <= c,
    ;
}

/// The audio of the client.
pub struct Audio {
    stream_settings: AudioStreamSettings,
}

/// Which devices the client records from and plays to, by name.
pub struct AudioConfig {
    pub input_name: String,
    pub output_name: String,
}

impl Audio {
    /// The audio for a configuration: one channel, frames of 512 samples.
    pub fn from_cfg(cfg: &AudioConfig) -> (r: Option<Self>)
        ensures
            r matches Some(a) && a.settings()@ == settings_word(1, FrequencyQuality::Low),
    {
        let settings = AudioStreamSettings::new(AudioMode::Mono, FrequencyQuality::Low);
        Some(Audio { stream_settings: settings.unwrap() })
    }

    /// The settings of the audio streams.
    pub closed spec fn settings(&self) -> AudioStreamSettings {
        self.stream_settings
    }

    /// The settings of the audio streams.
    pub fn stream_settings(&self) -> (r: &AudioStreamSettings)
        ensures
            *r == self.settings(),
    {
        &self.stream_settings
    }
}

// ---------------------------------------------------------------------------
// Voice activity
// ---------------------------------------------------------------------------

/// How far apart the loudest and the quietest sample of a recorded chunk
/// must be for the chunk to count as voice; idle input devices stay below.
pub const VOICE_THRESHOLD: i16 = 50;

/// How many samples of voice are gathered before they are sent as a frame.
pub const MIN_BUF_SIZE: usize = 480;

/// The largest sample of a nonempty chunk.
pub open spec fn spec_max_sample(s: Seq<i16>) -> int
    decreases s.len(),
{
    if s.len() <= 1 {
        s[0] as int
    } else {
        let m = spec_max_sample(s.drop_last());
        if s.last() > m {
            s.last() as int
        } else {
            m
        }
    }
}

/// The smallest sample of a nonempty chunk.
pub open spec fn spec_min_sample(s: Seq<i16>) -> int
    decreases s.len(),
{
    if s.len() <= 1 {
        s[0] as int
    } else {
        let m = spec_min_sample(s.drop_last());
        if s.last() < m {
            s.last() as int
        } else {
            m
        }
    }
}

/// Whether a recorded chunk is voice: not silent, and with its loudest and
/// quietest samples further apart than the threshold.
pub open spec fn is_voice(s: Seq<i16>) -> bool {
    &&& exists|i: int| 0 <= i < s.len() && s[i] != 0
    &&& spec_max_sample(s) - spec_min_sample(s) > VOICE_THRESHOLD
}

/// The largest and the smallest sample of a nonempty chunk are samples of
/// the chunk, and no sample lies above the largest or below the smallest.
pub proof fn lemma_sample_extremes(s: Seq<i16>)
    requires
        s.len() > 0,
    ensures
        exists|i: int| 0 <= i < s.len() && spec_max_sample(s) == s[i] as int,
        exists|i: int| 0 <= i < s.len() && spec_min_sample(s) == s[i] as int,
        forall|j: int| 0 <= j < s.len() ==> spec_min_sample(s) <= #[trigger] s[j] <= spec_max_sample(s),
    decreases s.len(),
{
    if s.len() == 1 {
        assert(spec_max_sample(s) == s[0] as int);
        assert(spec_min_sample(s) == s[0] as int);
    } else {
        let init = s.drop_last();
        lemma_sample_extremes(init);
        let k = s.len() - 1;
        assert forall|j: int| 0 <= j < s.len() implies spec_min_sample(s) <= #[trigger] s[j] <= spec_max_sample(s) by {
            if j < k {
                assert(s[j] == init[j]);
            }
        }
        if spec_max_sample(s) != s[k] as int {
            let i = choose|i: int| 0 <= i < init.len() && spec_max_sample(init) == init[i] as int;
            assert(s[i] == init[i]);
        }
        if spec_min_sample(s) != s[k] as int {
            let i = choose|i: int| 0 <= i < init.len() && spec_min_sample(init) == init[i] as int;
            assert(s[i] == init[i]);
        }
    }
}

/// A chunk is voice exactly when some sample is not zero and two of its
/// samples lie further apart than the threshold.
pub proof fn lemma_is_voice_spread(s: Seq<i16>)
    ensures
        is_voice(s) <==> (exists|i: int| 0 <= i < s.len() && s[i] != 0) && exists|i: int, j: int|
            0 <= i < s.len() && 0 <= j < s.len() && s[i] - s[j] > VOICE_THRESHOLD,
{
    if s.len() > 0 {
        lemma_sample_extremes(s);
        if is_voice(s) {
            let i = choose|i: int| 0 <= i < s.len() && spec_max_sample(s) == s[i] as int;
            let j = choose|j: int| 0 <= j < s.len() && spec_min_sample(s) == s[j] as int;
            assert(s[i] - s[j] > VOICE_THRESHOLD);
        }
        if (exists|i: int| 0 <= i < s.len() && s[i] != 0) && exists|i: int, j: int|
            0 <= i < s.len() && 0 <= j < s.len() && s[i] - s[j] > VOICE_THRESHOLD {
            let (i, j) = choose|i: int, j: int|
                0 <= i < s.len() && 0 <= j < s.len() && s[i] - s[j] > VOICE_THRESHOLD;
            assert(spec_min_sample(s) <= s[j] && s[i] <= spec_max_sample(s));
        }
    }
}

proof fn lemma_max_min_step(s: Seq<i16>, n: int)
    requires
        1 <= n < s.len(),
    ensures
        s.take(n + 1).drop_last() == s.take(n),
        s.take(n + 1).last() == s[n],
{
    assert(s.take(n + 1).drop_last() =~= s.take(n));
}

/// Gathers recorded voice into frames: a chunk that is voice is added to
/// `buf`; once `buf` holds a frame's worth of samples, the first
/// `MIN_BUF_SIZE` are taken out of it and returned to be sent.
pub fn voice_frame(data: &[i16], buf: &mut Vec<i16>) -> (r: Option<Vec<i16>>)
    requires
        data@.len() > 0 ==> spec_max_sample(data@) - spec_min_sample(data@) <= i16::MAX,
    ensures
        ({
            let joined = old(buf)@ + data@;
            if is_voice(data@) {
                if joined.len() >= MIN_BUF_SIZE {
                    r matches Some(f) && f@ == joined.take(MIN_BUF_SIZE as int) && final(buf)@ == joined.skip(
                        MIN_BUF_SIZE as int,
                    )
                } else {
                    r is None && final(buf)@ == joined
                }
            } else {
                r is None && final(buf)@ == old(buf)@
            }
        }),
{
    let n = data.len();
    let mut nonzero = false;
    let mut i: usize = 0;
    while i < n
        invariant
            i <= n == data@.len(),
            nonzero == exists|j: int| 0 <= j < i && data@[j] != 0,
        decreases n - i,
    {
        if data[i] != 0 {
            nonzero = true;
        }
        i = i + 1;
    }
    if !nonzero {
        return None;
    }
    let mut max = data[0];
    let mut min = data[0];
    let mut k: usize = 1;
    proof {
        assert(data@.take(1) =~= seq![data@[0]]);
    }
    while k < n
        invariant
            1 <= k <= n == data@.len(),
            max == spec_max_sample(data@.take(k as int)),
            min == spec_min_sample(data@.take(k as int)),
        decreases n - k,
    {
        proof {
            lemma_max_min_step(data@, k as int);
        }
        if data[k] > max {
            max = data[k];
        }
        if data[k] < min {
            min = data[k];
        }
        k = k + 1;
    }
    proof {
        assert(data@.take(n as int) =~= data@);
    }
    let max_diff = max - min;
    if max_diff <= VOICE_THRESHOLD {
        return None;
    }
    let ghost before = buf@;
    let mut j: usize = 0;
    while j < n
        invariant
            j <= n == data@.len(),
            buf@ == before + data@.take(j as int),
        decreases n - j,
    {
        buf.push(data[j]);
        proof {
            assert(data@.take(j + 1) =~= data@.take(j as int).push(data@[j as int]));
        }
        j = j + 1;
    }
    proof {
        assert(data@.take(n as int) =~= data@);
    }
    if buf.len() < MIN_BUF_SIZE {
        return None;
    }
    let ghost joined = buf@;
    let mut frame = buf.split_off(MIN_BUF_SIZE);
    std::mem::swap(buf, &mut frame);
    proof {
        assert(frame@ =~= joined.take(MIN_BUF_SIZE as int));
        assert(buf@ =~= joined.skip(MIN_BUF_SIZE as int));
    }
    Some(frame)
}

} // verus!
