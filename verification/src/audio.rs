//! Audio sample logic: interleaved mixing with saturation, clip repair,
//! silencing, resampling (through an outside resampler), and the byte
//! obfuscation applied to finished audio files. Decoding and encoding of
//! compressed audio streams stay outside the library.

use vstd::prelude::*;

verus! {

use vstd::string::StringExecFns;

/// Why an audio source could not be read.
#[derive(Clone, Debug)]
pub enum AudioReaderError {
    CantOpenAudioFile { text: String },
    CantDecodeAudioFile { text: String },
}

impl AudioReaderError {
    /// A readable description of the failure.
    pub fn message(&self) -> (r: String)
        ensures
            self matches AudioReaderError::CantOpenAudioFile { text } ==> r@
                == "can't open audio file: "@ + text@,
            self matches AudioReaderError::CantDecodeAudioFile { text } ==> r@
                == "can't decode audio file: "@ + text@,
    {
        let mut s = String::new();
        match self {
            AudioReaderError::CantOpenAudioFile { text } => {
                s.append("can't open audio file: ");
                s.append(text.as_str());
            },
            AudioReaderError::CantDecodeAudioFile { text } => {
                s.append("can't decode audio file: ");
                s.append(text.as_str());
            },
        }
        s
    }
}

/// Metadata of an audio source.
pub trait AudioMeta {
    /// Number of channels.
    fn get_channel_count(&self) -> u8;

    /// Sample rate in Hz.
    fn get_sample_rate(&self) -> u32;
}

/// A decodable audio source holding per-channel samples.
pub trait AudioReader {
    /// Decodes the remaining input, if any.
    fn read_to_end(&mut self);

    /// The decoded samples, one vector per channel.
    fn get_samples<'a>(&'a self) -> &'a Vec<Vec<i16>>;

    /// The source resampled to a new rate, where its channel layout
    /// allows it.
    fn resample(&self, sample_rate: u32) -> Option<ResampledReader>;
}

/// What an outside resampler returns for one mono channel: a function of
/// the samples and the two rates alone.
pub uninterp spec fn resampled_of(samples: Seq<i16>, in_rate: u32, out_rate: u32) -> Seq<i16>;

/// Relies on fon's `Audio::with_audio`: resamples one mono channel; the
/// result depends on the samples and rates alone.
#[verifier::external_body]
fn resample_mono(samples: &Vec<i16>, in_sample_rate: u32, out_sample_rate: u32) -> (r: Vec<i16>)
    requires
        in_sample_rate >= 1,
        out_sample_rate >= 1,
    ensures
        r@ == resampled_of(samples@, in_sample_rate, out_sample_rate),
{
    let in_samples = samples.to_owned();
    let in_audio = fon::Audio::<fon::chan::Ch16, 1>::with_i16_buffer(in_sample_rate, in_samples);
    let mut out_audio = fon::Audio::<fon::chan::Ch16, 1>::with_audio(out_sample_rate, &in_audio);
    out_audio.as_i16_slice().iter().map(|v| *v).collect()
}

/// Already-resampled audio: a sample rate and per-channel samples.
pub struct ResampledReader {
    pub sample_rate: u32,
    pub samples: Vec<Vec<i16>>,
}

/// Resamples one- or two-channel audio to a new rate, channel by
/// channel; other channel layouts yield nothing.
pub fn resample_audio(samples: &Vec<Vec<i16>>, in_rate: u32, out_rate: u32) -> (r: Option<
    ResampledReader,
>)
    requires
        in_rate >= 1,
        out_rate >= 1,
    ensures
        samples@.len() == 1 ==> (r matches Some(a) && a.sample_rate == out_rate
            && a.samples@.len() == 1 && a.samples@[0]@ == resampled_of(
            samples@[0]@,
            in_rate,
            out_rate,
        )),
        samples@.len() == 2 ==> (r matches Some(a) && a.sample_rate == out_rate
            && a.samples@.len() == 2 && a.samples@[0]@ == resampled_of(
            samples@[0]@,
            in_rate,
            out_rate,
        ) && a.samples@[1]@ == resampled_of(samples@[1]@, in_rate, out_rate)),
        samples@.len() == 0 || samples@.len() > 2 ==> r is None,
{
    if samples.len() == 1 {
        let mut out: Vec<Vec<i16>> = Vec::new();
        out.push(resample_mono(&samples[0], in_rate, out_rate));
        Some(ResampledReader { sample_rate: out_rate, samples: out })
    } else if samples.len() == 2 {
        let mut out: Vec<Vec<i16>> = Vec::new();
        out.push(resample_mono(&samples[0], in_rate, out_rate));
        out.push(resample_mono(&samples[1], in_rate, out_rate));
        Some(ResampledReader { sample_rate: out_rate, samples: out })
    } else {
        None
    }
}

impl AudioMeta for ResampledReader {
    #[verifier::truncate]
    fn get_channel_count(&self) -> u8 {
        self.samples.len() as u8
    }

    fn get_sample_rate(&self) -> u32 {
        self.sample_rate
    }
}

impl AudioReader for ResampledReader {
    fn read_to_end(&mut self) {
        // already decoded
    }

    fn get_samples<'a>(&'a self) -> &'a Vec<Vec<i16>> {
        &self.samples
    }

    fn resample(&self, sample_rate: u32) -> Option<ResampledReader> {
        if self.sample_rate == 0 || sample_rate == 0 {
            return None;
        }
        resample_audio(&self.samples, self.sample_rate, sample_rate)
    }
}

// ---------------------------------------------------------------------
// sample mixing
// ---------------------------------------------------------------------
/// Two 16-bit samples mixed with saturation.
pub open spec fn mixed_i16(a: i16, b: i16) -> i16 {
    let m = a + b;
    if m <= i16::MIN {
        i16::MIN
    } else if m < i16::MAX {
        m as i16
    } else {
        i16::MAX
    }
}

/// Two 32-bit samples mixed with saturation.
pub open spec fn mixed_i32(a: i32, b: i32) -> i32 {
    let m = a + b;
    if m <= i32::MIN {
        i32::MIN
    } else if m < i32::MAX {
        m as i32
    } else {
        i32::MAX
    }
}

/// Mixes two 16-bit samples, cutting off clipping.
pub fn mix_samples(a: i16, b: i16) -> (r: i16)
    ensures
        r == mixed_i16(a, b),
{
    let mixed = (a as i32) + (b as i32);
    if mixed <= i16::MIN as i32 {
        i16::MIN
    } else if mixed < i16::MAX as i32 {
        mixed as i16
    } else {
        i16::MAX
    }
}

/// Mixes two 32-bit samples, cutting off clipping.
pub fn mix_samples_i32(a: i32, b: i32) -> (r: i32)
    ensures
        r == mixed_i32(a, b),
{
    let mixed = (a as i64) + (b as i64);
    if mixed <= i32::MIN as i64 {
        i32::MIN
    } else if mixed < i32::MAX as i64 {
        mixed as i32
    } else {
        i32::MAX
    }
}

// ---------------------------------------------------------------------
// the interleaved track under construction
// ---------------------------------------------------------------------
/// The source sample mixed into interleaved position `i`, given the
/// source's left and right channels.
pub open spec fn source_at(left: Seq<i16>, right: Seq<i16>, i: int) -> i32 {
    if i % 2 == 0 {
        left[i / 2] as i32
    } else {
        right[i / 2] as i32
    }
}

/// Whether interleaved position `i` is inside the stretch the source
/// covers (the source's frame count, once per source channel).
pub open spec fn in_mix_range(source_channels: int, left_len: int, i: int) -> bool {
    if source_channels == 2 {
        i / 2 < left_len
    } else {
        i < left_len
    }
}

/// The interleaved frames `from .. to` of the source appended as 32-bit
/// samples.
pub open spec fn appended_frames(left: Seq<i16>, right: Seq<i16>, from: int, to: int) -> Seq<i32>
    decreases to - from,
{
    if from >= to {
        Seq::<i32>::empty()
    } else {
        seq![left[from] as i32, right[from] as i32] + appended_frames(left, right, from + 1, to)
    }
}

/// A stereo interleaved track being mixed from several sources.
pub struct AudioWriter {
    pub channels: u32,
    pub sample_rate: u32,
    pub samples: Vec<i32>,
}

impl AudioWriter {
    /// An empty stereo track at the given rate.
    pub fn new(sample_rate: u32) -> (r: AudioWriter)
        ensures
            r.channels == 2,
            r.sample_rate == sample_rate,
            r.samples@.len() == 0,
    {
        AudioWriter { channels: 2, sample_rate, samples: Vec::new() }
    }

    /// Mixes a one- or two-channel source into the track: overlapping
    /// samples mix with saturation, and frames past the current end are
    /// appended. Sources with no channel or more than two are ignored.
    pub fn merge_from(&mut self, source: &Vec<Vec<i16>>)
        requires
            old(self).channels == 2,
            source@.len() == 2 ==> source@[1]@.len() >= source@[0]@.len(),
        ensures
            final(self).channels == old(self).channels,
            final(self).sample_rate == old(self).sample_rate,
            source@.len() == 0 || source@.len() > 2 ==> final(self).samples
                == old(self).samples,
            1 <= source@.len() <= 2 ==> ({
                let left = source@[0]@;
                let right = if source@.len() == 1 {
                    source@[0]@
                } else {
                    source@[1]@
                };
                let n = old(self).samples@.len() as int;
                &&& final(self).samples@.len() == n + (if left.len() > n / 2 {
                    2 * (left.len() - n / 2)
                } else {
                    0
                })
                &&& forall|i: int|
                    0 <= i < n ==> #[trigger] final(self).samples@[i] == (if in_mix_range(
                        source@.len() as int,
                        left.len() as int,
                        i,
                    ) {
                        mixed_i32(old(self).samples@[i], source_at(left, right, i))
                    } else {
                        old(self).samples@[i]
                    })
                &&& final(self).samples@.subrange(n, final(self).samples@.len() as int)
                    =~= appended_frames(left, right, n / 2, if left.len() > n / 2 {
                    left.len() as int
                } else {
                    n / 2
                })
            }),
    {
        let source_channels = source.len();
        if source_channels == 0 || source_channels > 2 {
            return ;
        }
        let two = source_channels == 2;
        let ghost left_s = source@[0]@;
        let ghost right_s = if source@.len() == 1 {
            source@[0]@
        } else {
            source@[1]@
        };
        let ghost pre = self.samples@;
        let sample_length = self.samples.len() / 2;
        let source_sample_length = source[0].len();

        // the interleaved stretch the source covers, capped at the track
        let limit: usize = if two {
            if source_sample_length >= self.samples.len() / 2 + self.samples.len() % 2 {
                self.samples.len()
            } else {
                2 * source_sample_length
            }
        } else {
            if source_sample_length >= self.samples.len() {
                self.samples.len()
            } else {
                source_sample_length
            }
        };
        proof {
            assert forall|k: int| 0 <= k < self.samples@.len() implies (k < limit) == in_mix_range(
                source@.len() as int,
                left_s.len() as int,
                k,
            ) by {
                if two {
                    assert((k < 2 * left_s.len()) == (k / 2 < left_s.len())) by (nonlinear_arith);
                }
            }
        }

        // mix into the overlap
        let mut i: usize = 0;
        while i < limit
            invariant
                self.channels == old(self).channels,
                self.sample_rate == old(self).sample_rate,
                source@.len() == source_channels,
                1 <= source_channels <= 2,
                two == (source_channels == 2),
                left_s == source@[0]@,
                right_s == (if source@.len() == 1 {
                    source@[0]@
                } else {
                    source@[1]@
                }),
                right_s.len() >= left_s.len(),
                source_sample_length == left_s.len(),
                limit <= pre.len(),
                self.samples@.len() == pre.len(),
                forall|k: int|
                    0 <= k < pre.len() ==> ((k < limit) == in_mix_range(
                        source@.len() as int,
                        left_s.len() as int,
                        k,
                    )),
                0 <= i <= limit,
                forall|k: int|
                    0 <= k < i ==> #[trigger] self.samples@[k] == mixed_i32(
                        pre[k],
                        source_at(left_s, right_s, k),
                    ),
                forall|k: int| i <= k < pre.len() ==> #[trigger] self.samples@[k] == pre[k],
            decreases limit - i,
        {
            proof {
                assert(in_mix_range(source@.len() as int, left_s.len() as int, i as int));
                if !two {
                    assert(i < left_s.len());
                }
                assert(i as int / 2 < left_s.len()) by {
                    if !two {
                        vstd::arithmetic::div_mod::lemma_div_is_ordered(i as int, i as int, 2);
                        assert(i as int / 2 <= i as int) by (nonlinear_arith);
                    }
                }
            }
            let idx = i / 2;
            let to_mix = if i % 2 == 0 {
                source[0][idx]
            } else {
                if two {
                    source[1][idx]
                } else {
                    source[0][idx]
                }
            };
            let cur = self.samples[i];
            let mixed = mix_samples_i32(cur, to_mix as i32);
            self.samples.set(i, mixed);
            i = i + 1;
        }
        proof {
            assert forall|k: int|
                0 <= k < pre.len() implies #[trigger] self.samples@[k] == (if in_mix_range(
                source@.len() as int,
                left_s.len() as int,
                k,
            ) {
                mixed_i32(pre[k], source_at(left_s, right_s, k))
            } else {
                pre[k]
            }) by {}
        }

        // append frames past the current end
        let ghost mixed_all = self.samples@;
        let mut f: usize = sample_length;
        while f < source_sample_length
            invariant
                self.channels == old(self).channels,
                self.sample_rate == old(self).sample_rate,
                source@.len() == source_channels,
                1 <= source_channels <= 2,
                two == (source_channels == 2),
                left_s == source@[0]@,
                right_s == (if source@.len() == 1 {
                    source@[0]@
                } else {
                    source@[1]@
                }),
                right_s.len() >= left_s.len(),
                source_sample_length == left_s.len(),
                sample_length == pre.len() / 2,
                sample_length <= f,
                f <= source_sample_length || f == sample_length,
                mixed_all.len() == pre.len(),
                self.samples@.len() == mixed_all.len() + 2 * (f - sample_length),
                self.samples@.take(mixed_all.len() as int) =~= mixed_all,
                self.samples@.subrange(mixed_all.len() as int, self.samples@.len() as int)
                    =~= appended_frames(left_s, right_s, sample_length as int, f as int),
            decreases source_sample_length - f,
        {
            proof {
                assert(f < left_s.len());
            }
            let l = source[0][f];
            let r = if two {
                source[1][f]
            } else {
                source[0][f]
            };
            self.samples.push(l as i32);
            self.samples.push(r as i32);
            proof {
                lemma_appended_step(left_s, right_s, sample_length as int, f as int);
            }
            f = f + 1;
        }
        proof {
            let cur = self.samples@;
            assert(cur.take(mixed_all.len() as int) =~= mixed_all);
            assert forall|k: int| 0 <= k < pre.len() implies #[trigger] cur[k]
                == mixed_all[k] by {
                assert(cur.take(mixed_all.len() as int)[k] == cur[k]);
            }
        }
    }

    /// Sets every sample to silence.
    pub fn make_silent(&mut self)
        ensures
            final(self).channels == old(self).channels,
            final(self).sample_rate == old(self).sample_rate,
            final(self).samples@.len() == old(self).samples@.len(),
            forall|i: int|
                0 <= i < final(self).samples@.len() ==> #[trigger] final(self).samples@[i] == 0,
    {
        let n = self.samples.len();
        let mut i: usize = 0;
        while i < n
            invariant
                self.channels == old(self).channels,
                self.sample_rate == old(self).sample_rate,
                self.samples@.len() == n,
                0 <= i <= n,
                forall|k: int| 0 <= k < i ==> #[trigger] self.samples@[k] == 0,
            decreases n - i,
        {
            self.samples.set(i, 0);
            i = i + 1;
        }
    }

    /// The samples narrowed to 16 bits (truncating, as the encoder
    /// expects values already in range).
    pub fn samples_as_i16(&self) -> (r: Vec<i16>)
        ensures
            r@.len() == self.samples@.len(),
            forall|i: int|
                0 <= i < r@.len() ==> #[trigger] r@[i] == self.samples@[i] as i16,
    {
        let mut r: Vec<i16> = Vec::new();
        let mut i: usize = 0;
        while i < self.samples.len()
            invariant
                0 <= i <= self.samples@.len(),
                r@.len() == i,
                forall|k: int| 0 <= k < i ==> #[trigger] r@[k] == self.samples@[k] as i16,
            decreases self.samples@.len() - i,
        {
            #[verifier::truncate]
            let v = self.samples[i] as i16;
            r.push(v);
            i = i + 1;
        }
        r
    }

    /// Rescales the track so the loudest sample fits 16 bits, leaving
    /// already-quiet tracks alone. Each sample is scaled by the integer
    /// ratio `32767 / loudest` and clamped.
    pub fn fix_clipping(&mut self)
        ensures
            final(self).channels == old(self).channels,
            final(self).sample_rate == old(self).sample_rate,
            final(self).samples@.len() == old(self).samples@.len(),
            peak_of(old(self).samples@) < 32767 ==> final(self).samples == old(self).samples,
            peak_of(old(self).samples@) >= 32767 ==> forall|i: int|
                0 <= i < final(self).samples@.len() ==> #[trigger] final(self).samples@[i]
                    == scaled_sample(old(self).samples@[i], peak_of(old(self).samples@)),
    {
        if self.samples.len() == 0 {
            return ;
        }
        let ghost pre = self.samples@;
        // find the loudest magnitude
        let mut abs_max: u64 = 0;
        let mut i: usize = 0;
        while i < self.samples.len()
            invariant
                self.samples@ == pre,
                0 <= i <= pre.len(),
                abs_max == peak_upto(pre, i as int),
            decreases pre.len() - i,
        {
            let s = self.samples[i];
            let m = magnitude(s);
            if m > abs_max {
                abs_max = m;
            }
            i = i + 1;
        }
        proof {
            assert(abs_max == peak_of(pre));
        }
        if abs_max < 32767 {
            return ;
        }
        // rescale
        let mut j: usize = 0;
        while j < self.samples.len()
            invariant
                self.channels == old(self).channels,
                self.sample_rate == old(self).sample_rate,
                abs_max == peak_of(pre),
                abs_max >= 32767,
                self.samples@.len() == pre.len(),
                0 <= j <= pre.len(),
                forall|k: int|
                    0 <= k < j ==> #[trigger] self.samples@[k] == scaled_sample(pre[k], abs_max),
                forall|k: int| j <= k < pre.len() ==> #[trigger] self.samples@[k] == pre[k],
            decreases pre.len() - j,
        {
            let s = self.samples[j];
            let m = magnitude(s);
            proof {
                lemma_peak_ge(pre, j as int, pre.len() as int);
            }
            let scaled = (m * 32767) / abs_max;
            proof {
                lemma_scaled_fits(m, abs_max);
            }
            let v: i32 = if s < 0 {
                -(scaled as i32)
            } else {
                scaled as i32
            };
            self.samples.set(j, v);
            j = j + 1;
        }
    }
}

/// A sample's magnitude, wide enough for the lowest value.
pub open spec fn spec_magnitude(s: i32) -> u64 {
    if s >= 0 {
        s as u64
    } else {
        (-(s as int)) as u64
    }
}

/// The largest magnitude among the first `n` samples.
pub open spec fn peak_upto(samples: Seq<i32>, n: int) -> u64
    decreases n,
{
    if n <= 0 {
        0
    } else {
        let rest = peak_upto(samples, n - 1);
        if spec_magnitude(samples[n - 1]) > rest {
            spec_magnitude(samples[n - 1])
        } else {
            rest
        }
    }
}

/// The largest magnitude in the track.
pub open spec fn peak_of(samples: Seq<i32>) -> u64 {
    peak_upto(samples, samples.len() as int)
}

/// A sample scaled by `32767 / peak` on its magnitude, keeping its sign.
pub open spec fn scaled_sample(s: i32, peak: u64) -> i32 {
    let m = (spec_magnitude(s) * 32767) / (peak as int);
    if s < 0 {
        (-(m as int)) as i32
    } else {
        m as i32
    }
}

/// A sample's magnitude.
fn magnitude(s: i32) -> (r: u64)
    ensures
        r == spec_magnitude(s),
{
    if s >= 0 {
        s as u64
    } else if s == i32::MIN {
        0x8000_0000u64
    } else {
        (-s) as u64
    }
}

/// Every sample's magnitude is at most the running peak.
proof fn lemma_peak_ge(samples: Seq<i32>, j: int, n: int)
    requires
        0 <= j < n <= samples.len(),
    ensures
        spec_magnitude(samples[j]) <= peak_upto(samples, n),
    decreases n,
{
    if j < n - 1 {
        lemma_peak_ge(samples, j, n - 1);
    }
}

/// A magnitude at most the peak scales to at most 32767.
proof fn lemma_scaled_fits(m: u64, peak: u64)
    requires
        peak >= 1,
        m <= peak,
    ensures
        (m * 32767) / (peak as int) <= 32767,
{
    vstd::arithmetic::mul::lemma_mul_inequality(m as int, peak as int, 32767);
    vstd::arithmetic::div_mod::lemma_div_is_ordered(
        m as int * 32767,
        peak as int * 32767,
        peak as int,
    );
    assert(peak as int * 32767 / peak as int == 32767) by {
        vstd::arithmetic::div_mod::lemma_div_multiples_vanish(32767, peak as int);
        vstd::arithmetic::mul::lemma_mul_is_commutative(peak as int, 32767);
    }
}

/// One appended frame extends the appended stretch.
proof fn lemma_appended_step(left: Seq<i16>, right: Seq<i16>, from: int, f: int)
    requires
        from <= f,
    ensures
        appended_frames(left, right, from, f + 1) =~= appended_frames(left, right, from, f)
            + seq![left[f] as i32, right[f] as i32],
    decreases f - from,
{
    if from < f {
        lemma_appended_step(left, right, from + 1, f);
        assert(appended_frames(left, right, from, f + 1) =~= seq![
            left[from] as i32,
            right[from] as i32,
        ] + appended_frames(left, right, from + 1, f + 1));
    } else {
        assert(appended_frames(left, right, f, f) =~= Seq::<i32>::empty());
        assert(appended_frames(left, right, f + 1, f + 1) =~= Seq::<i32>::empty());
    }
}

/// Flips every byte with the audio obfuscation mask, as the packaged
/// `.dpo` format expects; applying it twice restores the input.
pub fn dpo_obfuscate(data: &mut Vec<u8>)
    ensures
        final(data)@.len() == old(data)@.len(),
        forall|i: int|
            0 <= i < final(data)@.len() ==> #[trigger] final(data)@[i] == (old(data)@[i] ^ 0x0A),
{
    let n = data.len();
    let mut i: usize = 0;
    while i < n
        invariant
            data@.len() == n,
            0 <= i <= n,
            forall|k: int| 0 <= k < i ==> #[trigger] data@[k] == (old(data)@[k] ^ 0x0A),
            forall|k: int| i <= k < n ==> #[trigger] data@[k] == old(data)@[k],
        decreases n - i,
    {
        let b = data[i];
        data.set(i, b ^ 0x0A);
        i = i + 1;
    }
}

} // verus!
