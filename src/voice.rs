//! Sounding notes: sample playback cursors in 16.16 fixed point, their pitch,
//! and the value each one contributes to an output sample.
use crate::bank::SampleRegion;
use vstd::prelude::*;

verus! {

/// One in 16.16 fixed point.
pub const ONE: u64 = 65536;

/// The highest octave a playback rate is raised by; higher ones are held there.
pub const MAX_OCTAVE: u64 = 15;

/// Which output channels a sample plays on.
#[derive(Clone, Copy, PartialEq, Eq, Structural, Debug)]
pub enum SampleType {
    Mono,
    Right,
    Left,
}

/// The kind a SoundFont sample type number stands for: 1 mono, 2 right, 4 left.
pub open spec fn spec_sample_type(t: i32) -> Option<SampleType> {
    if t == 1 {
        Some(SampleType::Mono)
    } else if t == 2 {
        Some(SampleType::Right)
    } else if t == 4 {
        Some(SampleType::Left)
    } else {
        None
    }
}

pub fn sample_type_of(t: i32) -> (r: Option<SampleType>)
    ensures
        r == spec_sample_type(t),
{
    if t == 1 {
        Some(SampleType::Mono)
    } else if t == 2 {
        Some(SampleType::Right)
    } else if t == 4 {
        Some(SampleType::Left)
    } else {
        None
    }
}

/// 2^(k/120) in 16.16 fixed point, rounded to nearest, for the ten-cent
/// steps of one octave.
pub open spec fn step_ratio(k: int) -> int {
    if k <= 0 {
        65536
    } else if k == 1 {
        65916
    } else if k == 2 {
        66297
    } else if k == 3 {
        66682
    } else if k == 4 {
        67068
    } else if k == 5 {
        67456
    } else if k == 6 {
        67847
    } else if k == 7 {
        68240
    } else if k == 8 {
        68635
    } else if k == 9 {
        69033
    } else if k == 10 {
        69433
    } else if k == 11 {
        69835
    } else if k == 12 {
        70240
    } else if k == 13 {
        70647
    } else if k == 14 {
        71056
    } else if k == 15 {
        71468
    } else if k == 16 {
        71882
    } else if k == 17 {
        72298
    } else if k == 18 {
        72717
    } else if k == 19 {
        73138
    } else if k == 20 {
        73562
    } else if k == 21 {
        73988
    } else if k == 22 {
        74416
    } else if k == 23 {
        74848
    } else if k == 24 {
        75281
    } else if k == 25 {
        75717
    } else if k == 26 {
        76156
    } else if k == 27 {
        76597
    } else if k == 28 {
        77041
    } else if k == 29 {
        77487
    } else if k == 30 {
        77936
    } else if k == 31 {
        78387
    } else if k == 32 {
        78841
    } else if k == 33 {
        79298
    } else if k == 34 {
        79758
    } else if k == 35 {
        80220
    } else if k == 36 {
        80684
    } else if k == 37 {
        81152
    } else if k == 38 {
        81622
    } else if k == 39 {
        82095
    } else if k == 40 {
        82570
    } else if k == 41 {
        83049
    } else if k == 42 {
        83530
    } else if k == 43 {
        84013
    } else if k == 44 {
        84500
    } else if k == 45 {
        84990
    } else if k == 46 {
        85482
    } else if k == 47 {
        85977
    } else if k == 48 {
        86475
    } else if k == 49 {
        86976
    } else if k == 50 {
        87480
    } else if k == 51 {
        87987
    } else if k == 52 {
        88497
    } else if k == 53 {
        89009
    } else if k == 54 {
        89525
    } else if k == 55 {
        90043
    } else if k == 56 {
        90565
    } else if k == 57 {
        91090
    } else if k == 58 {
        91617
    } else if k == 59 {
        92148
    } else if k == 60 {
        92682
    } else if k == 61 {
        93219
    } else if k == 62 {
        93759
    } else if k == 63 {
        94302
    } else if k == 64 {
        94848
    } else if k == 65 {
        95398
    } else if k == 66 {
        95950
    } else if k == 67 {
        96506
    } else if k == 68 {
        97065
    } else if k == 69 {
        97628
    } else if k == 70 {
        98193
    } else if k == 71 {
        98762
    } else if k == 72 {
        99334
    } else if k == 73 {
        99909
    } else if k == 74 {
        100488
    } else if k == 75 {
        101070
    } else if k == 76 {
        101656
    } else if k == 77 {
        102245
    } else if k == 78 {
        102837
    } else if k == 79 {
        103433
    } else if k == 80 {
        104032
    } else if k == 81 {
        104635
    } else if k == 82 {
        105241
    } else if k == 83 {
        105850
    } else if k == 84 {
        106464
    } else if k == 85 {
        107080
    } else if k == 86 {
        107701
    } else if k == 87 {
        108324
    } else if k == 88 {
        108952
    } else if k == 89 {
        109583
    } else if k == 90 {
        110218
    } else if k == 91 {
        110856
    } else if k == 92 {
        111499
    } else if k == 93 {
        112145
    } else if k == 94 {
        112794
    } else if k == 95 {
        113448
    } else if k == 96 {
        114105
    } else if k == 97 {
        114766
    } else if k == 98 {
        115431
    } else if k == 99 {
        116099
    } else if k == 100 {
        116772
    } else if k == 101 {
        117448
    } else if k == 102 {
        118129
    } else if k == 103 {
        118813
    } else if k == 104 {
        119501
    } else if k == 105 {
        120194
    } else if k == 106 {
        120890
    } else if k == 107 {
        121590
    } else if k == 108 {
        122295
    } else if k == 109 {
        123003
    } else if k == 110 {
        123715
    } else if k == 111 {
        124432
    } else if k == 112 {
        125153
    } else if k == 113 {
        125878
    } else if k == 114 {
        126607
    } else if k == 115 {
        127341
    } else if k == 116 {
        128078
    } else if k == 117 {
        128820
    } else if k == 118 {
        129567
    } else if k == 119 {
        130317
    } else {
        131072
    }
}

fn step(k: u64) -> (r: u64)
    requires
        k <= 120,
    ensures
        r == step_ratio(k as int),
{
    if k <= 0 {
        65536
    } else if k == 1 {
        65916
    } else if k == 2 {
        66297
    } else if k == 3 {
        66682
    } else if k == 4 {
        67068
    } else if k == 5 {
        67456
    } else if k == 6 {
        67847
    } else if k == 7 {
        68240
    } else if k == 8 {
        68635
    } else if k == 9 {
        69033
    } else if k == 10 {
        69433
    } else if k == 11 {
        69835
    } else if k == 12 {
        70240
    } else if k == 13 {
        70647
    } else if k == 14 {
        71056
    } else if k == 15 {
        71468
    } else if k == 16 {
        71882
    } else if k == 17 {
        72298
    } else if k == 18 {
        72717
    } else if k == 19 {
        73138
    } else if k == 20 {
        73562
    } else if k == 21 {
        73988
    } else if k == 22 {
        74416
    } else if k == 23 {
        74848
    } else if k == 24 {
        75281
    } else if k == 25 {
        75717
    } else if k == 26 {
        76156
    } else if k == 27 {
        76597
    } else if k == 28 {
        77041
    } else if k == 29 {
        77487
    } else if k == 30 {
        77936
    } else if k == 31 {
        78387
    } else if k == 32 {
        78841
    } else if k == 33 {
        79298
    } else if k == 34 {
        79758
    } else if k == 35 {
        80220
    } else if k == 36 {
        80684
    } else if k == 37 {
        81152
    } else if k == 38 {
        81622
    } else if k == 39 {
        82095
    } else if k == 40 {
        82570
    } else if k == 41 {
        83049
    } else if k == 42 {
        83530
    } else if k == 43 {
        84013
    } else if k == 44 {
        84500
    } else if k == 45 {
        84990
    } else if k == 46 {
        85482
    } else if k == 47 {
        85977
    } else if k == 48 {
        86475
    } else if k == 49 {
        86976
    } else if k == 50 {
        87480
    } else if k == 51 {
        87987
    } else if k == 52 {
        88497
    } else if k == 53 {
        89009
    } else if k == 54 {
        89525
    } else if k == 55 {
        90043
    } else if k == 56 {
        90565
    } else if k == 57 {
        91090
    } else if k == 58 {
        91617
    } else if k == 59 {
        92148
    } else if k == 60 {
        92682
    } else if k == 61 {
        93219
    } else if k == 62 {
        93759
    } else if k == 63 {
        94302
    } else if k == 64 {
        94848
    } else if k == 65 {
        95398
    } else if k == 66 {
        95950
    } else if k == 67 {
        96506
    } else if k == 68 {
        97065
    } else if k == 69 {
        97628
    } else if k == 70 {
        98193
    } else if k == 71 {
        98762
    } else if k == 72 {
        99334
    } else if k == 73 {
        99909
    } else if k == 74 {
        100488
    } else if k == 75 {
        101070
    } else if k == 76 {
        101656
    } else if k == 77 {
        102245
    } else if k == 78 {
        102837
    } else if k == 79 {
        103433
    } else if k == 80 {
        104032
    } else if k == 81 {
        104635
    } else if k == 82 {
        105241
    } else if k == 83 {
        105850
    } else if k == 84 {
        106464
    } else if k == 85 {
        107080
    } else if k == 86 {
        107701
    } else if k == 87 {
        108324
    } else if k == 88 {
        108952
    } else if k == 89 {
        109583
    } else if k == 90 {
        110218
    } else if k == 91 {
        110856
    } else if k == 92 {
        111499
    } else if k == 93 {
        112145
    } else if k == 94 {
        112794
    } else if k == 95 {
        113448
    } else if k == 96 {
        114105
    } else if k == 97 {
        114766
    } else if k == 98 {
        115431
    } else if k == 99 {
        116099
    } else if k == 100 {
        116772
    } else if k == 101 {
        117448
    } else if k == 102 {
        118129
    } else if k == 103 {
        118813
    } else if k == 104 {
        119501
    } else if k == 105 {
        120194
    } else if k == 106 {
        120890
    } else if k == 107 {
        121590
    } else if k == 108 {
        122295
    } else if k == 109 {
        123003
    } else if k == 110 {
        123715
    } else if k == 111 {
        124432
    } else if k == 112 {
        125153
    } else if k == 113 {
        125878
    } else if k == 114 {
        126607
    } else if k == 115 {
        127341
    } else if k == 116 {
        128078
    } else if k == 117 {
        128820
    } else if k == 118 {
        129567
    } else if k == 119 {
        130317
    } else {
        131072
    }
}

pub open spec fn pow2(n: nat) -> int
    decreases n,
{
    if n == 0 { 1 } else { 2 * pow2((n - 1) as nat) }
}

/// The playback rate within one octave, `0 <= cents < 1200`: the ratio of
/// the ten-cent step below, moved linearly towards the next one by the
/// cents left; the result is within a few hundredths of a cent of
/// 2^(cents/1200), about the resolution of 16.16 fixed point.
pub open spec fn octave_rate(cents: int) -> int {
    let k = cents / 10;
    let c = cents % 10;
    step_ratio(k) + (step_ratio(k + 1) - step_ratio(k)) * c / 10
}

/// The playback rate, in 16.16 fixed point, of a sample played `cents` above
/// its own pitch: an octave up doubles it (up to `MAX_OCTAVE` octaves), an
/// octave down halves it, rounding down.
pub open spec fn pitch_speed(cents: int) -> int {
    let oct = cents / 1200;
    let base = octave_rate(cents % 1200);
    if oct >= 0 {
        base * pow2((if oct > MAX_OCTAVE { MAX_OCTAVE as int } else { oct }) as nat)
    } else {
        base / pow2((-oct) as nat)
    }
}

proof fn lemma_pow2_pos(n: nat)
    ensures
        pow2(n) >= 1,
    decreases n,
{
    if n > 0 {
        lemma_pow2_pos((n - 1) as nat);
    }
}

proof fn lemma_octave_rate_bounds(cents: int)
    requires
        0 <= cents < 1200,
    ensures
        65536 <= octave_rate(cents) <= 131072,
{
    let k = cents / 10;
    let c = cents % 10;
    assert(0 <= k < 120);
    assert(0 <= c < 10);
    let lo = step_ratio(k);
    let hi = step_ratio(k + 1);
    assert(65536 <= lo < hi <= 131072);
    assert(0 <= (hi - lo) * c <= (hi - lo) * 10) by (nonlinear_arith)
        requires lo < hi, 0 <= c < 10;
    assert((hi - lo) * c / 10 <= hi - lo) by (nonlinear_arith)
        requires 0 <= (hi - lo) * c <= (hi - lo) * 10, lo < hi;
}

/// The playback rate of a sample `cents` above its own pitch.
fn playback_speed(cents: i64) -> (r: u64)
    requires
        -0x100_0000_0000 <= cents <= 0x100_0000_0000,
    ensures
        r == pitch_speed(cents as int),
        r <= 131072 * 32768,
{
    let oct: i64 = if cents >= 0 { cents / 1200 } else { -((-cents + 1199) / 1200) };
    let rem: i64 = cents - oct * 1200;
    assert(oct == cents as int / 1200 && rem == cents as int % 1200) by {
        assert(0 <= rem < 1200);
    }
    let k = (rem / 10) as u64;
    let c = (rem % 10) as u64;
    let lo = step(k);
    let hi = step(k + 1);
    proof {
        lemma_octave_rate_bounds(rem as int);
    }
    let base: u64 = lo + (hi - lo) * c / 10;
    let mut r: u64 = base;
    if oct >= 0 {
        let top: u64 = if oct as u64 > MAX_OCTAVE { MAX_OCTAVE } else { oct as u64 };
        let mut i: u64 = 0;
        while i < top
            invariant
                i <= top <= MAX_OCTAVE,
                r == base * pow2(i as nat),
                base <= 131072,
            decreases top - i,
        {
            proof {
                lemma_pow2_pos(i as nat);
                assert(pow2(i as nat) <= 16384) by {
                    lemma_pow2_mono(i as nat, 14);
                    reveal_with_fuel(pow2, 15);
                }
                assert(base * pow2(i as nat) <= 131072 * 16384) by (nonlinear_arith)
                    requires base <= 131072, pow2(i as nat) <= 16384, base >= 0;
            }
            r = r * 2;
            proof {
                assert(pow2((i + 1) as nat) == 2 * pow2(i as nat));
                assert(r == base * pow2((i + 1) as nat)) by (nonlinear_arith)
                    requires r == base * pow2(i as nat) * 2, pow2((i + 1) as nat) == 2 * pow2(i as nat);
            }
            i = i + 1;
        }
        proof {
            lemma_pow2_mono(top as nat, 15);
            reveal_with_fuel(pow2, 16);
            assert(pow2(15) == 32768);
            assert(r <= 131072 * 32768) by (nonlinear_arith)
                requires r == base * pow2(top as nat), base <= 131072, pow2(top as nat) <= 32768, base >= 0;
        }
    } else {
        let down: i64 = -oct;
        let mut i: i64 = 0;
        while i < down
            invariant
                0 <= i <= down,
                r == base as int / pow2(i as nat),
                base <= 131072,
            decreases down - i,
        {
            proof {
                lemma_pow2_pos(i as nat);
                assert(pow2((i + 1) as nat) == 2 * pow2(i as nat));
                vstd::arithmetic::div_mod::lemma_div_denominator(base as int, pow2(i as nat), 2);
            }
            r = r / 2;
            i = i + 1;
        }
        proof {
            lemma_pow2_pos(down as nat);
            assert(r <= base) by {
                vstd::arithmetic::div_mod::lemma_div_is_ordered_by_denominator(base as int, 1, pow2(down as nat));
            }
        }
    }
    r
}

proof fn lemma_pow2_mono(a: nat, b: nat)
    requires
        a <= b,
    ensures
        pow2(a) <= pow2(b),
    decreases b,
{
    if a < b {
        lemma_pow2_mono(a, (b - 1) as nat);
        lemma_pow2_pos((b - 1) as nat);
    }
}

/// A sample at its own pitch plays at rate one.
pub proof fn lemma_unison_speed()
    ensures
        pitch_speed(0) == ONE,
{
    assert(pow2(0) == 1);
    assert(0int / 10 == 0 && 0int % 10 == 0 && 0int / 1200 == 0 && 0int % 1200 == 0);
    assert(octave_rate(0) == 65536);
    assert(65536 * pow2(0) == 65536);
}

/// An octave higher, within the octaves a rate is raised by, doubles the
/// playback rate.
pub proof fn lemma_octave_doubles(cents: int)
    requires
        0 <= cents,
        cents + 1200 < 1200 * (MAX_OCTAVE + 1),
    ensures
        pitch_speed(cents + 1200) == 2 * pitch_speed(cents),
{
    let oct = cents / 1200;
    assert((cents + 1200) / 1200 == oct + 1);
    assert((cents + 1200) % 1200 == cents % 1200);
    let base = octave_rate(cents % 1200);
    assert(pow2((oct + 1) as nat) == 2 * pow2(oct as nat));
    assert(base * pow2((oct + 1) as nat) == 2 * (base * pow2(oct as nat))) by (nonlinear_arith)
        requires pow2((oct + 1) as nat) == 2 * pow2(oct as nat);
}

/// One playback cursor of a sounding note.
///
/// `position` and `end` are 16.16 fixed-point offsets into the bank's wave
/// data; the cursor moves by `speed` once per output frame and is exhausted
/// once `position >= end`.
#[derive(Clone, Copy, PartialEq, Eq, Structural, Debug)]
pub struct VoiceSample {
    pub channel: u8,
    pub note: u8,
    pub speed: u64,
    pub position: u64,
    pub end: u64,
    pub sample_type: SampleType,
    pub velocity: u8,
}

/// The largest fixed-point offset a cursor starts or ends at.
pub open spec fn max_offset() -> int {
    0x7fff_ffff * 65536int
}

impl VoiceSample {
    pub open spec fn wf(self) -> bool {
        self.end <= max_offset() && self.speed <= 131072 * 32768
    }

    pub open spec fn exhausted(self) -> bool {
        self.position >= self.end
    }

    /// The cursor after one output frame: moved on by its speed,
    /// saturating at `u64::MAX`.
    pub open spec fn spec_tick(self) -> VoiceSample {
        let p = self.position + self.speed;
        VoiceSample { position: (if p > 0xffff_ffff_ffff_ffff { 0xffff_ffff_ffff_ffffint } else { p }) as u64, ..self }
    }

    pub fn tick(&self) -> (r: VoiceSample)
        requires
            self.wf(),
        ensures
            r == self.spec_tick(),
            r.wf(),
    {
        let p = if self.position > u64::MAX - self.speed { u64::MAX } else { self.position + self.speed };
        VoiceSample { position: p, ..*self }
    }
}

/// A fixed-point offset from a sample header's offset, negative ones read as 0.
pub open spec fn offset_of(x: i32) -> int {
    if x < 0 { 0 } else { x as int * 65536 }
}

/// The cursor a note starts on a sample region, `None` for a sample of a kind
/// that does not play.
pub open spec fn spec_start_sample(channel: u8, note: u8, velocity: u8, h: SampleRegion) -> Option<VoiceSample> {
    match spec_sample_type(h.sample_type) {
        None => None,
        Some(t) => Some(VoiceSample {
            channel,
            note,
            speed: pitch_speed((note as int - h.original_pitch as int) * 100 + h.pitch_correction as int) as u64,
            position: offset_of(h.start) as u64,
            end: offset_of(h.end) as u64,
            sample_type: t,
            velocity,
        }),
    }
}

pub fn start_sample(channel: u8, note: u8, velocity: u8, h: &SampleRegion) -> (r: Option<VoiceSample>)
    ensures
        r == spec_start_sample(channel, note, velocity, *h),
        r matches Some(v) ==> v.wf(),
{
    let t = match sample_type_of(h.sample_type) {
        Some(t) => t,
        None => return None,
    };
    let cents: i64 = (note as i64 - h.original_pitch as i64) * 100 + h.pitch_correction as i64;
    let speed = playback_speed(cents);
    let position: u64 = if h.start < 0 { 0 } else { h.start as u64 * 65536 };
    let end: u64 = if h.end < 0 { 0 } else { h.end as u64 * 65536 };
    Some(VoiceSample { channel, note, speed, position, end, sample_type: t, velocity })
}

/// The wave data at `i`, 0 outside it.
pub open spec fn wave_at(wave: Seq<i16>, i: int) -> int {
    if 0 <= i < wave.len() { wave[i] as int } else { 0 }
}

/// Division rounding towards zero.
pub open spec fn trunc_div(n: int, d: int) -> int {
    if n >= 0 { n / d } else { -((-n) / d) }
}

/// The value at fixed-point offset `pos`: the two neighbouring entries mixed
/// linearly by the fractional part, scaled by `velocity / 127`, rounded
/// towards zero.
pub open spec fn interpolated(wave: Seq<i16>, pos: int, velocity: int) -> int {
    let i = pos / 65536;
    let f = pos % 65536;
    let a = wave_at(wave, i);
    let b = if f == 0 { a } else { wave_at(wave, i + 1) };
    trunc_div((a * (65536 - f) + b * f) * velocity, 65536int * 127)
}

/// Whether a sample of a kind plays on output channel `ch`: mono ones on
/// every channel, left ones on channel 0, right ones on channel 1.
pub open spec fn plays_on(t: SampleType, ch: int) -> bool {
    match t {
        SampleType::Mono => true,
        SampleType::Left => ch == 0,
        SampleType::Right => ch == 1,
    }
}

/// What a cursor adds to output channel `ch`.
pub open spec fn voice_output(v: VoiceSample, wave: Seq<i16>, ch: int) -> int {
    if !v.exhausted() && plays_on(v.sample_type, ch) {
        interpolated(wave, v.position as int, v.velocity as int)
    } else {
        0
    }
}

pub open spec fn i64_clamp(x: int) -> int {
    if x < -0x8000_0000_0000_0000 {
        -0x8000_0000_0000_0000
    } else if x > 0x7fff_ffff_ffff_ffff {
        0x7fff_ffff_ffff_ffff
    } else {
        x
    }
}

/// The sum of what the first `n` cursors add to channel `ch`, each partial
/// sum held within `i64`.
pub open spec fn voices_sum(vs: Seq<VoiceSample>, wave: Seq<i16>, ch: int, n: int) -> int
    decreases n,
{
    if n <= 0 {
        0
    } else {
        i64_clamp(voices_sum(vs, wave, ch, n - 1) + voice_output(vs[n - 1], wave, ch))
    }
}

proof fn lemma_interpolated_bounds(wave: Seq<i16>, pos: int, velocity: int)
    requires
        0 <= pos,
        0 <= velocity <= 255,
    ensures
        -0x20000 <= interpolated(wave, pos, velocity) <= 0x20000,
{
    let i = pos / 65536;
    let f = pos % 65536;
    let a = wave_at(wave, i);
    let b = if f == 0 { a } else { wave_at(wave, i + 1) };
    assert(-32768 <= a <= 32767 && -32768 <= b <= 32767);
    let m = a * (65536 - f) + b * f;
    assert(-32768 * 65536 <= m <= 32767 * 65536) by (nonlinear_arith)
        requires -32768 <= a <= 32767, -32768 <= b <= 32767, 0 <= f < 65536, m == a * (65536 - f) + b * f;
    let n = m * velocity;
    assert(-32768 * 65536 * 255 <= n <= 32767 * 65536 * 255) by (nonlinear_arith)
        requires -32768 * 65536 <= m <= 32767 * 65536, 0 <= velocity <= 255, n == m * velocity;
    let d = 65536int * 127;
    if n >= 0 {
        vstd::arithmetic::div_mod::lemma_div_is_ordered(n, 32767int * 65536 * 255, d);
        vstd::arithmetic::div_mod::lemma_div_pos_is_pos(n, d);
    } else {
        vstd::arithmetic::div_mod::lemma_div_is_ordered(-n, 32768int * 65536 * 255, d);
        vstd::arithmetic::div_mod::lemma_div_pos_is_pos(-n, d);
    }
}

/// What a cursor adds to output channel `ch`.
pub fn sample_value(v: &VoiceSample, wave: &Vec<i16>, ch: u16) -> (r: i64)
    ensures
        r == voice_output(*v, wave@, ch as int),
        -0x20000 <= r <= 0x20000,
{
    let plays = match v.sample_type {
        SampleType::Mono => true,
        SampleType::Left => ch == 0,
        SampleType::Right => ch == 1,
    };
    if v.position >= v.end || !plays {
        return 0;
    }
    proof {
        lemma_interpolated_bounds(wave@, v.position as int, v.velocity as int);
    }
    let i = v.position / 65536;
    let f = v.position % 65536;
    let a: i64 = if i < wave.len() as u64 { wave[i as usize] as i64 } else { 0 };
    let b: i64 = if f == 0 {
        a
    } else if i + 1 < wave.len() as u64 {
        wave[(i + 1) as usize] as i64
    } else {
        0
    };
    let fi = f as i64;
    assert(-32768 <= a <= 32767 && -32768 <= b <= 32767 && 0 <= fi < 65536);
    assert(-32768 * 65536 <= a * (65536 - fi) <= 32768 * 65536) by (nonlinear_arith)
        requires -32768 <= a <= 32767, 0 <= fi < 65536;
    assert(-32768 * 65536 <= b * fi <= 32768 * 65536) by (nonlinear_arith)
        requires -32768 <= b <= 32767, 0 <= fi < 65536;
    assert(-32768 * 65536 <= a * (65536 - fi) + b * fi <= 32767 * 65536) by (nonlinear_arith)
        requires -32768 <= a <= 32767, -32768 <= b <= 32767, 0 <= fi < 65536;
    let m: i64 = a * (65536 - fi) + b * fi;
    assert(-32768 * 65536 * 255 <= m * v.velocity as i64 <= 32767 * 65536 * 255) by (nonlinear_arith)
        requires -32768 * 65536 <= m <= 32767 * 65536, 0 <= v.velocity <= 255;
    let n: i64 = m * v.velocity as i64;
    let d: i64 = 65536 * 127;
    if n >= 0 {
        n / d
    } else {
        -((-n) / d)
    }
}

/// The sum of what every cursor adds to output channel `ch`.
pub fn sum_voices(vs: &Vec<VoiceSample>, wave: &Vec<i16>, ch: u16) -> (r: i64)
    ensures
        r == voices_sum(vs@, wave@, ch as int, vs@.len() as int),
{
    let mut acc: i64 = 0;
    let mut i: usize = 0;
    while i < vs.len()
        invariant
            i <= vs.len(),
            acc == voices_sum(vs@, wave@, ch as int, i as int),
        decreases vs.len() - i,
    {
        let x = sample_value(&vs[i], wave, ch);
        acc = if x >= 0 {
            if acc > i64::MAX - x { i64::MAX } else { acc + x }
        } else {
            if acc < i64::MIN - x { i64::MIN } else { acc + x }
        };
        i = i + 1;
    }
    acc
}

} // verus!
