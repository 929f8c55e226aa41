//! A read-only SoundFont sample bank: presets found by (bank, patch), and the
//! sample regions that a note at a velocity sounds.
use rustysynth::{Instrument, InstrumentRegion, Preset, PresetRegion, SampleHeader, SoundFont};
use vstd::prelude::*;

verus! {

#[verifier::external_type_specification]
#[verifier::external_body]
pub struct ExSoundFont(SoundFont);

#[verifier::external_type_specification]
#[verifier::external_body]
pub struct ExPreset(Preset);

#[verifier::external_type_specification]
#[verifier::external_body]
pub struct ExPresetRegion(PresetRegion);

#[verifier::external_type_specification]
#[verifier::external_body]
pub struct ExInstrument(Instrument);

#[verifier::external_type_specification]
#[verifier::external_body]
pub struct ExInstrumentRegion(InstrumentRegion);

#[verifier::external_type_specification]
#[verifier::external_body]
pub struct ExSampleHeader(SampleHeader);

pub uninterp spec fn presets_of(sf: SoundFont) -> Seq<Preset>;

/// The presets of a SoundFont, in file order.
pub assume_specification[ SoundFont::get_presets ](sf: &SoundFont) -> (r: &[Preset])
    ensures
        r@ == presets_of(*sf),
;

pub uninterp spec fn instruments_of(sf: SoundFont) -> Seq<Instrument>;

/// The instruments of a SoundFont, in file order.
pub assume_specification[ SoundFont::get_instruments ](sf: &SoundFont) -> (r: &[Instrument])
    ensures
        r@ == instruments_of(*sf),
;

pub uninterp spec fn sample_headers_of(sf: SoundFont) -> Seq<SampleHeader>;

/// The sample headers of a SoundFont, in file order.
pub assume_specification[ SoundFont::get_sample_headers ](sf: &SoundFont) -> (r: &[SampleHeader])
    ensures
        r@ == sample_headers_of(*sf),
;

pub uninterp spec fn wave_data_of(sf: SoundFont) -> Seq<i16>;

/// The wave data of a SoundFont.
pub assume_specification[ SoundFont::get_wave_data ](sf: &SoundFont) -> (r: &[i16])
    ensures
        r@ == wave_data_of(*sf),
;

pub uninterp spec fn bank_number_of(p: Preset) -> i32;

/// A preset's bank number.
pub assume_specification[ Preset::get_bank_number ](p: &Preset) -> (r: i32)
    ensures
        r == bank_number_of(*p),
;

pub uninterp spec fn patch_number_of(p: Preset) -> i32;

/// A preset's patch number.
pub assume_specification[ Preset::get_patch_number ](p: &Preset) -> (r: i32)
    ensures
        r == patch_number_of(*p),
;

pub uninterp spec fn preset_regions_of(p: Preset) -> Seq<PresetRegion>;

/// A preset's regions.
pub assume_specification[ Preset::get_regions ](p: &Preset) -> (r: &[PresetRegion])
    ensures
        r@ == preset_regions_of(*p),
;

pub uninterp spec fn preset_key_start_of(z: PresetRegion) -> i32;

/// The low byte of the key-range generator.
pub assume_specification[ PresetRegion::get_key_range_start ](z: &PresetRegion) -> (r: i32)
    ensures
        r == preset_key_start_of(*z),
        0 <= r <= 255,
;

pub uninterp spec fn preset_key_end_of(z: PresetRegion) -> i32;

/// The high byte of the key-range generator.
pub assume_specification[ PresetRegion::get_key_range_end ](z: &PresetRegion) -> (r: i32)
    ensures
        r == preset_key_end_of(*z),
        0 <= r <= 255,
;

pub uninterp spec fn preset_velocity_start_of(z: PresetRegion) -> i32;

/// The low byte of the velocity-range generator.
pub assume_specification[ PresetRegion::get_velocity_range_start ](z: &PresetRegion) -> (r: i32)
    ensures
        r == preset_velocity_start_of(*z),
        0 <= r <= 255,
;

pub uninterp spec fn preset_velocity_end_of(z: PresetRegion) -> i32;

/// The high byte of the velocity-range generator.
pub assume_specification[ PresetRegion::get_velocity_range_end ](z: &PresetRegion) -> (r: i32)
    ensures
        r == preset_velocity_end_of(*z),
        0 <= r <= 255,
;

pub uninterp spec fn instrument_id_of(z: PresetRegion) -> usize;

/// The instrument a preset region plays.
pub assume_specification[ PresetRegion::get_instrument_id ](z: &PresetRegion) -> (r: usize)
    ensures
        r == instrument_id_of(*z),
;

pub uninterp spec fn instrument_regions_of(i: Instrument) -> Seq<InstrumentRegion>;

/// An instrument's regions.
pub assume_specification[ Instrument::get_regions ](i: &Instrument) -> (r: &[InstrumentRegion])
    ensures
        r@ == instrument_regions_of(*i),
;

pub uninterp spec fn instrument_key_start_of(z: InstrumentRegion) -> i32;

/// The low byte of the key-range generator.
pub assume_specification[ InstrumentRegion::get_key_range_start ](z: &InstrumentRegion) -> (r: i32)
    ensures
        r == instrument_key_start_of(*z),
        0 <= r <= 255,
;

pub uninterp spec fn instrument_key_end_of(z: InstrumentRegion) -> i32;

/// The high byte of the key-range generator.
pub assume_specification[ InstrumentRegion::get_key_range_end ](z: &InstrumentRegion) -> (r: i32)
    ensures
        r == instrument_key_end_of(*z),
        0 <= r <= 255,
;

pub uninterp spec fn instrument_velocity_start_of(z: InstrumentRegion) -> i32;

/// The low byte of the velocity-range generator.
pub assume_specification[ InstrumentRegion::get_velocity_range_start ](z: &InstrumentRegion) -> (r: i32)
    ensures
        r == instrument_velocity_start_of(*z),
        0 <= r <= 255,
;

pub uninterp spec fn instrument_velocity_end_of(z: InstrumentRegion) -> i32;

/// The high byte of the velocity-range generator.
pub assume_specification[ InstrumentRegion::get_velocity_range_end ](z: &InstrumentRegion) -> (r: i32)
    ensures
        r == instrument_velocity_end_of(*z),
        0 <= r <= 255,
;

pub uninterp spec fn sample_id_of(z: InstrumentRegion) -> usize;

/// The sample an instrument region plays.
pub assume_specification[ InstrumentRegion::get_sample_id ](z: &InstrumentRegion) -> (r: usize)
    ensures
        r == sample_id_of(*z),
;

pub uninterp spec fn sample_start_of(h: SampleHeader) -> i32;

/// Where a sample starts in the wave data.
pub assume_specification[ SampleHeader::get_start ](h: &SampleHeader) -> (r: i32)
    ensures
        r == sample_start_of(*h),
;

pub uninterp spec fn sample_end_of(h: SampleHeader) -> i32;

/// Where a sample ends in the wave data.
pub assume_specification[ SampleHeader::get_end ](h: &SampleHeader) -> (r: i32)
    ensures
        r == sample_end_of(*h),
;

pub uninterp spec fn original_pitch_of(h: SampleHeader) -> i32;

/// The key a sample sounds at its own pitch.
pub assume_specification[ SampleHeader::get_original_pitch ](h: &SampleHeader) -> (r: i32)
    ensures
        r == original_pitch_of(*h),
;

pub uninterp spec fn pitch_correction_of(h: SampleHeader) -> i32;

/// A sample's pitch correction in cents.
pub assume_specification[ SampleHeader::get_pitch_correction ](h: &SampleHeader) -> (r: i32)
    ensures
        r == pitch_correction_of(*h),
;

pub uninterp spec fn sample_type_number_of(h: SampleHeader) -> i32;

/// A sample's type number.
pub assume_specification[ SampleHeader::get_sample_type ](h: &SampleHeader) -> (r: i32)
    ensures
        r == sample_type_number_of(*h),
;

/// The key and velocity ranges of a region, both ends included.
#[derive(Clone, Copy, PartialEq, Eq, Structural, Debug)]
pub struct Zone {
    pub key_start: i32,
    pub key_end: i32,
    pub velocity_start: i32,
    pub velocity_end: i32,
}

impl Zone {
    pub open spec fn spec_contains(self, key: int, velocity: int) -> bool {
        self.key_start <= key <= self.key_end && self.velocity_start <= velocity
            <= self.velocity_end
    }

    pub fn contains(&self, key: i32, velocity: i32) -> (r: bool)
        ensures
            r == self.spec_contains(key as int, velocity as int),
    {
        self.key_start <= key && key <= self.key_end && self.velocity_start <= velocity
            && velocity <= self.velocity_end
    }
}

/// A preset region: a zone and the instrument it plays.
#[derive(Clone, Copy, PartialEq, Eq, Structural, Debug)]
pub struct PresetZone {
    pub zone: Zone,
    pub instrument_id: usize,
}

/// An instrument region: a zone and the sample it plays.
#[derive(Clone, Copy, PartialEq, Eq, Structural, Debug)]
pub struct InstrumentZone {
    pub zone: Zone,
    pub sample_id: usize,
}

pub struct PresetData {
    pub bank_number: i32,
    pub patch_number: i32,
    pub regions: Vec<PresetZone>,
}

pub struct InstrumentData {
    pub regions: Vec<InstrumentZone>,
}

/// What a voice needs of a sample: where it lies in the wave data, its pitch
/// and its kind (1 mono, 2 right, 4 left).
#[derive(Clone, Copy, PartialEq, Eq, Structural, Debug)]
pub struct SampleRegion {
    pub start: i32,
    pub end: i32,
    pub original_pitch: i32,
    pub pitch_correction: i32,
    pub sample_type: i32,
}

/// The sample bank. Presets are found by the low bytes of their bank and
/// patch numbers; where two share them, the later one wins.
pub struct SoundFontBank {
    pub presets: Vec<PresetData>,
    pub instruments: Vec<InstrumentData>,
    pub sample_headers: Vec<SampleRegion>,
    pub wave_data: Vec<i16>,
}

pub open spec fn preset_zone_read(z: PresetRegion) -> PresetZone {
    PresetZone {
        zone: Zone {
            key_start: preset_key_start_of(z),
            key_end: preset_key_end_of(z),
            velocity_start: preset_velocity_start_of(z),
            velocity_end: preset_velocity_end_of(z),
        },
        instrument_id: instrument_id_of(z),
    }
}

pub open spec fn instrument_zone_read(z: InstrumentRegion) -> InstrumentZone {
    InstrumentZone {
        zone: Zone {
            key_start: instrument_key_start_of(z),
            key_end: instrument_key_end_of(z),
            velocity_start: instrument_velocity_start_of(z),
            velocity_end: instrument_velocity_end_of(z),
        },
        sample_id: sample_id_of(z),
    }
}

/// `d` holds what a preset's getters give, its regions in order.
pub open spec fn preset_read(d: PresetData, p: Preset) -> bool {
    &&& d.bank_number == bank_number_of(p)
    &&& d.patch_number == patch_number_of(p)
    &&& d.regions@.len() == preset_regions_of(p).len()
    &&& forall|k: int| 0 <= k < d.regions@.len() ==> #[trigger] d.regions@[k] == preset_zone_read(preset_regions_of(p)[k])
}

/// `d` holds an instrument's regions in order.
pub open spec fn instrument_read(d: InstrumentData, i: Instrument) -> bool {
    &&& d.regions@.len() == instrument_regions_of(i).len()
    &&& forall|k: int| 0 <= k < d.regions@.len() ==> #[trigger] d.regions@[k] == instrument_zone_read(instrument_regions_of(i)[k])
}

pub open spec fn header_read(h: SampleHeader) -> SampleRegion {
    SampleRegion {
        start: sample_start_of(h),
        end: sample_end_of(h),
        original_pitch: original_pitch_of(h),
        pitch_correction: pitch_correction_of(h),
        sample_type: sample_type_number_of(h),
    }
}

/// The index of the last preset among the first `n` whose low bytes of bank
/// and patch number are `bank` and `patch`.
pub open spec fn preset_lookup(presets: Seq<PresetData>, bank: u8, patch: u8, n: int) -> Option<int>
    decreases n,
{
    if n <= 0 {
        None
    } else if presets[n - 1].bank_number as u8 == bank && presets[n - 1].patch_number as u8 == patch {
        Some(n - 1)
    } else {
        preset_lookup(presets, bank, patch, n - 1)
    }
}

impl SoundFontBank {
    /// The sample regions that the first `n` zones of an instrument give for
    /// a key and velocity; zones naming no sample give none.
    pub open spec fn instrument_samples(self, zones: Seq<InstrumentZone>, key: int, velocity: int, n: int) -> Seq<SampleRegion>
        decreases n,
    {
        if n <= 0 {
            seq![]
        } else {
            let prev = self.instrument_samples(zones, key, velocity, n - 1);
            let z = zones[n - 1];
            if z.zone.spec_contains(key, velocity) && z.sample_id < self.sample_headers@.len() {
                prev.push(self.sample_headers@[z.sample_id as int])
            } else {
                prev
            }
        }
    }

    /// The sample regions that the first `n` zones of a preset give.
    pub open spec fn preset_samples(self, zones: Seq<PresetZone>, key: int, velocity: int, n: int) -> Seq<SampleRegion>
        decreases n,
    {
        if n <= 0 {
            seq![]
        } else {
            let prev = self.preset_samples(zones, key, velocity, n - 1);
            let z = zones[n - 1];
            if z.zone.spec_contains(key, velocity) && z.instrument_id < self.instruments@.len() {
                let inst = self.instruments@[z.instrument_id as int].regions@;
                prev + self.instrument_samples(inst, key, velocity, inst.len() as int)
            } else {
                prev
            }
        }
    }

    /// What `resolve` gives: `None` where no preset has the bank and patch.
    pub open spec fn spec_resolve(self, key: int, velocity: int, bank: u8, patch: u8) -> Option<Seq<SampleRegion>> {
        match preset_lookup(self.presets@, bank, patch, self.presets@.len() as int) {
            None => None,
            Some(p) => {
                let zones = self.presets@[p].regions@;
                Some(self.preset_samples(zones, key, velocity, zones.len() as int))
            },
        }
    }

    /// Reads a bank out of a loaded SoundFont: its presets, instruments and
    /// sample headers, in order, and its wave data.
    pub fn new(soundfont: &SoundFont) -> (r: SoundFontBank)
        ensures
            r.presets@.len() == presets_of(*soundfont).len(),
            forall|i: int| 0 <= i < r.presets@.len() ==> preset_read(#[trigger] r.presets@[i], presets_of(*soundfont)[i]),
            r.instruments@.len() == instruments_of(*soundfont).len(),
            forall|i: int| 0 <= i < r.instruments@.len() ==> instrument_read(#[trigger] r.instruments@[i], instruments_of(*soundfont)[i]),
            r.sample_headers@.len() == sample_headers_of(*soundfont).len(),
            forall|i: int| 0 <= i < r.sample_headers@.len() ==> #[trigger] r.sample_headers@[i] == header_read(sample_headers_of(*soundfont)[i]),
            r.wave_data@ == wave_data_of(*soundfont),
    {
        let presets_in = soundfont.get_presets();
        let mut presets: Vec<PresetData> = Vec::new();
        let mut i: usize = 0;
        while i < presets_in.len()
            invariant
                i <= presets_in@.len(),
                presets_in@ == presets_of(*soundfont),
                presets@.len() == i,
                forall|k: int| 0 <= k < i ==> preset_read(#[trigger] presets@[k], presets_in@[k]),
            decreases presets_in@.len() - i,
        {
            let p = &presets_in[i];
            let zones = p.get_regions();
            let mut regions: Vec<PresetZone> = Vec::new();
            let mut j: usize = 0;
            while j < zones.len()
                invariant
                    j <= zones@.len(),
                    zones@ == preset_regions_of(*p),
                    regions@.len() == j,
                    forall|k: int| 0 <= k < j ==> #[trigger] regions@[k] == preset_zone_read(zones@[k]),
                decreases zones@.len() - j,
            {
                let z = &zones[j];
                let zone = Zone {
                    key_start: z.get_key_range_start(),
                    key_end: z.get_key_range_end(),
                    velocity_start: z.get_velocity_range_start(),
                    velocity_end: z.get_velocity_range_end(),
                };
                regions.push(PresetZone { zone, instrument_id: z.get_instrument_id() });
                j = j + 1;
            }
            presets.push(PresetData { bank_number: p.get_bank_number(), patch_number: p.get_patch_number(), regions });
            i = i + 1;
        }
        let instruments_in = soundfont.get_instruments();
        let mut instruments: Vec<InstrumentData> = Vec::new();
        let mut i: usize = 0;
        while i < instruments_in.len()
            invariant
                i <= instruments_in@.len(),
                instruments_in@ == instruments_of(*soundfont),
                instruments@.len() == i,
                forall|k: int| 0 <= k < i ==> instrument_read(#[trigger] instruments@[k], instruments_in@[k]),
            decreases instruments_in@.len() - i,
        {
            let inst = &instruments_in[i];
            let zones = inst.get_regions();
            let mut regions: Vec<InstrumentZone> = Vec::new();
            let mut j: usize = 0;
            while j < zones.len()
                invariant
                    j <= zones@.len(),
                    zones@ == instrument_regions_of(*inst),
                    regions@.len() == j,
                    forall|k: int| 0 <= k < j ==> #[trigger] regions@[k] == instrument_zone_read(zones@[k]),
                decreases zones@.len() - j,
            {
                let z = &zones[j];
                let zone = Zone {
                    key_start: z.get_key_range_start(),
                    key_end: z.get_key_range_end(),
                    velocity_start: z.get_velocity_range_start(),
                    velocity_end: z.get_velocity_range_end(),
                };
                regions.push(InstrumentZone { zone, sample_id: z.get_sample_id() });
                j = j + 1;
            }
            instruments.push(InstrumentData { regions });
            i = i + 1;
        }
        let headers_in = soundfont.get_sample_headers();
        let mut sample_headers: Vec<SampleRegion> = Vec::new();
        let mut i: usize = 0;
        while i < headers_in.len()
            invariant
                i <= headers_in@.len(),
                headers_in@ == sample_headers_of(*soundfont),
                sample_headers@.len() == i,
                forall|k: int| 0 <= k < i ==> #[trigger] sample_headers@[k] == header_read(headers_in@[k]),
            decreases headers_in@.len() - i,
        {
            let h = &headers_in[i];
            sample_headers.push(
                SampleRegion {
                    start: h.get_start(),
                    end: h.get_end(),
                    original_pitch: h.get_original_pitch(),
                    pitch_correction: h.get_pitch_correction(),
                    sample_type: h.get_sample_type(),
                },
            );
            i = i + 1;
        }
        let wave_in = soundfont.get_wave_data();
        let mut wave_data: Vec<i16> = Vec::new();
        let mut i: usize = 0;
        while i < wave_in.len()
            invariant
                i <= wave_in@.len(),
                wave_in@ == wave_data_of(*soundfont),
                wave_data@ == wave_in@.take(i as int),
            decreases wave_in@.len() - i,
        {
            wave_data.push(wave_in[i]);
            assert(wave_data@ =~= wave_in@.take(i + 1));
            i = i + 1;
        }
        assert(wave_data@ =~= wave_in@);
        SoundFontBank { presets, instruments, sample_headers, wave_data }
    }

    /// Finds the preset for a bank and patch.
    pub fn find_preset(&self, bank: u8, patch: u8) -> (r: Option<usize>)
        ensures
            r matches Some(i) ==> i < self.presets@.len() && preset_lookup(self.presets@, bank, patch, self.presets@.len() as int) == Some(i as int),
            r is None ==> preset_lookup(self.presets@, bank, patch, self.presets@.len() as int) is None,
    {
        let mut n: usize = self.presets.len();
        while n > 0
            invariant
                n <= self.presets.len(),
                preset_lookup(self.presets@, bank, patch, self.presets@.len() as int)
                    == preset_lookup(self.presets@, bank, patch, n as int),
            decreases n,
        {
            let p = &self.presets[n - 1];
            if p.bank_number as u8 == bank && p.patch_number as u8 == patch {
                return Some(n - 1);
            }
            n = n - 1;
        }
        None
    }

    /// The sample regions that sound `key` at `velocity` on the preset at
    /// (`bank_number`, `patch_number`): those of every instrument zone that
    /// contains them, under every preset zone that contains them, in order.
    /// `None` where no preset has that bank and patch; an empty list where
    /// no zone matches.
    pub fn get_sample_headers(&self, key: i32, velocity: i32, bank_number: u8, patch_number: u8) -> (r: Option<Vec<SampleRegion>>)
        ensures
            match self.spec_resolve(key as int, velocity as int, bank_number, patch_number) {
                None => r is None,
                Some(s) => r matches Some(v) && v@ == s,
            },
    {
        let p = match self.find_preset(bank_number, patch_number) {
            Some(p) => p,
            None => return None,
        };
        let zones = &self.presets[p].regions;
        let mut out: Vec<SampleRegion> = Vec::new();
        let mut i: usize = 0;
        while i < zones.len()
            invariant
                i <= zones.len(),
                out@ == self.preset_samples(zones@, key as int, velocity as int, i as int),
            decreases zones.len() - i,
        {
            let z = zones[i];
            if z.zone.contains(key, velocity) && z.instrument_id < self.instruments.len() {
                let inst = &self.instruments[z.instrument_id].regions;
                let ghost before = out@;
                let mut j: usize = 0;
                while j < inst.len()
                    invariant
                        j <= inst.len(),
                        out@ == before + self.instrument_samples(inst@, key as int, velocity as int, j as int),
                    decreases inst.len() - j,
                {
                    let iz = inst[j];
                    if iz.zone.contains(key, velocity) && iz.sample_id < self.sample_headers.len() {
                        out.push(self.sample_headers[iz.sample_id]);
                        assert(out@ =~= before + self.instrument_samples(inst@, key as int, velocity as int, j + 1));
                    }
                    j = j + 1;
                }
            }
            i = i + 1;
        }
        Some(out)
    }
}

} // verus!
