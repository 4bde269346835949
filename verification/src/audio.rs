//! Microphone recording: the recorder's control state, the choice of input device, the
//! warm-up gate on captured samples, and the WAV file of a recording.
use vstd::prelude::*;
use crate::text::str_eq;

verus! {

/// The control state of the recorder. The sample buffer and the audio stream live with
/// the caller, which follows these flags.
#[derive(Debug)]
pub struct RecorderControl {
    /// Captured samples are kept.
    pub is_recording: bool,
    /// The persistent input-stream thread is running (or must keep running).
    pub stream_active: bool,
    /// Name of the input device to open; the default device when `None`.
    pub preferred_device: Option<String>,
    pub sample_rate: u32,
    pub channels: u16,
}

impl RecorderControl {
    /// Idle, no stream, default device, 44.1 kHz mono until a stream reports its format.
    pub fn new() -> (r: Self)
        ensures
            !r.is_recording,
            !r.stream_active,
            r.preferred_device is None,
            r.sample_rate == 44_100,
            r.channels == 1,
    {
        RecorderControl {
            is_recording: false,
            stream_active: false,
            preferred_device: None,
            sample_rate: 44_100,
            channels: 1,
        }
    }

    /// Starts keeping samples. Returns whether a stream thread must be spawned: only when
    /// none is running.
    pub fn start_recording(&mut self) -> (spawn: bool)
        ensures
            final(self).is_recording,
            final(self).stream_active,
            spawn == !old(self).stream_active,
            final(self).preferred_device == old(self).preferred_device,
            final(self).sample_rate == old(self).sample_rate,
            final(self).channels == old(self).channels,
    {
        self.is_recording = true;
        if !self.stream_active {
            self.stream_active = true;
            true
        } else {
            false
        }
    }

    /// Chooses the input device. The running stream is told to stop, so that the next
    /// recording opens the new device.
    pub fn set_preferred_device(&mut self, name: Option<String>)
        ensures
            !final(self).stream_active,
            final(self).preferred_device == name,
            final(self).is_recording == old(self).is_recording,
            final(self).sample_rate == old(self).sample_rate,
            final(self).channels == old(self).channels,
    {
        self.stream_active = false;
        self.preferred_device = name;
    }

    /// Stops keeping samples.
    pub fn stop_recording(&mut self)
        ensures
            !final(self).is_recording,
            final(self).stream_active == old(self).stream_active,
            final(self).preferred_device == old(self).preferred_device,
            final(self).sample_rate == old(self).sample_rate,
            final(self).channels == old(self).channels,
    {
        self.is_recording = false;
    }

    /// Records the format of the stream that was opened.
    pub fn set_stream_format(&mut self, sample_rate: u32, channels: u16)
        ensures
            final(self).sample_rate == sample_rate,
            final(self).channels == channels,
            final(self).is_recording == old(self).is_recording,
            final(self).stream_active == old(self).stream_active,
            final(self).preferred_device == old(self).preferred_device,
    {
        self.sample_rate = sample_rate;
        self.channels = channels;
    }
}

/// The device a setting names: none (the default device) for an empty name.
pub fn device_setting(device_name: String) -> (r: Option<String>)
    ensures
        device_name@.len() == 0 ==> r is None,
        device_name@.len() != 0 ==> r == Some(device_name),
{
    if device_name.as_str().is_empty() {
        None
    } else {
        Some(device_name)
    }
}

/// Which input device a stream opens.
#[derive(Clone, Copy, Debug, PartialEq, Eq, Structural)]
pub enum DeviceChoice {
    /// The device at this index of the listed devices.
    Listed(usize),
    /// The host's default input device.
    Default,
}

pub open spec fn name_is(name: Option<String>, wanted: Seq<char>) -> bool {
    name matches Some(n) && n@ == wanted
}

/// The input device for a preferred name, given the names of the listed devices (`None`
/// where a device's name could not be read): the first device of that name, else the
/// default device.
pub fn pick_input_device(preferred: &Option<String>, names: &Vec<Option<String>>) -> (r:
    DeviceChoice)
    ensures
        preferred is None ==> r == DeviceChoice::Default,
        preferred matches Some(p) ==> match r {
            DeviceChoice::Listed(i) => i < names.len() && name_is(names@[i as int], p@) && (forall|
                j: int,
            | 0 <= j < i ==> !name_is(#[trigger] names@[j], p@)),
            DeviceChoice::Default => forall|j: int|
                0 <= j < names.len() ==> !name_is(#[trigger] names@[j], p@),
        },
{
    match preferred {
        None => DeviceChoice::Default,
        Some(p) => {
            let n = names.len();
            let mut i: usize = 0;
            while i < n
                invariant
                    n == names.len(),
                    i <= n,
                    preferred matches Some(q) && q@ == p@,
                    forall|j: int| 0 <= j < i ==> !name_is(#[trigger] names@[j], p@),
                decreases n - i,
            {
                let found = match &names[i] {
                    Some(name) => str_eq(name.as_str(), p.as_str()),
                    None => false,
                };
                if found {
                    return DeviceChoice::Listed(i);
                }
                i = i + 1;
            }
            DeviceChoice::Default
        },
    }
}

/// Drops the first samples a newly opened device delivers, until `total` have passed.
#[derive(Clone, Copy, Debug)]
pub struct WarmupGate {
    pub seen: usize,
    pub total: usize,
}

impl WarmupGate {
    pub fn new(total: usize) -> (r: Self)
        ensures
            r.seen == 0,
            r.total == total,
    {
        WarmupGate { seen: 0, total }
    }

    /// Whether a block of `len` captured samples is kept: blocks are dropped (and counted)
    /// while fewer than `total` samples have passed.
    pub fn accept(&mut self, len: usize) -> (keep: bool)
        requires
            old(self).seen < old(self).total ==> old(self).seen + len <= usize::MAX,
        ensures
            keep == (old(self).seen >= old(self).total),
            final(self).total == old(self).total,
            keep ==> final(self).seen == old(self).seen,
            !keep ==> final(self).seen == old(self).seen + len,
    {
        if self.seen < self.total {
            self.seen = self.seen + len;
            false
        } else {
            true
        }
    }
}

/// `x` as two little-endian bytes.
pub open spec fn le16(x: int) -> Seq<u8> {
    seq![(x % 256) as u8, (x / 256 % 256) as u8]
}

/// `x` as four little-endian bytes.
pub open spec fn le32(x: int) -> Seq<u8> {
    seq![(x % 256) as u8, (x / 256 % 256) as u8, (x / 65536 % 256) as u8, (x / 16777216 % 256) as u8]
}

/// 16-bit samples as little-endian two's-complement bytes.
pub open spec fn pcm16_bytes(samples: Seq<i16>) -> Seq<u8>
    decreases samples.len(),
{
    if samples.len() == 0 {
        Seq::<u8>::empty()
    } else {
        let s = samples.last() as int;
        pcm16_bytes(samples.drop_last()) + le16(
            if s < 0 {
                s + 65536
            } else {
                s
            },
        )
    }
}

/// A mono 16-bit PCM WAV file: the RIFF header with a 16-byte `fmt ` chunk, then the
/// `data` chunk of the samples.
pub open spec fn wav_mono16(sample_rate: u32, samples: Seq<i16>) -> Seq<u8> {
    let data_len: int = 2 * samples.len() as int;
    seq![0x52u8, 0x49, 0x46, 0x46] + le32(36 + data_len) + seq![0x57u8, 0x41, 0x56, 0x45]
        + seq![0x66u8, 0x6d, 0x74, 0x20] + le32(16) + le16(1) + le16(1) + le32(sample_rate as int)
        + le32(2 * sample_rate) + le16(2) + le16(16) + seq![0x64u8, 0x61, 0x74, 0x61] + le32(
        data_len,
    ) + pcm16_bytes(samples)
}

/// Writes `samples` with `hound::WavWriter` (one channel, 16-bit integer samples) into an
/// in-memory `Cursor<Vec<u8>>` and finalizes it. The `requires` leaves out the inputs on
/// which hound panics: a zero sample rate (the header's block align divides by it) and a
/// byte rate or data length beyond `u32`. The claim is that this succeeds and writes the
/// mono 16-bit PCM layout of `wav_mono16`: otherwise hound's source fails only on
/// unsupported bit depths (16 is supported), samples wider than the depth (an `i16` fits),
/// an unfinished last frame (there is one channel) and I/O errors, which writing to a
/// vector does not produce.
#[verifier::external_body]
fn write_wav_mono16(sample_rate: u32, samples: &Vec<i16>) -> (r: Result<Vec<u8>, String>)
    requires
        sample_rate > 0,
        2 * (sample_rate as int) <= u32::MAX,
        2 * samples.len() + 36 <= u32::MAX,
    ensures
        r is Ok,
        r matches Ok(b) ==> b@ == wav_mono16(sample_rate, samples@),
{
    let spec = hound::WavSpec {
        channels: 1,
        sample_rate,
        bits_per_sample: 16,
        sample_format: hound::SampleFormat::Int,
    };
    let mut cursor = std::io::Cursor::new(Vec::new());
    {
        let mut writer = hound::WavWriter::new(&mut cursor, spec).map_err(|e| e.to_string())?;
        for sample in samples.iter() {
            writer.write_sample(*sample).map_err(|e| e.to_string())?;
        }
        writer.finalize().map_err(|e| e.to_string())?;
    }
    Ok(cursor.into_inner())
}

/// The WAV file of a recording already mixed down to mono 16-bit samples; an error when
/// nothing was recorded. A file is written only for a positive sample rate whose byte rate,
/// and a data length that, fit the header's 32-bit fields.
pub fn wav_from_mono(sample_rate: u32, samples: &Vec<i16>) -> (r: Result<Vec<u8>, String>)
    requires
        samples.len() > 0 ==> (sample_rate > 0 && 2 * (sample_rate as int) <= u32::MAX && 2
            * samples.len() + 36 <= u32::MAX),
    ensures
        samples.len() == 0 ==> (r matches Err(e) && e@ == "No audio recorded"@),
        samples.len() > 0 ==> (r matches Ok(b) && b@ == wav_mono16(sample_rate, samples@)),
{
    if samples.len() == 0 {
        return Err(String::from_str("No audio recorded"));
    }
    write_wav_mono16(sample_rate, samples)
}

proof fn lemma_pcm16_len(samples: Seq<i16>)
    ensures
        pcm16_bytes(samples).len() == 2 * samples.len(),
    decreases samples.len(),
{
    if samples.len() > 0 {
        lemma_pcm16_len(samples.drop_last());
    }
}

/// The WAV file of `n` samples is `44 + 2n` bytes long: the 44-byte header, then two bytes
/// a sample; its RIFF size field counts the `36 + 2n` bytes after the first eight.
pub proof fn lemma_wav_length(sample_rate: u32, samples: Seq<i16>)
    ensures
        wav_mono16(sample_rate, samples).len() == 44 + 2 * samples.len(),
        wav_mono16(sample_rate, samples).subrange(4, 8) == le32(
            wav_mono16(sample_rate, samples).len() - 8,
        ),
{
    lemma_pcm16_len(samples);
    let w = wav_mono16(sample_rate, samples);
    assert(w.subrange(4, 8) =~= le32(36 + 2 * samples.len() as int));
}

} // verus!
