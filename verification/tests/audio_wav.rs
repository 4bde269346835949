use dictationapp::audio::{
    device_setting, pick_input_device, wav_from_mono, DeviceChoice, RecorderControl, WarmupGate,
};
use std::io::Cursor;

#[test]
fn wav_header_and_samples() {
    let samples: Vec<i16> = vec![0, 1, -1, 32767, -32768];
    let bytes = wav_from_mono(16_000, &samples).unwrap();
    assert_eq!(bytes.len(), 44 + 2 * samples.len());
    assert_eq!(&bytes[0..4], b"RIFF");
    assert_eq!(&bytes[4..8], &(36u32 + 10).to_le_bytes());
    assert_eq!(&bytes[8..16], b"WAVEfmt ");
    assert_eq!(&bytes[16..20], &16u32.to_le_bytes());
    assert_eq!(&bytes[20..22], &1u16.to_le_bytes());
    assert_eq!(&bytes[22..24], &1u16.to_le_bytes());
    assert_eq!(&bytes[24..28], &16_000u32.to_le_bytes());
    assert_eq!(&bytes[28..32], &32_000u32.to_le_bytes());
    assert_eq!(&bytes[32..34], &2u16.to_le_bytes());
    assert_eq!(&bytes[34..36], &16u16.to_le_bytes());
    assert_eq!(&bytes[36..40], b"data");
    assert_eq!(&bytes[40..44], &10u32.to_le_bytes());
    assert_eq!(&bytes[44..], &[0, 0, 1, 0, 0xff, 0xff, 0xff, 0x7f, 0x00, 0x80]);
    let mut reader = hound::WavReader::new(Cursor::new(bytes)).unwrap();
    let spec = reader.spec();
    assert_eq!(spec.channels, 1);
    assert_eq!(spec.sample_rate, 16_000);
    assert_eq!(spec.bits_per_sample, 16);
    let read: Vec<i16> = reader.samples::<i16>().map(|s| s.unwrap()).collect();
    assert_eq!(read, samples);
}

#[test]
fn empty_recording_is_an_error() {
    assert_eq!(wav_from_mono(44_100, &Vec::new()), Err("No audio recorded".to_string()));
    assert_eq!(wav_from_mono(0, &Vec::new()), Err("No audio recorded".to_string()));
    assert_eq!(wav_from_mono(u32::MAX, &Vec::new()), Err("No audio recorded".to_string()));
}

#[test]
fn device_choice() {
    assert_eq!(device_setting(String::new()), None);
    assert_eq!(device_setting("Mic".to_string()), Some("Mic".to_string()));
    let names = vec![Some("Speakers".to_string()), None, Some("Mic".to_string()), Some("Mic".to_string())];
    assert_eq!(pick_input_device(&Some("Mic".to_string()), &names), DeviceChoice::Listed(2));
    assert_eq!(pick_input_device(&Some("USB".to_string()), &names), DeviceChoice::Default);
    assert_eq!(pick_input_device(&None, &names), DeviceChoice::Default);
}

#[test]
fn recorder_control_flags() {
    let mut c = RecorderControl::new();
    assert!(!c.is_recording && !c.stream_active);
    assert_eq!((c.sample_rate, c.channels), (44_100, 1));
    assert!(c.start_recording());
    assert!(!c.start_recording());
    c.stop_recording();
    assert!(!c.is_recording && c.stream_active);
    c.set_preferred_device(Some("Mic".to_string()));
    assert!(!c.stream_active);
    assert_eq!(c.preferred_device, Some("Mic".to_string()));
    assert!(c.start_recording());
    c.set_stream_format(48_000, 2);
    assert_eq!((c.sample_rate, c.channels), (48_000, 2));
}

#[test]
fn warmup_drops_first_samples() {
    let mut g = WarmupGate::new(100);
    assert!(!g.accept(60));
    assert!(!g.accept(60));
    assert_eq!(g.seen, 120);
    assert!(g.accept(60));
    assert_eq!(g.seen, 120);
    let mut g = WarmupGate::new(0);
    assert!(g.accept(10));
}
