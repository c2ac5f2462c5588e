use sayjp::wav::{silence_lead, wav_silence_lead, SampleFormat, WavSpec};
use sayjp::EngineError;

fn wav_bytes(spec: hound::WavSpec) -> Vec<u8> {
    let mut cursor = std::io::Cursor::new(Vec::new());
    {
        let mut w = hound::WavWriter::new(&mut cursor, spec).unwrap();
        for _ in 0..spec.channels {
            w.write_sample(0i16).unwrap();
        }
        w.finalize().unwrap();
    }
    cursor.into_inner()
}

#[test]
fn half_a_second_of_silence() {
    let spec = WavSpec { channels: 1, sample_rate: 44100, bits_per_sample: 32, sample_format: SampleFormat::Float };
    assert_eq!(silence_lead(&spec, 500), 22050);
    let stereo = WavSpec { channels: 2, sample_rate: 22051, bits_per_sample: 16, sample_format: SampleFormat::Int };
    assert_eq!(silence_lead(&stereo, 500), 2 * 11025);
    assert_eq!(silence_lead(&stereo, 0), 0);
}

#[test]
fn lead_agrees_with_the_float_formula_for_common_rates() {
    for rate in [8000u32, 11025, 16000, 22050, 22051, 44100, 48000, 96000] {
        for channels in [1u16, 2, 6] {
            let spec = WavSpec { channels, sample_rate: rate, bits_per_sample: 16, sample_format: SampleFormat::Int };
            let float_lead = (rate as f32 * 0.5f32) as usize * channels as usize;
            assert_eq!(silence_lead(&spec, 500), float_lead as u128);
        }
    }
}

#[test]
fn header_is_read_from_the_bytes() {
    let bytes = wav_bytes(hound::WavSpec {
        channels: 2,
        sample_rate: 16000,
        bits_per_sample: 16,
        sample_format: hound::SampleFormat::Int,
    });
    match wav_silence_lead(&bytes, 500) {
        Ok((spec, n)) => {
            assert_eq!(spec, WavSpec { channels: 2, sample_rate: 16000, bits_per_sample: 16, sample_format: SampleFormat::Int });
            assert_eq!(n, 16000);
        }
        Err(e) => panic!("{:?}", e),
    }
}

#[test]
fn non_wave_bytes_are_refused() {
    assert!(matches!(wav_silence_lead(b"not a wave file", 500), Err(EngineError::Hound(_))));
    assert!(matches!(wav_silence_lead(&[], 500), Err(EngineError::Hound(_))));
}
