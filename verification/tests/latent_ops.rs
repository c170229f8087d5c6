use voiceconv::convert::{clamp_log_magnitude, VoiceConvertor};
use voiceconv::envelope::amplitude;
use voiceconv::frames::{envelope_frame_count, stft_frame_count};
use voiceconv::latent::{LatentRepresentation, PitchFrame, PitchTrack};
use voiceconv::plan::SpectralPlan;
use voiceconv::tensor::Tensor3;
use voiceconv::wave::{SignalBatch, WaveformBatch};
use voiceconv::{ConvertError, ALPHA_ONE, LOG_CEILING, PITCH_ONE, TRIG_ONE, WINDOW_ONE};

fn make_plan(n_fft: usize, hop: usize) -> SpectralPlan {
    let mut window: Vec<i64> = Vec::new();
    for i in 0..n_fft {
        let x = i as f64 / (n_fft - 1) as f64;
        let h = -0.5 * (x * 2.0 * std::f64::consts::PI).cos() + 0.5 + 1e-6;
        window.push(((h * WINDOW_ONE as f64).round() as i64).max(1));
    }
    let mut cost: Vec<i64> = Vec::new();
    let mut sint: Vec<i64> = Vec::new();
    for i in 0..n_fft {
        let ang = 2.0 * std::f64::consts::PI * (i as f64) / (n_fft as f64);
        cost.push((ang.cos() * TRIG_ONE as f64).round() as i64);
        sint.push((ang.sin() * TRIG_ONE as f64).round() as i64);
    }
    SpectralPlan::new(n_fft, hop, window, cost, sint).unwrap()
}

fn tensor(data: Vec<Vec<Vec<i64>>>) -> Tensor3 {
    Tensor3::from_data(data).unwrap()
}

fn small_latent() -> LatentRepresentation {
    let amp = tensor(vec![vec![vec![10, 20, 30]]]);
    let content = tensor(vec![vec![vec![1, 2, 3], vec![4, 5, 6]]]);
    let f0 = PitchTrack::from_rows(vec![vec![
        PitchFrame::Voiced(100_000),
        PitchFrame::Unvoiced(0),
        PitchFrame::Voiced(-50_000),
    ]])
    .unwrap();
    LatentRepresentation::new(amp, content, f0).unwrap()
}

#[test]
fn pitch_shift_round_trip_recovers_f0() {
    let plan = make_plan(1024, 256);
    let vc = VoiceConvertor::new(plan);
    let latent = small_latent();
    let original = latent.f0.rows.clone();
    let shift = 5 * PITCH_ONE; // five semitones up
    let up = vc.pitch_shift(latent, shift).unwrap();
    assert_eq!(up.f0.rows[0][0], PitchFrame::Voiced(100_000 + shift));
    assert_eq!(up.f0.rows[0][1], PitchFrame::Unvoiced(0));
    let back = vc.pitch_shift(up, -shift).unwrap();
    assert_eq!(back.f0.rows, original);
}

#[test]
fn pitch_shift_overflow_is_domain_error() {
    let plan = make_plan(1024, 256);
    let vc = VoiceConvertor::new(plan);
    let amp = tensor(vec![vec![vec![0]]]);
    let content = tensor(vec![vec![vec![0]]]);
    let f0 = PitchTrack::from_rows(vec![vec![PitchFrame::Voiced(i64::MAX)]]).unwrap();
    let latent = LatentRepresentation::new(amp, content, f0).unwrap();
    assert_eq!(vc.pitch_shift(latent, 1), Err(ConvertError::DomainError));
}

#[test]
fn blend_at_full_alpha_keeps_original_content() {
    let plan = make_plan(1024, 256);
    let vc = VoiceConvertor::new(plan);
    let latent = small_latent();
    let original = latent.content.data.clone();
    let matched = tensor(vec![vec![vec![70, 80, 90], vec![100, -40, 12]]]);
    let out = vc.match_features(latent, &matched, ALPHA_ONE).unwrap();
    assert_eq!(out.content.data, original);
}

#[test]
fn blend_at_zero_alpha_takes_matched_content() {
    let plan = make_plan(1024, 256);
    let vc = VoiceConvertor::new(plan);
    let latent = small_latent();
    let matched = tensor(vec![vec![vec![70, 80, 90], vec![100, -40, 12]]]);
    let out = vc.match_features(latent, &matched, 0).unwrap();
    assert_eq!(out.content.data, matched.data);
}

#[test]
fn blend_midpoint_interpolates() {
    let plan = make_plan(1024, 256);
    let vc = VoiceConvertor::new(plan);
    let amp = tensor(vec![vec![vec![0, 0]]]);
    let content = tensor(vec![vec![vec![100, -100]]]);
    let f0 = PitchTrack::from_rows(vec![vec![
        PitchFrame::Unvoiced(0),
        PitchFrame::Unvoiced(0),
    ]])
    .unwrap();
    let latent = LatentRepresentation::new(amp, content, f0).unwrap();
    let matched = tensor(vec![vec![vec![0, 0]]]);
    let out = vc.match_features(latent, &matched, ALPHA_ONE / 2).unwrap();
    assert_eq!(out.content.data[0][0], vec![50, -50]);
}

#[test]
fn blend_shape_mismatch_is_rejected() {
    let plan = make_plan(1024, 256);
    let vc = VoiceConvertor::new(plan);
    let latent = small_latent();
    let matched = tensor(vec![vec![vec![1, 2], vec![3, 4]]]);
    assert_eq!(
        vc.match_features(latent, &matched, 0),
        Err(ConvertError::ShapeMismatch)
    );
}

#[test]
fn clamp_saturates_at_ceiling_exactly() {
    let t = tensor(vec![vec![vec![LOG_CEILING + 1, LOG_CEILING, LOG_CEILING - 1, 0, -70000]]]);
    let c = clamp_log_magnitude(&t);
    assert_eq!(
        c.data[0][0],
        vec![LOG_CEILING, LOG_CEILING, LOG_CEILING - 1, 0, -70000]
    );
}

#[test]
fn latent_assembly_rejects_misaligned_frames() {
    let amp = tensor(vec![vec![vec![1, 2]]]);
    let content = tensor(vec![vec![vec![1, 2, 3]]]);
    let f0 = PitchTrack::from_rows(vec![vec![
        PitchFrame::Unvoiced(0),
        PitchFrame::Unvoiced(0),
        PitchFrame::Unvoiced(0),
    ]])
    .unwrap();
    assert!(matches!(
        LatentRepresentation::new(amp, content, f0),
        Err(ConvertError::ShapeMismatch)
    ));
}

#[test]
fn tensor_rejects_ragged_data() {
    assert!(matches!(
        Tensor3::from_data(vec![vec![vec![1, 2], vec![3]]]),
        Err(ConvertError::ShapeMismatch)
    ));
}

#[test]
fn tensor_rejects_out_of_range_values() {
    assert!(Tensor3::from_data(vec![vec![vec![voiceconv::VALUE_LIMIT + 1]]]).is_err());
    assert!(Tensor3::from_data(vec![vec![vec![voiceconv::VALUE_LIMIT]]]).is_ok());
}

#[test]
fn polar_combination_rejects_bad_input() {
    let mag = tensor(vec![vec![vec![100, 200]]]);
    let cos = tensor(vec![vec![vec![TRIG_ONE, 0]]]);
    let sin = tensor(vec![vec![vec![0, 0]]]);
    let short = tensor(vec![vec![vec![0]]]);
    assert_eq!(
        voiceconv::convert::polar_to_complex(&mag, &cos, &short),
        Err(ConvertError::ShapeMismatch)
    );
    let big = tensor(vec![vec![vec![TRIG_ONE + 1, 0]]]);
    assert_eq!(
        voiceconv::convert::polar_to_complex(&mag, &big, &sin),
        Err(ConvertError::DomainError)
    );
    let ok = voiceconv::convert::polar_to_complex(&mag, &cos, &sin).unwrap();
    assert_eq!(ok.re.data[0][0], vec![100, 0]);
    assert_eq!(ok.im.data[0][0], vec![0, 0]);
}

#[test]
fn plan_rejects_bad_parameters() {
    let w = vec![1i64; 512];
    let c = vec![0i64; 512];
    // odd window length
    assert!(SpectralPlan::new(511, 128, vec![1; 511], vec![0; 511], vec![0; 511]).is_err());
    // zero hop
    assert!(SpectralPlan::new(512, 0, w.clone(), c.clone(), c.clone()).is_err());
    // hop more than sixteen times smaller than the window
    assert!(SpectralPlan::new(512, 16, w.clone(), c.clone(), c.clone()).is_err());
    // hop larger than the window
    assert!(SpectralPlan::new(512, 1024, w.clone(), c.clone(), c.clone()).is_err());
    // a zero window sample
    let mut wz = w.clone();
    wz[7] = 0;
    assert!(SpectralPlan::new(512, 128, wz, c.clone(), c.clone()).is_err());
    // a trigonometric value out of range
    let mut cz = c.clone();
    cz[3] = TRIG_ONE + 1;
    assert!(SpectralPlan::new(512, 128, w.clone(), cz, c.clone()).is_err());
    assert!(SpectralPlan::new(512, 128, w, c.clone(), c).is_ok());
}

#[test]
fn amplitude_envelope_means_are_exact() {
    let rows = vec![vec![10i16, -10, 20, -20, 5, 5, -3]];
    let waves = WaveformBatch::from_rows(rows).unwrap();
    let env = amplitude(&waves, 3);
    // chunks: [10,-10,20] [-20,5,5] [-3]
    assert_eq!(env.data[0][0], vec![(10 + 10 + 20) / 3, (20 + 5 + 5) / 3, 3]);
}

#[test]
fn frame_counts_differ_by_at_most_one() {
    for len in [0usize, 1, 100, 255, 256, 257, 512, 1000, 4096] {
        for hop in [1usize, 3, 128, 256] {
            let e = envelope_frame_count(len, hop);
            let s = stft_frame_count(len, hop);
            assert!(e <= s);
            assert!(s - e <= 1);
        }
    }
}

#[test]
fn encode_analysis_pads_envelope_to_spectral_frames() {
    let plan = make_plan(512, 128);
    let vc = VoiceConvertor::new(plan);
    // 512 samples: envelope has 4 frames, the spectral transform 5.
    let waves = WaveformBatch::from_rows(vec![vec![100i16; 512]]).unwrap();
    let (amp, mag) = vc.encode_analysis(&waves);
    assert_eq!(amp.data[0][0].len(), 5);
    assert_eq!(amp.data[0][0], vec![100, 100, 100, 100, 0]);
    assert_eq!(mag.data[0].len(), 257);
    assert_eq!(mag.data[0][0].len(), 5);
}

#[test]
fn quantize_saturates_to_sixteen_bits() {
    let s = SignalBatch {
        rows: vec![vec![0i64, 32767, 32768, 100000, -32768, -32769, -5]],
    };
    let w = s.quantize();
    assert_eq!(w.rows[0], vec![0, 32767, 32767, 32767, -32768, -32768, -5]);
}

#[test]
fn spectrogram_pixels_scale_and_saturate() {
    let t = tensor(vec![vec![
        vec![-5, 0, 0x8_0000, 0x10_0000],
        vec![255 * 0x8_0000, 256 * 0x8_0000, 0x200_0000_0000, 7],
    ]]);
    let px = voiceconv::fft::spectrogram_pixels(&t);
    assert_eq!(px[0], vec![0u8, 0, 1, 2]);
    assert_eq!(px[1], vec![255u8, 255, 255, 0]);
}
