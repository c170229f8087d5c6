use voiceconv::convert::{Conversion, ConvertStep, EngineReply, EngineRequest, VoiceConvertor};
use voiceconv::fft::stft;
use voiceconv::latent::{PitchFrame, PitchTrack};
use voiceconv::plan::SpectralPlan;
use voiceconv::tensor::Tensor3;
use voiceconv::wave::WaveformBatch;
use voiceconv::{ConvertError, ALPHA_ONE, CELL_LIMIT, LOG_CEILING, LOG_ONE, PITCH_ONE, TRIG_ONE, WINDOW_ONE};

fn make_plan(n_fft: usize, hop: usize) -> SpectralPlan {
    let mut window: Vec<i64> = Vec::new();
    for i in 0..n_fft {
        let x = i as f64 / (n_fft - 1) as f64;
        let h = -0.5 * (x * 2.0 * std::f64::consts::PI).cos() + 0.5 + 1e-6;
        window.push(((h * WINDOW_ONE as f64).round() as i64).max(1));
    }
    let mut cost: Vec<i64> = Vec::new();
    let mut sint: Vec<i64> = Vec::new();
    for i in 0..n_fft {
        let ang = 2.0 * std::f64::consts::PI * (i as f64) / (n_fft as f64);
        cost.push((ang.cos() * TRIG_ONE as f64).round() as i64);
        sint.push((ang.sin() * TRIG_ONE as f64).round() as i64);
    }
    SpectralPlan::new(n_fft, hop, window, cost, sint).unwrap()
}

fn tone(len: usize, freq: f64, rate: f64, amp: f64) -> Vec<i16> {
    (0..len)
        .map(|i| {
            let v = amp * (2.0 * std::f64::consts::PI * freq * (i as f64) / rate).sin();
            (v * 32767.0).round() as i16
        })
        .collect()
}

/// One cell unit expressed on the unit-amplitude scale: `2^15 * CELL_ONE`.
const FULL_SCALE: f64 = 32768.0 * 4096.0;

fn stub_pitch(frames: usize) -> PitchTrack {
    // 220 Hz on the log-pitch scale: 12*log2(220/440) - 9 = -21 semitones.
    PitchTrack {
        rows: vec![vec![PitchFrame::Voiced(-21 * PITCH_ONE); frames]],
    }
}

#[test]
fn tone_survives_encode_decode_with_identity_stub_engine() {
    let n_fft = 1024usize;
    let hop = 256usize;
    let plan = make_plan(n_fft, hop);
    let samples = tone(16000, 220.0, 16000.0, 0.5);
    let waves = WaveformBatch::from_rows(vec![samples.clone()]).unwrap();

    // The decoder stub needs the true spectrum: log-magnitude and phase.
    let spec = stft(&waves, &plan);
    let bins = spec.re.data[0].len();
    let frames = spec.re.data[0][0].len();
    let mut log_mag: Vec<Vec<i64>> = Vec::new();
    let mut cosph: Vec<Vec<i64>> = Vec::new();
    let mut sinph: Vec<Vec<i64>> = Vec::new();
    for k in 0..bins {
        let mut lm: Vec<i64> = Vec::new();
        let mut cp: Vec<i64> = Vec::new();
        let mut sp: Vec<i64> = Vec::new();
        for t in 0..frames {
            let re = spec.re.data[0][k][t] as f64;
            let im = spec.im.data[0][k][t] as f64;
            let m = (re * re + im * im).sqrt();
            lm.push(((m.max(1.0) / FULL_SCALE).ln() * LOG_ONE as f64).round() as i64);
            if m < 1.0 {
                cp.push(TRIG_ONE);
                sp.push(0);
            } else {
                cp.push((re / m * TRIG_ONE as f64).round() as i64);
                sp.push((im / m * TRIG_ONE as f64).round() as i64);
            }
        }
        log_mag.push(lm);
        cosph.push(cp);
        sinph.push(sp);
    }
    let log_mag = Tensor3 { data: vec![log_mag] };
    let cosph = Tensor3 { data: vec![cosph] };
    let sinph = Tensor3 { data: vec![sinph] };

    let vc = VoiceConvertor::new(plan.clone());
    let (conv, req) = Conversion::start(vc, &waves, 0, ALPHA_ONE).unwrap();
    let mag = match req {
        EngineRequest::ContentEncoder(m) => m,
        other => panic!("expected a content-encoder request, got {other:?}"),
    };
    // Identity content encoder.
    let step = conv.step(EngineReply::Content(mag.clone())).unwrap();
    let (conv, req) = match step {
        ConvertStep::Continue(c, r) => (c, r),
        ConvertStep::Done(_) => panic!("finished early"),
    };
    assert!(matches!(req, EngineRequest::PitchEstimator(_)));
    let step = conv.step(EngineReply::Pitch(stub_pitch(frames))).unwrap();
    let (conv, req) = match step {
        ConvertStep::Continue(c, r) => (c, r),
        ConvertStep::Done(_) => panic!("finished early"),
    };
    // Identity voice library.
    let matched = match req {
        EngineRequest::VoiceLibrary(c) => c,
        other => panic!("expected a voice-library request, got {other:?}"),
    };
    let step = conv.step(EngineReply::Matched(matched)).unwrap();
    let (conv, req) = match step {
        ConvertStep::Continue(c, r) => (c, r),
        ConvertStep::Done(_) => panic!("finished early"),
    };
    assert!(matches!(req, EngineRequest::Decoder(_, _, _)));
    let step = conv
        .step(EngineReply::Spectra(log_mag, cosph, sinph))
        .unwrap();
    let (conv, req) = match step {
        ConvertStep::Continue(c, r) => (c, r),
        ConvertStep::Done(_) => panic!("finished early"),
    };
    // The numeric host exponentiates the saturated log-magnitudes.
    let clamped = match req {
        EngineRequest::Exponentiate(c) => c,
        other => panic!("expected an exponentiation request, got {other:?}"),
    };
    let mut mag_rows: Vec<Vec<i64>> = Vec::new();
    for k in 0..bins {
        let mut row: Vec<i64> = Vec::new();
        for t in 0..frames {
            let lv = clamped.data[0][k][t] as f64 / LOG_ONE as f64;
            let m = (lv.exp() * FULL_SCALE).round() as i64;
            row.push(m.clamp(0, CELL_LIMIT));
        }
        mag_rows.push(row);
    }
    let step = conv
        .step(EngineReply::Magnitude(Tensor3 { data: vec![mag_rows] }))
        .unwrap();
    let out = match step {
        ConvertStep::Done(s) => s,
        ConvertStep::Continue(..) => panic!("expected the finished waveform"),
    };

    // The raw inverse transform reproduces the windowed overlap-add of
    // the tone: sample times the window sum of the covering frames.
    assert_eq!(out.rows.len(), 1);
    let mut err2 = 0.0f64;
    let mut sig2 = 0.0f64;
    for p in (n_fft..(frames - 1) * hop).step_by(31) {
        let s = p as i64 - (n_fft / 2) as i64;
        if s < 0 || s >= 16000 {
            continue;
        }
        let mut wsum = 0.0f64;
        for t in 0..frames {
            if t * hop <= p && p < t * hop + n_fft {
                wsum += plan.window[p - t * hop] as f64;
            }
        }
        let want = samples[s as usize] as f64 * wsum / (WINDOW_ONE as f64);
        let got = out.rows[0][p] as f64;
        err2 += (got - want) * (got - want);
        sig2 += want * want;
    }
    let rel = (err2 / sig2).sqrt();
    assert!(rel < 0.05, "relative error after encode and decode: {rel}");
}

#[test]
fn oversized_log_magnitude_is_saturated_before_exponentiation() {
    let plan = make_plan(512, 128);
    let vc = VoiceConvertor::new(plan);
    let waves = WaveformBatch::from_rows(vec![tone(512, 220.0, 16000.0, 0.5)]).unwrap();
    let (conv, _req) = Conversion::start(vc, &waves, 0, ALPHA_ONE).unwrap();
    let frames = 512 / 128 + 1;
    let mag = Tensor3 {
        data: vec![vec![vec![0i64; frames]; 257]],
    };
    let step = conv.step(EngineReply::Content(mag.clone())).unwrap();
    let conv = match step {
        ConvertStep::Continue(c, _) => c,
        _ => panic!(),
    };
    let step = conv.step(EngineReply::Pitch(stub_pitch(frames))).unwrap();
    let conv = match step {
        ConvertStep::Continue(c, _) => c,
        _ => panic!(),
    };
    let step = conv.step(EngineReply::Matched(mag.clone())).unwrap();
    let conv = match step {
        ConvertStep::Continue(c, _) => c,
        _ => panic!(),
    };
    // A degenerate decoder hands back a deliberately oversized value.
    let huge = Tensor3 {
        data: vec![vec![vec![40 * LOG_ONE; frames]; 257]],
    };
    let zeros = Tensor3 {
        data: vec![vec![vec![0i64; frames]; 257]],
    };
    let step = conv
        .step(EngineReply::Spectra(huge, zeros.clone(), zeros))
        .unwrap();
    let clamped = match step {
        ConvertStep::Continue(_, EngineRequest::Exponentiate(c)) => c,
        _ => panic!("expected an exponentiation request"),
    };
    for k in 0..257 {
        for t in 0..frames {
            assert_eq!(clamped.data[0][k][t], LOG_CEILING);
        }
    }
}

#[test]
fn engine_failure_aborts_with_inference_error() {
    let plan = make_plan(512, 128);
    let vc = VoiceConvertor::new(plan);
    let waves = WaveformBatch::from_rows(vec![tone(512, 220.0, 16000.0, 0.5)]).unwrap();
    let (conv, _req) = Conversion::start(vc, &waves, 0, 0).unwrap();
    assert_eq!(conv.step(EngineReply::Failed), Err(ConvertError::InferenceError));
}

#[test]
fn mismatched_reply_kind_is_inference_error() {
    let plan = make_plan(512, 128);
    let vc = VoiceConvertor::new(plan);
    let waves = WaveformBatch::from_rows(vec![tone(512, 220.0, 16000.0, 0.5)]).unwrap();
    let (conv, _req) = Conversion::start(vc, &waves, 0, 0).unwrap();
    let frames = 512 / 128 + 1;
    assert_eq!(
        conv.step(EngineReply::Pitch(stub_pitch(frames))),
        Err(ConvertError::InferenceError)
    );
}

#[test]
fn misaligned_pitch_reply_is_shape_mismatch() {
    let plan = make_plan(512, 128);
    let vc = VoiceConvertor::new(plan);
    let waves = WaveformBatch::from_rows(vec![tone(512, 220.0, 16000.0, 0.5)]).unwrap();
    let (conv, req) = Conversion::start(vc, &waves, 0, 0).unwrap();
    let mag = match req {
        EngineRequest::ContentEncoder(m) => m,
        _ => panic!(),
    };
    let step = conv.step(EngineReply::Content(mag)).unwrap();
    let conv = match step {
        ConvertStep::Continue(c, _) => c,
        _ => panic!(),
    };
    // One pitch frame too few.
    assert_eq!(
        conv.step(EngineReply::Pitch(stub_pitch(512 / 128))),
        Err(ConvertError::ShapeMismatch)
    );
}

#[test]
fn excessive_blend_factor_fails_fast() {
    let plan = make_plan(512, 128);
    let vc = VoiceConvertor::new(plan);
    let waves = WaveformBatch::from_rows(vec![tone(512, 220.0, 16000.0, 0.5)]).unwrap();
    assert!(matches!(
        Conversion::start(vc, &waves, 0, ALPHA_ONE + 1),
        Err(ConvertError::DomainError)
    ));
}
