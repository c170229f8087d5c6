use ndrustfft::{ndfft_r2c, Complex, R2cFftHandler};
use voiceconv::fft::{istft, istft_without_window, magnitude, spectrogram, stft};
use voiceconv::plan::SpectralPlan;
use voiceconv::wave::WaveformBatch;
use voiceconv::{TRIG_ONE, WINDOW_ONE};

fn make_plan(n_fft: usize, hop: usize) -> SpectralPlan {
    let wone = WINDOW_ONE as f64;
    let tone = TRIG_ONE as f64;
    let mut window: Vec<i64> = Vec::new();
    for i in 0..n_fft {
        let x = i as f64 / (n_fft - 1) as f64;
        let h = -0.5 * (x * 2.0 * std::f64::consts::PI).cos() + 0.5 + 1e-6;
        let mut v = (h * wone).round() as i64;
        if v < 1 {
            v = 1;
        }
        window.push(v);
    }
    let mut cost: Vec<i64> = Vec::new();
    let mut sint: Vec<i64> = Vec::new();
    for i in 0..n_fft {
        let ang = 2.0 * std::f64::consts::PI * (i as f64) / (n_fft as f64);
        cost.push((ang.cos() * tone).round() as i64);
        sint.push((ang.sin() * tone).round() as i64);
    }
    SpectralPlan::new(n_fft, hop, window, cost, sint).unwrap()
}

fn tone(len: usize, freq: f64, rate: f64, amp: f64) -> Vec<i16> {
    (0..len)
        .map(|i| {
            let v = amp * (2.0 * std::f64::consts::PI * freq * (i as f64) / rate).sin();
            (v * 32767.0).round() as i16
        })
        .collect()
}

fn roundtrip_error(n_fft: usize, hop: usize) -> f64 {
    let plan = make_plan(n_fft, hop);
    let samples = tone(1600, 220.0, 16000.0, 0.5);
    let waves = WaveformBatch::from_rows(vec![samples.clone()]).unwrap();
    let spec = stft(&waves, &plan);
    let out = istft(&spec, &plan);
    // Interior positions are covered by exactly n_fft / hop frames, each
    // reconstructing the padded sample, so the overlap-add carries that
    // gain; the left pad shifts the signal by n_fft / 2.
    let gain = (n_fft / hop) as f64;
    let frames = 1600 / hop + 1;
    let lo = n_fft;
    let hi = (frames - 1) * hop;
    let mut err2 = 0.0f64;
    let mut sig2 = 0.0f64;
    for p in lo..hi {
        let s = p as i64 - (n_fft / 2) as i64;
        if s < 0 || s >= 1600 {
            continue;
        }
        let got = out.rows[0][p] as f64 / gain;
        let want = samples[s as usize] as f64;
        err2 += (got - want) * (got - want);
        sig2 += want * want;
    }
    (err2 / sig2).sqrt()
}

#[test]
fn roundtrip_reconstructs_within_tolerance_512_128() {
    let e = roundtrip_error(512, 128);
    assert!(e < 0.02, "relative reconstruction error {e}");
}

#[test]
fn roundtrip_reconstructs_within_tolerance_1024_256() {
    let e = roundtrip_error(1024, 256);
    assert!(e < 0.02, "relative reconstruction error {e}");
}

#[test]
fn stft_matches_reference_fft() {
    // Cross-check one analysis frame against a floating-point FFT of the
    // same windowed, padded segment.

    let n_fft = 512usize;
    let hop = 128usize;
    let plan = make_plan(n_fft, hop);
    let samples = tone(1600, 220.0, 16000.0, 0.5);
    let waves = WaveformBatch::from_rows(vec![samples.clone()]).unwrap();
    let spec = stft(&waves, &plan);

    // Padded row, as the transform builds it.
    let left = n_fft / 2;
    let right = n_fft / 2 + (hop - samples.len() % hop);
    let mut padded: Vec<f64> = vec![0.0; left];
    padded.extend(samples.iter().map(|s| *s as f64));
    padded.extend(std::iter::repeat(0.0).take(right));

    let t = 3usize;
    let frame: Vec<f64> = (0..n_fft)
        .map(|j| padded[t * hop + j] * (plan.window[j] as f64) / (WINDOW_ONE as f64))
        .collect();
    let arr = ndarray::Array1::from_vec(frame);
    let mut handler = R2cFftHandler::<f64>::new(n_fft);
    let mut out = ndarray::Array1::<Complex<f64>>::zeros(n_fft / 2 + 1);
    ndfft_r2c(&arr, &mut out, &mut handler, 0);

    let cell_scale = 4096.0; // cells carry CELL_ONE extra precision
    for k in 0..(n_fft / 2 + 1) {
        let got_re = spec.re.data[0][k][t] as f64 / cell_scale;
        let got_im = spec.im.data[0][k][t] as f64 / cell_scale;
        let want_re = out[k].re;
        let want_im = out[k].im;
        assert!(
            (got_re - want_re).abs() < 2.0 + want_re.abs() * 1e-4,
            "bin {k}: re {got_re} vs {want_re}"
        );
        assert!(
            (got_im - want_im).abs() < 2.0 + want_im.abs() * 1e-4,
            "bin {k}: im {got_im} vs {want_im}"
        );
    }
}

#[test]
fn stft_of_silence_is_zero() {
    let plan = make_plan(512, 128);
    let waves = WaveformBatch::from_rows(vec![vec![0i16; 700]]).unwrap();
    let spec = stft(&waves, &plan);
    assert_eq!(spec.re.data.len(), 1);
    assert_eq!(spec.re.data[0].len(), 257);
    assert_eq!(spec.re.data[0][0].len(), 700 / 128 + 1);
    for k in 0..257 {
        for t in 0..spec.re.data[0][k].len() {
            assert_eq!(spec.re.data[0][k][t], 0);
            assert_eq!(spec.im.data[0][k][t], 0);
        }
    }
}

#[test]
fn spectrogram_magnitude_is_nonnegative_and_matches_cells() {
    let plan = make_plan(512, 128);
    let samples = tone(1000, 440.0, 16000.0, 0.4);
    let waves = WaveformBatch::from_rows(vec![samples]).unwrap();
    let spec = stft(&waves, &plan);
    let magt = magnitude(&spec);
    let mag2 = spectrogram(&waves, &plan);
    assert_eq!(magt, mag2);
    for k in 0..magt.data[0].len() {
        for t in 0..magt.data[0][k].len() {
            let m = magt.data[0][k][t];
            assert!(m >= 0);
            let re = spec.re.data[0][k][t] as i128;
            let im = spec.im.data[0][k][t] as i128;
            let sq = re * re + im * im;
            let m = m as i128;
            assert!(m * m <= sq);
            assert!(sq < (m + 1) * (m + 1));
        }
    }
}

#[test]
fn unwindowed_synthesis_carries_window_gain() {
    // The raw inverse of a forward transform reproduces the windowed
    // overlap-add of the signal: at each interior position, the sample
    // times the sum of the window values of the frames that cover it.
    let n_fft = 512usize;
    let hop = 128usize;
    let plan = make_plan(n_fft, hop);
    let samples = tone(1600, 220.0, 16000.0, 0.5);
    let waves = WaveformBatch::from_rows(vec![samples.clone()]).unwrap();
    let spec = stft(&waves, &plan);
    let out = istft_without_window(&spec, &plan);
    let frames = 1600 / hop + 1;
    for p in (n_fft..(frames - 1) * hop).step_by(97) {
        let s = p as i64 - (n_fft / 2) as i64;
        if s < 16 || s >= 1600 - 16 {
            continue;
        }
        let mut wsum = 0.0f64;
        for t in 0..frames {
            if t * hop <= p && p < t * hop + n_fft {
                wsum += plan.window[p - t * hop] as f64;
            }
        }
        let want = samples[s as usize] as f64 * wsum / (WINDOW_ONE as f64);
        let got = out.rows[0][p] as f64;
        assert!(
            (got - want).abs() < 20.0 + want.abs() * 0.01,
            "position {p}: {got} vs {want}"
        );
    }
}
