use voiceconv::resample::resample;
use voiceconv::wave::WaveformBatch;
use voiceconv::ConvertError;

fn tone(len: usize, freq: f64, rate: f64, amp: f64) -> Vec<i16> {
    (0..len)
        .map(|i| {
            let v = amp * (2.0 * std::f64::consts::PI * freq * (i as f64) / rate).sin();
            (v * 32767.0).round() as i16
        })
        .collect()
}

#[test]
fn resample_at_equal_rates_is_identity() {
    let rows = vec![tone(1000, 220.0, 16000.0, 0.5), tone(1000, 440.0, 16000.0, 0.3)];
    let waves = WaveformBatch::from_rows(rows.clone()).unwrap();
    let out = resample(&waves, 16000, 16000).unwrap();
    assert_eq!(out.rows, rows);
    // The identity needs no resampler, so it holds beyond the rate range
    // the resampler itself supports.
    let out = resample(&waves, 192_000_000, 192_000_000).unwrap();
    assert_eq!(out.rows, rows);
}

#[test]
fn resample_with_zero_rate_is_domain_error() {
    let waves = WaveformBatch::from_rows(vec![vec![1i16, 2, 3]]).unwrap();
    assert_eq!(resample(&waves, 0, 16000), Err(ConvertError::DomainError));
    assert_eq!(resample(&waves, 16000, 0), Err(ConvertError::DomainError));
}

#[test]
fn resample_outside_supported_rates_is_domain_error() {
    let waves = WaveformBatch::from_rows(vec![vec![1i16, 2, 3]]).unwrap();
    // rates above one megahertz
    assert_eq!(resample(&waves, 2_000_000, 16000), Err(ConvertError::DomainError));
    assert_eq!(resample(&waves, 16000, 2_000_000), Err(ConvertError::DomainError));
    // a ratio beyond 256 in either direction
    assert_eq!(resample(&waves, 1_000_000, 2), Err(ConvertError::DomainError));
    assert_eq!(resample(&waves, 2, 1_000_000), Err(ConvertError::DomainError));
    // the extremes of the supported range still work
    assert!(resample(&waves, 1_000_000, 3907).is_ok());
}

#[test]
fn resample_changes_length_by_rate_ratio() {
    let waves = WaveformBatch::from_rows(vec![tone(4000, 220.0, 16000.0, 0.5)]).unwrap();
    let out = resample(&waves, 16000, 22050).unwrap();
    let got = out.rows[0].len() as f64;
    let want = 4000.0 * 22050.0 / 16000.0;
    assert!((got - want).abs() <= 64.0, "length {got} vs {want}");
}

#[test]
fn resample_round_trip_approximates_original() {
    let original = tone(4000, 220.0, 16000.0, 0.5);
    let waves = WaveformBatch::from_rows(vec![original.clone()]).unwrap();
    let up = resample(&waves, 16000, 22050).unwrap();
    let down = resample(&up, 22050, 16000).unwrap();
    let row = &down.rows[0];
    // Compare the middle of the signal; a streaming resampler shifts and
    // tapers the edges.
    let n = row.len().min(original.len());
    assert!(n > 2000, "round trip lost too many samples: {n}");
    let mut best = f64::MAX;
    // The stream resampler introduces a small group delay; search a few
    // candidate offsets and take the best alignment.
    for offset in 0..64usize {
        let mut err2 = 0.0f64;
        let mut sig2 = 0.0f64;
        for i in 1000..(n - 1000) {
            if i + offset >= n {
                break;
            }
            let a = original[i] as f64;
            let b = row[i + offset] as f64;
            err2 += (a - b) * (a - b);
            sig2 += a * a;
        }
        let e = (err2 / sig2).sqrt();
        if e < best {
            best = e;
        }
    }
    assert!(best < 0.05, "round-trip relative error {best}");
}
