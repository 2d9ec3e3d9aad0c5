use snarkvid::comparator::{sum_squared_error, PSNR_SCALE};

/// Fixed-point PSNR of one plane (dB × PSNR_SCALE), `i64::MAX` for
/// identical planes; the logarithm is floating point, so it is computed
/// outside the library, as the command-line tool does.
fn psnr_fixed(sse: i64, pixel_count: usize) -> i64 {
    if sse == 0 {
        return i64::MAX;
    }
    if pixel_count == 0 {
        return 0;
    }
    let mse = sse as f64 / pixel_count as f64;
    if mse <= 0.0 {
        return i64::MAX;
    }
    let psnr = 10.0 * libm::log10(255.0 * 255.0 / mse);
    (psnr * PSNR_SCALE as f64) as i64
}

#[test]
fn identical_frames_infinite_psnr() {
    let data = vec![128u8; 256];
    let sse = sum_squared_error(&data, &data);
    assert_eq!(sse, 0);
    let psnr = psnr_fixed(sse, data.len());
    assert_eq!(psnr, i64::MAX);
}

#[test]
fn every_pixel_wrong_by_one() {
    let a = vec![100u8; 1000];
    let b = vec![101u8; 1000];
    let sse = sum_squared_error(&a, &b);
    assert_eq!(sse, 1000); // 1000 pixels × 1²
    let psnr = psnr_fixed(sse, a.len());
    // mse = 1000/1000 = 1, psnr = 10*log10(65025/1) ≈ 48.13 dB
    assert!(psnr > 4800 && psnr < 4820); // ~48.13 dB scaled
}
