use snarkvid::toy_codec::{decode_toy, encode_toy, wht8, wht8x8, ToyCodecError, YuvFrame};

fn flat_frame(w: u16, h: u16, y: u8, u: u8, v: u8) -> YuvFrame {
    let cw = (w / 2) as usize;
    let ch = (h / 2) as usize;
    YuvFrame {
        width: w,
        height: h,
        y: vec![y; w as usize * h as usize],
        u: vec![u; cw * ch],
        v: vec![v; cw * ch],
    }
}

fn ramp_frame(w: u16, h: u16) -> YuvFrame {
    let wu = w as usize;
    let hu = h as usize;
    let cw = wu / 2;
    let ch = hu / 2;
    let y: Vec<u8> = (0..wu * hu).map(|i| (i & 0xff) as u8).collect();
    let u: Vec<u8> = (0..cw * ch).map(|i| ((i * 3) & 0xff) as u8).collect();
    let v: Vec<u8> = (0..cw * ch).map(|i| ((i * 5 + 17) & 0xff) as u8).collect();
    YuvFrame { width: w, height: h, y, u, v }
}

fn xs(mut s: u32) -> u32 {
    s ^= s << 13;
    s ^= s >> 17;
    s ^= s << 5;
    s
}

/// Deterministic pseudo-random pattern via xorshift. Has enough
/// high-frequency content that quantization is observable.
fn noise_frame(w: u16, h: u16) -> YuvFrame {
        let wu = w as usize;
    let hu = h as usize;
    let cw = wu / 2;
    let ch = hu / 2;
    let mut y = Vec::with_capacity(wu * hu);
    let mut state = 0xdeadbeefu32;
    for _ in 0..wu * hu {
        state = xs(state);
        y.push((state & 0xff) as u8);
    }
    let mut u = Vec::with_capacity(cw * ch);
    for _ in 0..cw * ch {
        state = xs(state);
        u.push((state & 0xff) as u8);
    }
    let mut v = Vec::with_capacity(cw * ch);
    for _ in 0..cw * ch {
        state = xs(state);
        v.push((state & 0xff) as u8);
    }
    YuvFrame { width: w, height: h, y, u, v }
}

fn psnr(a: &[u8], b: &[u8]) -> f64 {
    assert_eq!(a.len(), b.len());
    let mut sse: u64 = 0;
    for i in 0..a.len() {
        let d = a[i] as i32 - b[i] as i32;
        sse += (d * d) as u64;
    }
    if sse == 0 {
        return f64::INFINITY;
    }
    let mse = sse as f64 / a.len() as f64;
    10.0 * (255.0_f64 * 255.0 / mse).log10()
}

#[test]
fn wht_self_inverse() {
    // Forward then forward = ×8 (per 1D WHT). Test on a fixed pattern.
    let mut v: [i32; 8] = [10, -3, 5, 17, -8, 0, 4, -1];
    let original = v;
    wht8(&mut v);
    wht8(&mut v);
    for i in 0..8 {
        assert_eq!(v[i], original[i] * 8);
    }
}

#[test]
fn wht8x8_self_inverse_scaled_by_64() {
    let mut block: [i32; 64] = [0; 64];
    for i in 0..64 {
        block[i] = (i as i32) - 32;
    }
    let original = block;
    wht8x8(&mut block);
    wht8x8(&mut block);
    for i in 0..64 {
        assert_eq!(block[i], original[i] * 64);
    }
}

#[test]
fn roundtrip_qp0_flat_block_lossless() {
    let frame = flat_frame(16, 16, 128, 128, 128);
    let bs = encode_toy(&frame, 0).unwrap();
    let decoded = decode_toy(&bs).unwrap();
    assert_eq!(decoded, frame);
}

#[test]
fn roundtrip_qp0_ramp_lossless() {
    // qp=0 should be bit-exact for any in-range frame.
    let frame = ramp_frame(32, 32);
    let bs = encode_toy(&frame, 0).unwrap();
    let decoded = decode_toy(&bs).unwrap();
    assert_eq!(decoded.y, frame.y);
    assert_eq!(decoded.u, frame.u);
    assert_eq!(decoded.v, frame.v);
}

#[test]
fn qp8_meets_40db_psnr_on_noise() {
    // Acceptance: qp=8 should round-trip at PSNR ≥ 40 dB.
    // Uses a high-entropy pattern so quantization is observable.
    let frame = noise_frame(64, 64);
    let bs = encode_toy(&frame, 8).unwrap();
    let decoded = decode_toy(&bs).unwrap();
    let p = psnr(&frame.y, &decoded.y);
    assert!(p >= 40.0, "qp=8 PSNR(Y) = {} dB, expected ≥ 40", p);
}

#[test]
fn qp_monotonic_psnr_on_noise() {
    // PSNR should drop as QP rises on a high-entropy pattern.
    let frame = noise_frame(32, 32);
    let bs0 = encode_toy(&frame, 0).unwrap();
    let bs32 = encode_toy(&frame, 32).unwrap();
    let p0 = psnr(&frame.y, &decode_toy(&bs0).unwrap().y);
    let p32 = psnr(&frame.y, &decode_toy(&bs32).unwrap().y);
    assert!(p0 > p32, "expected qp=0 PSNR > qp=32 PSNR (got {} vs {})", p0, p32);
}

#[test]
fn roundtrip_qp0_noise_lossless() {
    let frame = noise_frame(32, 32);
    let bs = encode_toy(&frame, 0).unwrap();
    let decoded = decode_toy(&bs).unwrap();
    assert_eq!(decoded, frame);
}

#[test]
fn rejects_non_16_dimensions() {
    let frame = flat_frame(8, 8, 128, 128, 128);
    assert_eq!(encode_toy(&frame, 0), Err(ToyCodecError::InvalidDimensions));
}

#[test]
fn lib_rejects_qp_above_51() {
    let frame = flat_frame(16, 16, 128, 128, 128);
    assert_eq!(encode_toy(&frame, 52), Err(ToyCodecError::Unsupported));
}

#[test]
fn coefficient_count_matches_pixel_count() {
    let frame = flat_frame(32, 32, 128, 128, 128);
    let bs = encode_toy(&frame, 0).unwrap();
    assert_eq!(bs.coeffs_y.len(), 32 * 32);
    assert_eq!(bs.coeffs_u.len(), 16 * 16);
    assert_eq!(bs.coeffs_v.len(), 16 * 16);
}
