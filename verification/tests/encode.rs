use d4_server::encode::{decode, encode, Frame, HEADER_LEN};

fn bits(values: &[f32]) -> Vec<u32> {
    values.iter().map(|v| v.to_bits()).collect()
}

#[test]
fn header_is_three_little_endian_words() {
    let values = vec![0u32; 834];
    let buf = encode(0, 3, &values);
    assert_eq!(&buf[..12], &[0, 0, 0, 0, 3, 0, 0, 0, 0x42, 0x03, 0, 0]);
    assert_eq!(buf.len(), 12 + 4 * 834);
}

#[test]
fn words_are_least_significant_byte_first() {
    let buf = encode(0x0403_0201, 0xFFFE_FDFC, &[0x8070_6050]);
    assert_eq!(
        buf,
        vec![0x01, 0x02, 0x03, 0x04, 0xFC, 0xFD, 0xFE, 0xFF, 1, 0, 0, 0, 0x50, 0x60, 0x70, 0x80]
    );
}

#[test]
fn values_are_laid_out_as_single_precision_numbers() {
    let values = [1.0f32, -2.5, 0.1, f32::MAX, f32::MIN_POSITIVE, 0.0];
    let buf = encode(7, 1, &bits(&values));
    let mut expected = Vec::new();
    expected.extend_from_slice(&7u32.to_le_bytes());
    expected.extend_from_slice(&1u32.to_le_bytes());
    expected.extend_from_slice(&6u32.to_le_bytes());
    for v in values {
        expected.extend_from_slice(&v.to_le_bytes());
    }
    assert_eq!(buf, expected);
}

#[test]
fn narrowed_means_survive_within_single_precision() {
    let means = [0.0f64, 12.75, 1.0 / 3.0, 1e-3, 123_456.789];
    let narrowed: Vec<u32> = means.iter().map(|m| (*m as f32).to_bits()).collect();
    let frame = decode(&encode(0, 2, &narrowed)).unwrap();
    assert_eq!(frame.values.len(), means.len());
    for (word, mean) in frame.values.iter().zip(means) {
        let back = f32::from_bits(*word);
        assert_eq!(back, mean as f32);
        assert!((back as f64 - mean).abs() <= mean.abs() * f32::EPSILON as f64);
    }
}

#[test]
fn response_without_values_is_twelve_bytes() {
    let buf = encode(10, 1, &[]);
    assert_eq!(buf.len(), HEADER_LEN);
    assert_eq!(buf, vec![10, 0, 0, 0, 1, 0, 0, 0, 0, 0, 0, 0]);
}

#[test]
fn length_is_header_plus_four_bytes_per_value() {
    for n in [0usize, 1, 2, 3, 255, 256, 1000] {
        let buf = encode(1, 2, &vec![0xDEAD_BEEF; n]);
        assert_eq!(buf.len(), 12 + 4 * n);
    }
}

#[test]
fn decoding_recovers_what_was_encoded() {
    let values = bits(&[1.5, -0.25, 1e10, f32::INFINITY, -0.0]);
    let buf = encode(4_294_967_295, 4_294_968, &values);
    assert_eq!(
        decode(&buf),
        Some(Frame { start: 4_294_967_295, step: 4_294_968, values: values.clone() })
    );
    let floats: Vec<f32> = decode(&buf).unwrap().values.iter().map(|b| f32::from_bits(*b)).collect();
    assert_eq!(floats, vec![1.5, -0.25, 1e10, f32::INFINITY, -0.0]);
}

#[test]
fn decoding_keeps_every_bit_pattern() {
    let values = vec![0, 1, 0x7FC0_0000, 0xFFFF_FFFF, 0x8000_0000, 0x0000_FF00];
    let frame = decode(&encode(0, 1, &values)).unwrap();
    assert_eq!(frame.values, values);
}

#[test]
fn encoding_what_was_decoded_gives_the_buffer_back() {
    let buf: Vec<u8> = vec![9, 8, 7, 6, 5, 4, 3, 2, 2, 0, 0, 0, 1, 2, 3, 4, 5, 6, 7, 8];
    let frame = decode(&buf).unwrap();
    assert_eq!(frame.start, 0x0607_0809);
    assert_eq!(frame.step, 0x0203_0405);
    assert_eq!(frame.values, vec![0x0403_0201, 0x0807_0605]);
    assert_eq!(encode(frame.start, frame.step, &frame.values), buf);
}

#[test]
fn decoding_rejects_a_short_header() {
    assert_eq!(decode(&[]), None);
    assert_eq!(decode(&[0; 11]), None);
}

#[test]
fn decoding_rejects_a_length_that_the_count_does_not_announce() {
    let mut buf = encode(0, 1, &[1, 2, 3]);
    buf.pop();
    assert_eq!(decode(&buf), None);
    let mut long = encode(0, 1, &[1, 2, 3]);
    long.extend_from_slice(&[0, 0, 0, 0]);
    assert_eq!(decode(&long), None);
    let huge_count = vec![0, 0, 0, 0, 1, 0, 0, 0, 0xFF, 0xFF, 0xFF, 0xFF];
    assert_eq!(decode(&huge_count), None);
}

#[test]
fn decoding_accepts_a_bare_header() {
    let frame = decode(&[1, 0, 0, 0, 2, 0, 0, 0, 0, 0, 0, 0]).unwrap();
    assert_eq!(frame, Frame { start: 1, step: 2, values: vec![] });
}
