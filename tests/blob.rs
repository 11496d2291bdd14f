use akin::blob::{bytes_to_embedding_bits, embedding_bits_to_bytes};

fn to_bits(v: &[f32]) -> Vec<u32> {
    v.iter().map(|f| f.to_bits()).collect()
}

fn from_bits(v: &[u32]) -> Vec<f32> {
    v.iter().map(|b| f32::from_bits(*b)).collect()
}

#[test]
fn test_embedding_to_bytes_roundtrip() {
    let original = vec![1.0_f32, 2.5, -3.14, 0.0];
    let bytes = embedding_bits_to_bytes(&to_bits(&original));
    let recovered = from_bits(&bytes_to_embedding_bits(&bytes).unwrap());

    assert_eq!(original.len(), recovered.len());
    for (a, b) in original.iter().zip(recovered.iter()) {
        assert!((a - b).abs() < 1e-6);
    }
}

#[test]
fn test_embedding_to_bytes_length() {
    let emb = vec![1.0_f32, 2.0, 3.0];
    let bytes = embedding_bits_to_bytes(&to_bits(&emb));
    assert_eq!(bytes.len(), 12);
}

#[test]
fn test_bytes_to_embedding_invalid_length() {
    let bytes = vec![1, 2, 3];
    assert!(bytes_to_embedding_bits(&bytes).is_none());
}

#[test]
fn test_bytes_to_embedding_empty() {
    let bytes: Vec<u8> = vec![];
    let result = bytes_to_embedding_bits(&bytes);
    assert!(result.is_some());
    assert_eq!(result.unwrap().len(), 0);
}

#[test]
fn blob_is_little_endian_ieee754() {
    let bytes = embedding_bits_to_bytes(&to_bits(&[1.0_f32]));
    assert_eq!(bytes, vec![0x00, 0x00, 0x80, 0x3f]);
    let words = bytes_to_embedding_bits(&[0x01, 0x02, 0x03, 0x04, 0xff, 0, 0, 0]).unwrap();
    assert_eq!(words, vec![0x0403_0201, 0xff]);
}

#[test]
fn blob_round_trip_keeps_exact_bits() {
    let original = vec![f32::MIN_POSITIVE, -0.0, f32::MAX, 1e-7];
    let bits = to_bits(&original);
    let back = bytes_to_embedding_bits(&embedding_bits_to_bytes(&bits)).unwrap();
    assert_eq!(back, bits);
}

#[test]
fn blob_lengths_not_multiple_of_four_hold_nothing() {
    for n in [1usize, 2, 3, 5, 7, 4097] {
        assert!(bytes_to_embedding_bits(&vec![0u8; n]).is_none());
    }
    assert_eq!(bytes_to_embedding_bits(&vec![0u8; 4096]).unwrap().len(), 1024);
}
