use rand::Rng;
use rutinose::lzf::{lzf_compress, lzf_decompress};

#[test]
fn test_lzf() {
    for _ in 0..100 {
        let mut rnd = rand::thread_rng();
        let len = 10000;
        let mut input: Vec<u8> = Vec::with_capacity(len);
        for _ in 0..len {
            input.push(rnd.gen_range(0..=255));
        }

        let compressed = lzf_compress(input.as_slice());
        let decompressed = lzf_decompress(&compressed).expect("decompress");
        assert_eq!(input, decompressed);
    }
}

#[test]
fn lzf_round_trips_the_reference_input() {
    // A short input whose repeated "abcd" exercises a back-reference.
    let input = b"aabcdeabcdf";
    let compressed = lzf_compress(input);
    let decompressed = lzf_decompress(&compressed).expect("decompress");
    assert_eq!(decompressed, input.to_vec());
}

#[test]
fn lzf_overlapping_copy_repeats_pattern() {
    // A long run compresses into a match whose offset is smaller than its
    // length; decoding must read bytes it has just written.
    let input = vec![97u8; 300];
    let compressed = lzf_compress(&input);
    assert!(compressed.len() < input.len());
    let decompressed = lzf_decompress(&compressed).expect("decompress");
    assert_eq!(decompressed, input);

    let mut patterned: Vec<u8> = Vec::new();
    for _ in 0..100 {
        patterned.extend_from_slice(b"ab");
    }
    let compressed = lzf_compress(&patterned);
    let decompressed = lzf_decompress(&compressed).expect("decompress");
    assert_eq!(decompressed, patterned);
}

#[test]
fn lzf_handcrafted_overlap_token() {
    // Literal run "ab", then a match of length 4 with offset 1: the copy
    // must produce the repeating pattern "abab" from the two seed bytes.
    // Control 0x40 = run 2 (length 4), offset high 0, offset byte 1.
    let stream = [1u8, 97, 98, 0x40, 1];
    let out = lzf_decompress(&stream).expect("decompress");
    assert_eq!(out, b"ababab".to_vec());
}

#[test]
fn lzf_rejects_bad_offset_and_truncation() {
    assert!(lzf_decompress(&[0x41, 9]).is_err());
    assert!(lzf_decompress(&[5u8, 97, 98]).is_err());
    assert!(lzf_decompress(&[0xe0u8]).is_err());
}

#[test]
fn lzf_empty_input() {
    let compressed = lzf_compress(b"");
    let decompressed = lzf_decompress(&compressed).expect("decompress");
    assert!(decompressed.is_empty());
}
