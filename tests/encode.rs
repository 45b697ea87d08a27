use rynzland::HashEncoder;

#[test]
fn hash_encode() {
    let original = [1, 112_358_777, 1_618_033_988, 2_718_281_828, u64::MAX - 1];
    let encoded = original.map(HashEncoder::encode);
    assert_eq!(
        encoded,
        [
            "0000000000001",
            "00000003b4xbt",
            "0000001h72fa4",
            "0000002j0bc34",
            "fzzzzzzzzzzzy"
        ]
    );
    assert_eq!(
        encoded.iter().map(String::len).collect::<Vec<_>>(),
        [13, 13, 13, 13, 13]
    );
}

#[test]
fn hash_encode_zero_and_max() {
    assert_eq!(HashEncoder::encode(0), "0000000000000");
    assert_eq!(HashEncoder::encode(u64::MAX), "fzzzzzzzzzzzz");
    assert_eq!(HashEncoder::encode(32), "0000000000010");
    assert_eq!(HashEncoder::encode(256), "0000000000080");
}

#[test]
fn hash_alphabet_avoids_ambiguous_letters() {
    let alphabet = HashEncoder::ALPHABET;
    assert_eq!(alphabet.len(), 32);
    for c in ['g', 'i', 'l', 'o'] {
        assert!(!alphabet.contains(c));
    }
}
