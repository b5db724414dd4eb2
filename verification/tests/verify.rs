use nitro::verify::{compare_digest, verify_file, FileVerifier};

const ABC: &str = "ba7816bf8f01cfea414140de5dae2223b00361a396177a9cb410ff61f20015ad";
const EMPTY: &str = "e3b0c44298fc1c149afbf4c8996fb92427ae41e4649b934ca495991b7852b855";

#[test]
fn a_file_passes_against_its_own_hash() {
    assert!(verify_file(b"abc", ABC));
    assert!(verify_file(b"abc", &ABC.to_uppercase()));
    assert!(verify_file(b"", EMPTY));
}

#[test]
fn a_file_fails_against_another_hash() {
    assert!(!verify_file(b"abc", EMPTY));
    assert!(!verify_file(b"abd", ABC));
    assert!(!verify_file(b"abc", ""));
    assert!(!verify_file(b"abc", &ABC[..63]));
    assert!(!verify_file(b"abc", &format!("{} ", ABC)));
}

#[test]
fn a_file_can_be_read_piece_by_piece() {
    let content: Vec<u8> = (0..1000u32).map(|i| (i % 251) as u8).collect();
    let mut whole = FileVerifier::new();
    assert!(whole.can_take(content.len()));
    whole.feed(&content);
    let whole = whole.finish("");
    let mut pieces = FileVerifier::new();
    for piece in content.chunks(37) {
        pieces.feed(piece);
    }
    pieces.feed(&[]);
    let pieces = pieces.finish(&whole.calculated);
    assert_eq!(whole.calculated, pieces.calculated);
    assert!(pieces.matches);
    assert!(!whole.matches);
}

#[test]
fn the_calculated_hash_is_in_small_letters() {
    let mut v = FileVerifier::new();
    v.feed(b"a");
    v.feed(b"bc");
    assert_eq!(v.finish("").calculated, ABC);
}

#[test]
fn a_digest_is_compared_by_its_digits() {
    let outcome = compare_digest(&[0x00, 0x0f, 0xa9, 0xff], "000FA9ff");
    assert!(outcome.matches);
    assert_eq!(outcome.calculated, "000fa9ff");
    assert!(!compare_digest(&[0x00, 0x0f, 0xa9, 0xfe], "000fa9ff").matches);
}

#[test]
fn files_beyond_the_bounds_of_the_hash_are_not_taken() {
    let v = FileVerifier::new();
    assert!(v.can_take(0x1fff_ffff_ffff_ffff));
    assert!(!v.can_take(0x2000_0000_0000_0000));
}
