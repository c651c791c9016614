use pfs_fuzz::name::Name;
use pfs_fuzz::name::MAX_NAME_LEN;
use pfs_fuzz::name::name_eq;

fn name_of(bytes: &[u8]) -> Name {
    Name::new(bytes.to_vec()).unwrap()
}

#[test]
fn empty_name_is_rejected() {
    assert!(Name::new(Vec::new()).is_none());
}

#[test]
fn oversized_name_is_rejected() {
    let bytes = vec![7u8; MAX_NAME_LEN + 1];
    assert!(Name::new(bytes).is_none());
}

#[test]
fn largest_name_is_accepted() {
    let bytes = vec![7u8; MAX_NAME_LEN];
    assert!(Name::new(bytes).is_some());
}

#[test]
fn single_byte_name_encodes_with_padding_substituted() {
    assert_eq!(name_of(b"0").to_ident(), "MA--");
    assert_eq!(name_of(b"R").to_ident(), "Ug--");
    assert_eq!(name_of(&[0u8]).to_ident(), "AA--");
}

#[test]
fn multi_byte_names_encode_as_expected() {
    assert_eq!(name_of(b"/test").to_ident(), "L3Rlc3Q-");
    assert_eq!(name_of(b"master").to_ident(), "bWFzdGVy");
    assert_eq!(name_of(b"ab").to_ident(), "YWI-");
}

#[test]
fn encoding_twice_yields_the_same_identifier() {
    let inputs: Vec<Vec<u8>> = vec![
        vec![0],
        vec![255],
        b"some repo".to_vec(),
        (0u8..=255).collect(),
    ];
    for bytes in inputs {
        let a = name_of(&bytes).to_ident();
        let b = name_of(&bytes).to_ident();
        assert_eq!(a, b);
    }
}

#[test]
fn identifiers_match_the_allowed_character_set() {
    let inputs: Vec<Vec<u8>> = vec![
        vec![251],
        vec![0, 1, 2],
        b"hello world \x00\xff\xfe+/=".to_vec(),
        (0u8..=255).collect(),
    ];
    for bytes in inputs {
        let ident = name_of(&bytes).to_ident();
        assert!(!ident.is_empty());
        for c in ident.chars() {
            assert!(c.is_ascii_alphanumeric() || c == '_' || c == '-', "bad char {c:?}");
        }
    }
}

#[test]
fn encoding_agrees_with_the_base64_crate() {
    let inputs: Vec<Vec<u8>> = vec![
        vec![0],
        b"0".to_vec(),
        b"fuzz".to_vec(),
        (0u8..=255).collect(),
        vec![0xff; 300],
    ];
    for bytes in inputs {
        let expected = base64::encode(&bytes)
            .replace("+", "_")
            .replace("/", "_")
            .replace("=", "-");
        assert_eq!(name_of(&bytes).to_ident(), expected);
    }
}

#[test]
fn name_equality_compares_bytes() {
    let a = name_of(b"abc");
    let b = name_of(b"abc");
    let c = name_of(b"abd");
    let d = name_of(b"ab");
    assert!(name_eq(&a, &b));
    assert!(!name_eq(&a, &c));
    assert!(!name_eq(&a, &d));
}

#[test]
fn dup_preserves_bytes() {
    let a = name_of(b"xyz");
    let b = a.dup();
    assert!(name_eq(&a, &b));
    assert_eq!(b.bytes, b"xyz".to_vec());
}
