use socks::cipher::Cipher;

fn encode_all(c: &Cipher, data: &[u8]) -> Vec<u8> {
    let mut out = Vec::new();
    c.encode(data, &mut out);
    out
}

fn decode_all(c: &Cipher, data: &[u8]) -> Vec<u8> {
    let mut out = Vec::new();
    c.decode(data, &mut out);
    out
}

fn reversed_key() -> Vec<u8> {
    (0..=255u8).rev().collect()
}

#[test]
fn from_key_maps_index_to_key_byte() {
    let c = Cipher::from_key(&[2, 0, 1]);
    assert_eq!(encode_all(&c, &[0, 1, 2, 2]), vec![2, 0, 1, 1]);
    assert_eq!(decode_all(&c, &[2, 0, 1]), vec![0, 1, 2]);
}

#[test]
fn encode_appends_to_existing_buffer() {
    let c = Cipher::from_key(&[9, 8]);
    let mut out = vec![7u8];
    c.encode(&[1, 0], &mut out);
    assert_eq!(out, vec![7, 8, 9]);
    c.decode(&[9], &mut out);
    assert_eq!(out, vec![7, 8, 9, 0]);
}

#[test]
fn partial_tables_report_missing_bytes() {
    let c = Cipher::from_key(&[2, 0, 1]);
    assert!(c.can_encode(&[0, 1, 2]));
    assert!(!c.can_encode(&[3]));
    assert!(c.can_decode(&[2]));
    assert!(!c.can_decode(&[200]));
    assert!(c.can_encode(&[]));
}

#[test]
fn later_key_entries_win() {
    // byte 5 occurs twice: it decodes to the later index
    let c = Cipher::from_key(&[5, 6, 5]);
    assert_eq!(decode_all(&c, &[5, 6]), vec![2, 1]);
    // indices wrap at 256: index 256 overwrites index 0
    let mut key = reversed_key();
    key.push(42);
    let c = Cipher::from_key(&key);
    assert_eq!(encode_all(&c, &[0, 1]), vec![42, 254]);
}

#[test]
fn new_decodes_base64_password() {
    // "AgAB" is the base64 text of [2, 0, 1]
    let c = Cipher::new("AgAB".to_string());
    assert_eq!(encode_all(&c, &[0, 1, 2]), vec![2, 0, 1]);
    assert_eq!(decode_all(&c, &[2, 0, 1]), vec![0, 1, 2]);
}

#[test]
fn try_new_refuses_non_base64() {
    assert!(Cipher::try_new("not base64!".to_string()).is_none());
    assert!(Cipher::try_new("A".to_string()).is_none());
    let c = Cipher::try_new("AgAB".to_string()).expect("valid base64");
    assert_eq!(encode_all(&c, &[1]), vec![0]);
}

#[test]
#[allow(deprecated)]
fn rand_password_is_a_permutation_of_all_bytes() {
    let password = Cipher::rand_password();
    let mut key = base64::decode(&password).expect("base64 password");
    assert_eq!(key.len(), 256);
    key.sort();
    let all: Vec<u8> = (0..=255u8).collect();
    assert_eq!(key, all);
}

#[test]
fn random_cipher_round_trips() {
    let c = Cipher::new(Cipher::rand_password());
    let data: Vec<u8> = (0..=255u8).chain(b"hello world".iter().copied()).collect();
    let sealed = encode_all(&c, &data);
    assert_eq!(decode_all(&c, &sealed), data);
    assert_eq!(encode_all(&c, &decode_all(&c, &data)), data);
}

#[test]
fn reversed_key_cipher() {
    let c = Cipher::from_key(&reversed_key());
    assert_eq!(encode_all(&c, &[0, 255, 10]), vec![255, 0, 245]);
    assert_eq!(decode_all(&c, &[255, 0, 245]), vec![0, 255, 10]);
}

#[test]
fn max_connections_value() {
    assert_eq!(socks::MAX_CONNECTIONS, 1024);
}

#[test]
#[allow(deprecated)]
fn rand_password_is_shuffled() {
    // the chance that a shuffle keeps 0..=255 in order, or that two shuffles
    // agree, is 1 in 256!
    let identity: Vec<u8> = (0..=255u8).collect();
    let first = Cipher::rand_password();
    let second = Cipher::rand_password();
    assert_ne!(base64::decode(&first).unwrap(), identity);
    assert_ne!(first, second);
}

#[test]
fn rand_password_text_shape() {
    let password = Cipher::rand_password();
    assert_eq!(password.len(), 344);
    assert!(password[..342]
        .chars()
        .all(|c| c.is_ascii_alphanumeric() || c == '+' || c == '/'));
    assert!(password.ends_with("=="));
}
