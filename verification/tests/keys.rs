use ongrow_server::crypto::{PUBLIC_KEY_BYTES, SECRET_KEY_BYTES};
use ongrow_server::keys::{
    gen_sk, generate_keys, load_keys, needs_another, secret_key_from, server_keys, wait_for_file,
    KeyFile, KeyStep, MAX_REDRAWS, PUBLIC_KEY_FILE, PUBLIC_TEXT_CHARS, SECRET_KEY_FILE,
};
use sodiumoxide::crypto::sign;

#[test]
fn sizes_are_those_of_the_keys() {
    assert_eq!(PUBLIC_KEY_BYTES, sign::PUBLICKEYBYTES);
    assert_eq!(SECRET_KEY_BYTES, sign::SECRETKEYBYTES);
    assert_eq!(PUBLIC_KEY_FILE, format!("{}.pub", SECRET_KEY_FILE));
}

#[test]
fn loads_a_key_pair() {
    sodiumoxide::init().unwrap();
    let (public_key, secret_key) = sign::keypair_from_seed(&sign::Seed([3; 32]));
    let contents = format!(" {}\r\n", base64::encode(secret_key.0));
    let (public_text, loaded) = load_keys(&contents).unwrap();
    assert_eq!(public_text, base64::encode(public_key.0));
    assert_eq!(loaded, secret_key.0);
    match gen_sk(&KeyFile::Contents(contents)) {
        KeyStep::Loaded { public_text, secret_key: loaded } => {
            assert_eq!(public_text, base64::encode(public_key.0));
            assert_eq!(loaded, secret_key.0);
        }
        _ => panic!("not loaded"),
    }
}

#[test]
fn malformed_contents_hold_no_key() {
    for contents in [
        String::new(),
        "not base64!".to_owned(),
        base64::encode([1; 63]),
        base64::encode([1; 65]),
        base64::encode([1; 64]).replace('=', "!"),
    ] {
        assert!(load_keys(&contents).is_none());
        assert!(matches!(
            gen_sk(&KeyFile::Contents(contents)),
            KeyStep::Malformed
        ));
    }
    assert!(matches!(gen_sk(&KeyFile::Unreadable), KeyStep::Nothing));
}

#[test]
fn decoded_bytes_have_the_length_of_a_key() {
    let bytes: Vec<u8> = (0..64).collect();
    assert_eq!(secret_key_from(&Some(bytes.clone())).unwrap().to_vec(), bytes);
    assert!(secret_key_from(&Some(vec![0; 63])).is_none());
    assert!(secret_key_from(&Some(vec![])).is_none());
    assert!(secret_key_from(&None).is_none());
}

#[test]
fn generated_keys_sign_and_read_back() {
    sodiumoxide::init().unwrap();
    let keys = generate_keys();
    assert_eq!(keys.public_text, base64::encode(keys.public_key));
    assert_eq!(keys.secret_text, base64::encode(keys.secret_key));
    assert_eq!(keys.secret_key[32..], keys.public_key);
    assert!(!keys.public_text.contains('/') && !keys.public_text.contains(':'));
    let signed = sign::sign(b"message", &sign::SecretKey(keys.secret_key));
    let opened = sign::verify(&signed, &sign::PublicKey(keys.public_key)).unwrap();
    assert_eq!(opened, b"message");
    let (public_text, secret_key) = load_keys(&keys.secret_text).unwrap();
    assert_eq!(public_text, keys.public_text);
    assert_eq!(secret_key, keys.secret_key);
    assert_ne!(generate_keys().secret_key, keys.secret_key);
}

#[test]
fn drawn_keys_count_when_written() {
    sodiumoxide::init().unwrap();
    for (public_file, secret_file, written) in [
        (true, true, true),
        (false, true, true),
        (true, false, true),
        (true, true, false),
    ] {
        let keys = match gen_sk(&KeyFile::Missing) {
            KeyStep::Write(keys) => keys,
            _ => panic!("nothing drawn"),
        };
        let (text, secret_key) = (keys.public_text.clone(), keys.secret_key);
        let result = server_keys(KeyStep::Write(keys), public_file, secret_file, written);
        if public_file && secret_file && written {
            assert_eq!(result, Some((text, Some(secret_key))));
        } else {
            assert_eq!(result, Some((String::new(), None)));
        }
    }
}

#[test]
fn text_is_empty_without_keys() {
    sodiumoxide::init().unwrap();
    let (public_key, secret_key) = sign::keypair_from_seed(&sign::Seed([3; 32]));
    let contents = base64::encode(secret_key.0);
    let (text, key) = server_keys(gen_sk(&KeyFile::Contents(contents)), false, false, false).unwrap();
    assert_eq!(text, base64::encode(public_key.0));
    assert_eq!(text.len(), 44);
    assert_eq!(PUBLIC_TEXT_CHARS, 44);
    assert_eq!(key, Some(secret_key.0));
    assert_eq!(
        server_keys(gen_sk(&KeyFile::Unreadable), true, true, true),
        Some((String::new(), None))
    );
    assert_eq!(
        server_keys(gen_sk(&KeyFile::Contents("no key".to_owned())), true, true, true),
        None
    );
}

#[test]
fn awkward_texts_are_drawn_again() {
    assert!(needs_another("ab/c", 0));
    assert!(needs_another("ab:c", MAX_REDRAWS - 1));
    assert!(!needs_another("ab/c", MAX_REDRAWS));
    assert!(!needs_another("ab+c=", 0));
    assert_eq!(MAX_REDRAWS, 300);
}

#[test]
fn waits_for_a_missing_file() {
    assert_eq!(wait_for_file(1000, false), Some(1000));
    assert_eq!(wait_for_file(1000, true), None);
    assert_eq!(wait_for_file(0, false), None);
}
