use sthash::{Hasher, Key, MIN_SEED_BYTES, OUTPUT_BYTES, SEED_BYTES};

#[test]
fn basic() {
    let mut seed = [0; SEED_BYTES];
    for i in 0..SEED_BYTES {
        seed[i] = i as u8;
    }
    let key = Key::from_seed(&seed, Some(b"test suite"));
    let hasher = Hasher::new(key, None);
    let h1 = hasher.hash(b"test data 1");
    let h2 = hasher.hash(b"test data 2");
    assert_ne!(h1, h2);
    assert_eq!(
        h1,
        [
            160, 23, 73, 180, 229, 11, 32, 137, 173, 25, 133, 188, 230, 79, 65, 225, 107, 146,
            22, 49, 32, 166, 5, 237, 231, 19, 58, 185, 79, 243, 199, 151
        ]
    );
}

#[test]
fn large() {
    let mut seed = [0; SEED_BYTES];
    for i in 0..SEED_BYTES {
        seed[i] = i as u8;
    }
    let key = Key::from_seed(&seed, Some(b"test suite"));
    let hasher = Hasher::new(key, None);
    let large = vec![0x42; 10_0000];
    let h1 = hasher.hash(&large);
    assert_eq!(
        h1,
        [
            29, 147, 110, 149, 90, 10, 64, 59, 149, 135, 113, 85, 45, 114, 0, 138, 111, 87,
            150, 196, 119, 107, 164, 141, 226, 95, 121, 173, 242, 132, 19, 18
        ]
    );
}

// Hashing the same message twice through one hasher, and through a
// second hasher built from the same seed and personalization, gives
// identical output.
#[test]
fn deterministic() {
    let seed = [7u8; SEED_BYTES];
    let key_a = Key::from_seed(&seed, Some(b"determinism"));
    let key_b = Key::from_seed(&seed, Some(b"determinism"));
    assert_eq!(key_a, key_b);
    let hasher_a = Hasher::new(key_a, Some(b"ctx"));
    let hasher_b = Hasher::new(key_b, Some(b"ctx"));
    let msg = b"some message";
    assert_eq!(hasher_a.hash(msg), hasher_a.hash(msg));
    assert_eq!(hasher_a.hash(msg), hasher_b.hash(msg));
}

#[test]
fn key_sensitivity() {
    let seed1 = [0u8; SEED_BYTES];
    let mut seed2 = [0u8; SEED_BYTES];
    seed2[0] = 1;
    let h1 = Hasher::new(Key::from_seed(&seed1, None), None);
    let h2 = Hasher::new(Key::from_seed(&seed2, None), None);
    let msg = b"message";
    assert_ne!(h1.hash(msg), h2.hash(msg));
}

#[test]
fn message_sensitivity() {
    let seed = [3u8; SEED_BYTES];
    let hasher = Hasher::new(Key::from_seed(&seed, None), None);
    assert_ne!(hasher.hash(b"abc"), hasher.hash(b"abd"));
    // messages differing only in length, one a prefix of the other
    assert_ne!(hasher.hash(b"abc"), hasher.hash(b"abc\0"));
    assert_ne!(hasher.hash(b""), hasher.hash(b"\0"));
}

#[test]
fn personalization_sensitivity() {
    let seed = [9u8; SEED_BYTES];
    let msg = b"same message";
    // a different context at key derivation changes the output
    let ha = Hasher::new(Key::from_seed(&seed, Some(b"app one")), None);
    let hb = Hasher::new(Key::from_seed(&seed, Some(b"app two")), None);
    assert_ne!(ha.hash(msg), hb.hash(msg));
    // a different context at hasher construction changes it too
    let hc = Hasher::new(Key::from_seed(&seed, Some(b"app one")), Some(b"ctx one"));
    let hd = Hasher::new(Key::from_seed(&seed, Some(b"app one")), Some(b"ctx two"));
    assert_ne!(hc.hash(msg), hd.hash(msg));
}

// Hashers share their key by value; clones read the same key and
// context and never mutate them.
#[test]
fn clone_hashes_identically() {
    let seed = [5u8; SEED_BYTES];
    let hasher = Hasher::new(Key::from_seed(&seed, None), Some(b"clone"));
    let copy = hasher.clone();
    assert_eq!(hasher.hash(b"payload"), copy.hash(b"payload"));
}

#[test]
fn output_size() {
    let seed = [0u8; MIN_SEED_BYTES];
    let hasher = Hasher::new(Key::from_seed(&seed, None), None);
    for n in [0usize, 1, 16, 100, 1024, 5000] {
        let msg = vec![0xaau8; n];
        assert_eq!(hasher.hash(&msg).len(), OUTPUT_BYTES);
    }
}
