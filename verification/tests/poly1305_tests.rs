use sthash::poly1305;

#[test]
fn poly_two_chunks() {
    let key: Vec<u8> = (0..16).map(|i| i as u8).collect();
    let msg: Vec<u8> = (0..32).map(|i| ((i * 7 + 3) & 0xff) as u8).collect();
    let out = poly1305::Hasher::hash(&key, &msg);
    assert_eq!(
        out,
        [18, 22, 27, 1, 109, 59, 241, 43, 18, 196, 203, 141, 185, 185, 36, 45]
    );
}

// An accumulator that absorbed nothing reduces to zero: the final
// selection keeps the value, already below the prime.
#[test]
fn poly_no_update() {
    let key: Vec<u8> = (0..16).map(|i| i as u8).collect();
    let h = poly1305::new(&key);
    let out = h.finalize_noadd();
    assert_eq!(out, [0; 16]);
}

#[test]
fn poly_update_then_finalize_matches_one_shot() {
    let key: Vec<u8> = (0..16).map(|i| (255 - i) as u8).collect();
    let msg: Vec<u8> = (0..64).map(|i| ((i * 31 + 7) & 0xff) as u8).collect();
    let mut h = poly1305::new(&key);
    h.update(&msg[..32]);
    h.update(&msg[32..]);
    let split = h.finalize_noadd();
    let whole = poly1305::Hasher::hash(&key, &msg);
    assert_eq!(split, whole);
    assert_eq!(split.len(), 16);
}
