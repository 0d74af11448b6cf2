use sthash::nh;

#[test]
fn nh_basic_small() {
    let key = vec![1; nh::NH_KEY_BYTES_PER_MESSAGE];
    let h = nh::new(&key);
    let msg = vec![0; 64];
    let mut out = Vec::new();
    h.hash(&mut out, &msg);
    assert_eq!(
        out,
        [
            8, 16, 24, 32, 24, 16, 8, 0, 8, 16, 24, 32, 24, 16, 8, 0, 8, 16, 24, 32, 24, 16, 8, 0,
            8, 16, 24, 32, 24, 16, 8, 0
        ]
    );
}

#[test]
fn mod_basic_small() {
    let key = vec![1; nh::NH_KEY_BYTES_PER_MESSAGE];
    let h = nh::new(&key);
    let msg = vec![42; 64];
    let mut out = Vec::new();
    h.hash(&mut out, &msg);
    assert_eq!(
        out,
        [
            200, 201, 203, 205, 63, 62, 60, 58, 200, 201, 203, 205, 63, 62, 60, 58, 200, 201, 203,
            205, 63, 62, 60, 58, 200, 201, 203, 205, 63, 62, 60, 58
        ]
    );
}

// A patterned key over a full block exercises the sliding key window:
// a window that advanced by anything but four words per unit would not
// reproduce these bytes.
#[test]
fn nh_full_block_pattern() {
    let key: Vec<u8> = (0..nh::NH_KEY_BYTES_PER_MESSAGE)
        .map(|i| ((i * 13 + 5) & 0xff) as u8)
        .collect();
    let h = nh::new(&key);
    let msg: Vec<u8> = (0..1024).map(|i| ((i * 11 + 1) & 0xff) as u8).collect();
    let mut out = Vec::new();
    h.hash(&mut out, &msg);
    assert_eq!(
        out,
        [
            0, 98, 250, 72, 98, 169, 50, 2, 0, 98, 120, 15, 15, 226, 98, 115, 0, 98, 249, 199,
            224, 43, 182, 1, 0, 98, 125, 138, 135, 86, 226, 112
        ]
    );
}

#[test]
fn nh_three_units_pattern() {
    let key: Vec<u8> = (0..nh::NH_KEY_BYTES_PER_MESSAGE)
        .map(|i| ((i * 13 + 5) & 0xff) as u8)
        .collect();
    let h = nh::new(&key);
    let msg: Vec<u8> = (0..48).map(|i| ((i * 11 + 1) & 0xff) as u8).collect();
    let mut out = Vec::new();
    h.hash(&mut out, &msg);
    assert_eq!(
        out,
        [
            88, 79, 123, 102, 62, 217, 7, 65, 216, 133, 122, 64, 197, 169, 15, 110, 88, 168, 82,
            224, 152, 193, 89, 216, 216, 128, 125, 87, 220, 197, 35, 110
        ]
    );
}

#[test]
fn nh_empty_message() {
    let key = vec![1; nh::NH_KEY_BYTES_PER_MESSAGE];
    let h = nh::new(&key);
    let msg: Vec<u8> = Vec::new();
    let mut out = Vec::new();
    h.hash(&mut out, &msg);
    assert_eq!(out, [0u8; 32]);
}
