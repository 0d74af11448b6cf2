// Frozen digests for boundary-length messages: lengths around the
// 16-byte unit, the 1024-byte block, and the 16-block batching
// boundary.  The message of length `n` has byte `i % 251` at index
// `i`; the digests were generated with this engine and frozen.

use sthash::{Hasher, Key, SEED_BYTES};

fn pattern_msg(n: usize) -> Vec<u8> {
    (0..n).map(|i| (i % 251) as u8).collect()
}

fn zero_seed_hasher() -> Hasher {
    let seed = [0u8; SEED_BYTES];
    Hasher::new(Key::from_seed(&seed, None), None)
}

#[test]
fn boundary_len_0() {
    let h = zero_seed_hasher().hash(&pattern_msg(0));
    assert_eq!(
        h,
        [
            42, 28, 65, 116, 87, 141, 82, 149, 83, 152, 173, 102, 120, 37, 47, 181, 247, 112,
            95, 202, 109, 211, 19, 37, 141, 247, 41, 228, 69, 229, 191, 252
        ]
    );
}

#[test]
fn boundary_len_1() {
    let h = zero_seed_hasher().hash(&pattern_msg(1));
    assert_eq!(
        h,
        [
            122, 243, 169, 181, 136, 176, 42, 148, 47, 81, 161, 170, 100, 221, 51, 202, 32, 95,
            204, 152, 106, 5, 180, 19, 28, 212, 7, 71, 140, 84, 144, 174
        ]
    );
}

#[test]
fn boundary_len_15() {
    let h = zero_seed_hasher().hash(&pattern_msg(15));
    assert_eq!(
        h,
        [
            250, 131, 215, 243, 57, 58, 21, 98, 115, 196, 217, 152, 202, 182, 241, 239, 247,
            100, 244, 23, 166, 42, 77, 36, 182, 133, 19, 149, 90, 163, 205, 14
        ]
    );
}

#[test]
fn boundary_len_16() {
    let h = zero_seed_hasher().hash(&pattern_msg(16));
    assert_eq!(
        h,
        [
            34, 39, 167, 112, 231, 64, 63, 56, 169, 139, 216, 104, 4, 105, 243, 179, 49, 9,
            103, 201, 221, 248, 192, 40, 113, 158, 85, 239, 196, 241, 179, 236
        ]
    );
}

#[test]
fn boundary_len_1023() {
    let h = zero_seed_hasher().hash(&pattern_msg(1023));
    assert_eq!(
        h,
        [
            170, 85, 33, 198, 11, 128, 40, 193, 55, 12, 129, 220, 195, 12, 123, 39, 51, 167,
            255, 252, 103, 76, 49, 242, 135, 97, 15, 58, 156, 26, 245, 223
        ]
    );
}

#[test]
fn boundary_len_1024() {
    let h = zero_seed_hasher().hash(&pattern_msg(1024));
    assert_eq!(
        h,
        [
            14, 90, 101, 221, 180, 157, 247, 14, 252, 132, 37, 201, 76, 155, 6, 176, 99, 227,
            228, 105, 153, 252, 36, 44, 60, 20, 161, 121, 110, 212, 46, 28
        ]
    );
}

#[test]
fn boundary_len_1025() {
    let h = zero_seed_hasher().hash(&pattern_msg(1025));
    assert_eq!(
        h,
        [
            141, 159, 13, 40, 135, 99, 93, 171, 62, 53, 1, 37, 19, 243, 215, 38, 189, 24, 46,
            211, 235, 255, 84, 226, 248, 188, 132, 72, 98, 225, 15, 25
        ]
    );
}

// One full batch: sixteen 1024-byte blocks, folded into the
// accumulator in a single call.
#[test]
fn boundary_len_16384() {
    let h = zero_seed_hasher().hash(&pattern_msg(16384));
    assert_eq!(
        h,
        [
            85, 27, 95, 75, 139, 90, 88, 23, 112, 64, 79, 105, 113, 95, 58, 114, 127, 18, 58,
            12, 53, 131, 202, 102, 40, 162, 105, 184, 165, 108, 118, 194
        ]
    );
}

#[test]
fn boundary_len_32768() {
    let h = zero_seed_hasher().hash(&pattern_msg(32768));
    assert_eq!(
        h,
        [
            241, 224, 146, 105, 255, 6, 208, 73, 222, 173, 180, 217, 197, 156, 213, 187, 97,
            43, 10, 3, 189, 225, 125, 180, 33, 84, 25, 197, 123, 164, 154, 19
        ]
    );
}

fn fixture_hasher() -> Hasher {
    let mut seed = [0u8; SEED_BYTES];
    for i in 0..SEED_BYTES {
        seed[i] = i as u8;
    }
    Hasher::new(
        Key::from_seed(&seed, Some(b"vector fixture")),
        Some(b"context b"),
    )
}

#[test]
fn fixture_len_0() {
    let h = fixture_hasher().hash(&pattern_msg(0));
    assert_eq!(
        h,
        [
            43, 60, 42, 195, 92, 12, 35, 146, 49, 114, 175, 219, 232, 181, 127, 20, 155, 182,
            116, 214, 102, 37, 190, 114, 215, 191, 105, 123, 16, 245, 53, 15
        ]
    );
}

#[test]
fn fixture_len_1() {
    let h = fixture_hasher().hash(&pattern_msg(1));
    assert_eq!(
        h,
        [
            87, 222, 89, 46, 87, 232, 147, 151, 244, 68, 217, 249, 6, 86, 132, 41, 247, 9, 111,
            135, 128, 188, 214, 96, 242, 7, 146, 222, 45, 133, 87, 153
        ]
    );
}

#[test]
fn fixture_len_16() {
    let h = fixture_hasher().hash(&pattern_msg(16));
    assert_eq!(
        h,
        [
            187, 58, 235, 112, 22, 157, 229, 41, 178, 88, 201, 163, 255, 152, 15, 25, 70, 86,
            41, 4, 23, 107, 235, 215, 152, 251, 218, 112, 54, 130, 180, 127
        ]
    );
}

#[test]
fn fixture_len_1024() {
    let h = fixture_hasher().hash(&pattern_msg(1024));
    assert_eq!(
        h,
        [
            70, 205, 126, 208, 98, 119, 108, 224, 121, 128, 162, 13, 203, 254, 230, 105, 141,
            62, 32, 100, 153, 230, 240, 238, 244, 152, 8, 46, 215, 5, 213, 133
        ]
    );
}

#[test]
fn fixture_len_1025() {
    let h = fixture_hasher().hash(&pattern_msg(1025));
    assert_eq!(
        h,
        [
            42, 211, 66, 23, 163, 44, 65, 133, 147, 71, 31, 252, 125, 235, 33, 118, 232, 123,
            57, 126, 163, 106, 231, 151, 20, 68, 173, 144, 71, 56, 4, 198
        ]
    );
}
