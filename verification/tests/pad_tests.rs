use shapad::bits::Bits;
use shapad::keccak;
use shapad::sha1;

fn bools(bits: &[u8]) -> Vec<bool> {
    bits.iter().map(|b| *b != 0).collect()
}

#[test]
fn sha1_verify_pad() {
    let mut v = Bits::from_bools(&bools(&[1, 1, 1, 1]));
    v.resize(40, true);
    assert_eq!(sha1::pad(&mut v).len() % 512 as usize, 0 as usize);

    // The example of RFC 3174, section 4: the message "abcde".
    let mut v2 = 0b0110000101100010011000110110010001100101usize.to_ne_bytes();
    let target_pad: Vec<u8> = vec![
        0x6, 0x1, 0x6, 0x2, 0x6, 0x3, 0x6, 0x4, 0x6, 0x5, 0x8, 0x0, 0x0, 0x0, 0x0, 0x0, 0x0,
        0x0, 0x0, 0x0, 0x0, 0x0, 0x0, 0x0, 0x0, 0x0, 0x0, 0x0, 0x0, 0x0, 0x0, 0x0, 0x0, 0x0,
        0x0, 0x0, 0x0, 0x0, 0x0, 0x0, 0x0, 0x0, 0x0, 0x0, 0x0, 0x0, 0x0, 0x0, 0x0, 0x0, 0x0,
        0x0, 0x0, 0x0, 0x0, 0x0, 0x0, 0x0, 0x0, 0x0, 0x0, 0x0, 0x0, 0x0, 0x0, 0x0, 0x0, 0x0,
        0x0, 0x0, 0x0, 0x0, 0x0, 0x0, 0x0, 0x0, 0x0, 0x0, 0x0, 0x0, 0x0, 0x0, 0x0, 0x0, 0x0,
        0x0, 0x0, 0x0, 0x0, 0x0, 0x0, 0x0, 0x0, 0x0, 0x0, 0x0, 0x0, 0x0, 0x0, 0x0, 0x0, 0x0,
        0x0, 0x0, 0x0, 0x0, 0x0, 0x0, 0x0, 0x0, 0x0, 0x0, 0x0, 0x0, 0x0, 0x0, 0x0, 0x0, 0x0,
        0x0, 0x0, 0x0, 0x0, 0x0, 0x0, 0x0, 0x2, 0x8,
    ];
    assert_eq!(sha1::pad_input(&mut v2), target_pad);
}

#[test]
fn main_verify_pad() {
    for r in 1..1000 {
        let mut v = Bits::from_bools(&bools(&[1, 0, 0, 1]));
        assert_eq!(keccak::pad(&mut v, r).len() % r as usize, 0 as usize);
    }
}

#[test]
fn keccak_pad_exact_bits() {
    let mut v = Bits::from_bools(&bools(&[1, 0, 0, 1]));
    keccak::pad(&mut v, 8);
    assert_eq!(v.to_bools(), bools(&[1, 0, 0, 1, 1, 0, 0, 1]));

    let mut v = Bits::from_bools(&bools(&[1, 0, 0, 1]));
    keccak::pad(&mut v, 4);
    assert_eq!(v.to_bools(), bools(&[1, 0, 0, 1, 1, 0, 0, 1]));

    // A length already a multiple of the rate still gets 1 0* 1.
    let mut v = Bits::from_bools(&bools(&[0, 1, 1]));
    keccak::pad(&mut v, 3);
    assert_eq!(v.to_bools(), bools(&[0, 1, 1, 1, 0, 1]));
}

#[test]
fn keccak_pad_rate_one_adds_two_ones() {
    let mut v = Bits::from_bools(&bools(&[0, 0]));
    assert_eq!(keccak::pad(&mut v, 1).to_bools(), bools(&[0, 0, 1, 1]));
}

#[test]
fn keccak_pad_empty_input() {
    let mut v = Bits::new();
    let padded = keccak::pad(&mut v, 576).to_bools();
    assert_eq!(padded.len(), 576);
    assert!(padded[0] && padded[575]);
    assert!(padded[1..575].iter().all(|b| !*b));
}

/// The last 64 bits of `bits`, read as a number, most significant first.
fn length_field(bits: &[bool]) -> u64 {
    bits[bits.len() - 64..].iter().fold(0u64, |acc, b| acc * 2 + *b as u64)
}

#[test]
fn sha1_pad_short_input() {
    let mut v = Bits::from_bools(&bools(&[1, 0, 1, 1]));
    let padded = sha1::pad(&mut v).to_bools();
    assert_eq!(padded.len(), 512);
    assert_eq!(&padded[0..4], &bools(&[1, 0, 1, 1])[..]);
    assert!(padded[4]);
    assert!(padded[5..448].iter().all(|b| !*b));
    assert_eq!(length_field(&padded), 4);
}

#[test]
fn sha1_pad_whole_block_gets_another_block() {
    let mut v = Bits::new();
    v.resize(512, false);
    let padded = sha1::pad(&mut v).to_bools();
    assert_eq!(padded.len(), 1024);
    assert!(padded[0..512].iter().all(|b| !*b));
    assert!(padded[512]);
    assert!(padded[513..960].iter().all(|b| !*b));
    assert_eq!(length_field(&padded), 512);
}

#[test]
fn sha1_pad_no_room_for_length() {
    // 448 bits leave no room for the 1 bit and the length in one block.
    let mut v = Bits::new();
    v.resize(448, true);
    let padded = sha1::pad(&mut v).to_bools();
    assert_eq!(padded.len(), 1024);
    assert!(padded[448]);
    assert!(padded[449..960].iter().all(|b| !*b));
    assert_eq!(length_field(&padded), 448);
}

#[test]
fn sha1_pad_appended_bits_depend_on_length_only() {
    let mut a = Bits::from_bools(&bools(&[1, 1, 1, 1, 1, 1, 1]));
    let mut b = Bits::from_bools(&bools(&[0, 1, 0, 0, 1, 0, 0]));
    let pa = sha1::pad(&mut a).to_bools();
    let pb = sha1::pad(&mut b).to_bools();
    assert_eq!(pa[7..], pb[7..]);
}

#[test]
fn pad_input2_empty_input() {
    let mut v = Bits::new();
    let padded = sha1::pad_input2(&mut v).to_bools();
    assert_eq!(padded.len(), 256);
    assert!(padded[0]);
    assert!(padded[1..255].iter().all(|b| !*b));
    assert!(padded[255]);
}

#[test]
fn pad_input2_pads_to_multiple_of_256() {
    let mut v = Bits::new();
    v.resize(200, true);
    let padded = sha1::pad_input2(&mut v).to_bools();
    assert_eq!(padded.len(), 256);
    assert!(padded[200]);
    assert!(padded[201..255].iter().all(|b| !*b));
    assert!(padded[255]);

    // A whole block still gets 1 0* 1: another block.
    let mut v = Bits::new();
    v.resize(256, false);
    let padded = sha1::pad_input2(&mut v).to_bools();
    assert_eq!(padded.len(), 512);
    assert!(padded[256] && padded[511]);

    // One bit short of a block: 1 ends it, 0* and 1 fill another.
    let mut v = Bits::new();
    v.resize(255, false);
    let padded = sha1::pad_input2(&mut v).to_bools();
    assert_eq!(padded.len(), 512);
    assert!(padded[255] && padded[511]);
    assert!(padded[256..511].iter().all(|b| !*b));
}

#[test]
fn pad_input_empty_message() {
    let mut n: [u8; 0] = [];
    let out = sha1::pad_input(&mut n);
    assert_eq!(out.len(), 128);
    assert_eq!(out[0], 0x8);
    assert!(out[1..].iter().all(|d| *d == 0));
}

#[test]
fn pad_input_reads_little_endian_message() {
    // "a" with zero bytes after it: the message is the one byte 0x61.
    let mut n = [0x61u8, 0, 0];
    let out = sha1::pad_input(&mut n);
    assert_eq!(n, [0x61, 0, 0]);
    assert_eq!(out.len(), 128);
    assert_eq!(&out[0..4], &[0x6, 0x1, 0x8, 0x0]);
    assert!(out[4..126].iter().all(|d| *d == 0));
    assert_eq!(&out[126..128], &[0x0, 0x8]);
}

#[test]
fn pad_input_two_blocks() {
    // 56 bytes leave no room for the length in the first block.
    let mut n = [0xffu8; 56];
    let out = sha1::pad_input(&mut n);
    assert_eq!(out.len(), 256);
    assert!(out[0..112].iter().all(|d| *d == 0xf));
    assert_eq!(out[112], 0x8);
    // 56 * 8 = 448 = 0x1c0 bits.
    assert_eq!(&out[253..256], &[0x1, 0xc, 0x0]);
    assert!(out.iter().all(|d| *d < 16));
}

#[test]
fn pad_input_length_depends_on_buffer_length_only() {
    // 55 bytes of message in a 56-byte buffer: the padding has room for all
    // 56 bytes, so it takes two blocks, as for 56 bytes of message.
    let mut n = [0xffu8; 56];
    n[55] = 0;
    let out = sha1::pad_input(&mut n);
    assert_eq!(out.len(), 256);
    assert!(out[0..110].iter().all(|d| *d == 0xf));
    assert_eq!(out[110], 0x8);
    assert!(out[111..240].iter().all(|d| *d == 0));
    // 55 * 8 = 440 = 0x1b8 bits.
    assert_eq!(&out[252..256], &[0x0, 0x1, 0xb, 0x8]);
}

#[test]
fn keccak_pad_appended_bits_depend_on_length_mod_rate() {
    // Lengths 3 and 11 agree modulo 8.
    let mut a = Bits::from_bools(&bools(&[1, 1, 0]));
    let mut b = Bits::from_bools(&bools(&[0, 0, 1, 1, 0, 1, 0, 1, 1, 1, 0]));
    let pa = keccak::pad(&mut a, 8).to_bools();
    let pb = keccak::pad(&mut b, 8).to_bools();
    assert_eq!(pa[3..], pb[11..]);
    assert_eq!(pa.len(), 8);
    assert_eq!(pb.len(), 16);
}
