use shapad::bits::Bits;
use shapad::permutation::{chi, load_state, permutate, permute_state, rho_pi, theta, ROTATION_OFFSETS};

type Lanes = Vec<Vec<bool>>;

fn xor(a: &[bool], b: &[bool]) -> Vec<bool> {
    a.iter().enumerate().map(|(i, x)| *x != (i < b.len() && b[i])).collect()
}

fn rotr(a: &[bool], by: usize) -> Vec<bool> {
    let n = a.len();
    (0..n).map(|j| a[(j + n - by) % n]).collect()
}

fn lanes_of(state: &[Bits]) -> Lanes {
    state.iter().map(|b| b.to_bools()).collect()
}

fn state_of(lanes: &Lanes) -> Vec<Bits> {
    lanes.iter().map(|l| Bits::from_bools(l)).collect()
}

/// A state whose lanes differ from each other.
fn sample_lanes(w: usize) -> Lanes {
    (0..25).map(|i| (0..w).map(|j| (i * 31 + j * 17 + i * j * j) % 7 < 3).collect()).collect()
}

fn theta_model(s: &Lanes) -> Lanes {
    let parity: Vec<Vec<bool>> = (0..5)
        .map(|x| (1..5).fold(s[5 * x].clone(), |acc, y| xor(&acc, &s[5 * x + y])))
        .collect();
    let effect: Vec<Vec<bool>> = (0..5)
        .map(|x| {
            let c = &parity[(x + 1) % 5];
            xor(c, &rotr(c, 1))
        })
        .collect();
    (0..25).map(|i| xor(&s[i], &effect[i / 5])).collect()
}

fn rho_pi_model(s: &Lanes) -> Lanes {
    (0..25)
        .map(|i| {
            if i == 0 {
                s[0].clone()
            } else {
                let (x, y) = (i / 5, i % 5);
                rotr(&s[5 * ((x + 3 * y) % 5) + x], ROTATION_OFFSETS[x][y] as usize)
            }
        })
        .collect()
}

fn chi_model(s: &Lanes) -> Lanes {
    (0..25)
        .map(|i| {
            let (x, y) = (i / 5, i % 5);
            let a = &s[5 * ((x + 1) % 5) + y];
            let b = &s[5 * ((x + 2) % 5) + y];
            let and: Vec<bool> = a.iter().zip(b.iter()).map(|(p, q)| !*p && *q).collect();
            xor(&s[i], &and)
        })
        .collect()
}

#[test]
fn load_state_reads_consecutive_lanes() {
    let bits: Vec<bool> = (0..260).map(|k| k % 3 == 0 || k % 7 == 1).collect();
    let a = Bits::from_bools(&bits);
    let state = load_state(&a, 10);
    assert_eq!(state.len(), 25);
    for i in 0..25 {
        assert_eq!(state[i].to_bools(), bits[10 * i..10 * i + 10].to_vec());
    }
}

#[test]
fn theta_matches_model() {
    let s = sample_lanes(64);
    let mut state = state_of(&s);
    theta(&mut state);
    let got = lanes_of(&state);
    assert_eq!(got, theta_model(&s));
    assert_ne!(got, s);
}

#[test]
fn theta_on_one_set_bit() {
    // Only bit 0 of lane (1, 2) is set: row 1's parity is that bit, which
    // theta spreads, with its rotation by one, over every lane of row 0.
    let mut s: Lanes = vec![vec![false; 64]; 25];
    s[7][0] = true;
    let mut state = state_of(&s);
    theta(&mut state);
    let got = lanes_of(&state);
    for y in 0..5 {
        let lane = &got[y];
        assert!(lane[0] && lane[1]);
        assert_eq!(lane.iter().filter(|b| **b).count(), 2);
    }
    assert!(got[7][0]);
    assert_eq!(got[7].iter().filter(|b| **b).count(), 1);
    for i in 5..25 {
        if i != 7 {
            assert!(got[i].iter().all(|b| !*b));
        }
    }
}

#[test]
fn rho_pi_matches_model() {
    let s = sample_lanes(64);
    let mut state = state_of(&s);
    rho_pi(&mut state);
    let got = lanes_of(&state);
    assert_eq!(got, rho_pi_model(&s));
    assert_eq!(got[0], s[0]);
}

#[test]
fn rho_pi_moves_a_single_bit() {
    // Bit 0 of lane (1, 0) goes to lane (0, 2), the first lane the walk
    // reaches, rotated by that lane's offset, 3.
    let mut s: Lanes = vec![vec![false; 64]; 25];
    s[5][0] = true;
    let mut state = state_of(&s);
    rho_pi(&mut state);
    let got = lanes_of(&state);
    assert!(got[2][3]);
    assert_eq!(got.iter().flatten().filter(|b| **b).count(), 1);
}

#[test]
fn chi_matches_model() {
    let s = sample_lanes(64);
    let mut state = state_of(&s);
    chi(&mut state);
    let got = lanes_of(&state);
    assert_eq!(got, chi_model(&s));
    assert_ne!(got, s);
}

#[test]
fn chi_of_all_ones_is_all_ones() {
    let s: Lanes = vec![vec![true; 64]; 25];
    let mut state = state_of(&s);
    chi(&mut state);
    assert_eq!(lanes_of(&state), s);
}

#[test]
fn permute_state_runs_all_steps() {
    let bits: Vec<bool> = (0..1700).map(|k| (k * k + 3 * k) % 11 < 4).collect();
    let a = Bits::from_bools(&bits);
    let state = permute_state(&a, 64);
    let loaded: Lanes = (0..25).map(|i| bits[64 * i..64 * i + 64].to_vec()).collect();
    let expected = chi_model(&rho_pi_model(&theta_model(&loaded)));
    assert_eq!(lanes_of(&state), expected);
    assert!(state.iter().all(|l| l.len() == 64));
}

#[test]
fn permutate_accepts_a_padded_message() {
    let mut n = Bits::new();
    n.resize(2008, true);
    let padded = shapad::keccak::pad(&mut n, 576);
    assert_eq!(padded.len(), 2304);
    permutate(padded, 64, 576, 512);
}
