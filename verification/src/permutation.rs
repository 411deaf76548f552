//! A Keccak-style permutation step over a 5 x 5 state of lanes.
//!
//! The state is held as 25 lanes, lane `5 * x + y` being the lane at row
//! `x` and column `y`.

use crate::bits::{
    and_bits, bv_and, bv_clone, bv_copy_range, bv_not, bv_rotate_right, bv_xor, not_bits,
    rotr_bits, xor_bits, Bits,
};
use vstd::prelude::*;

verus! {

/// Rotation offsets of the lanes, by row `x` and then column `y`.
pub const ROTATION_OFFSETS: [[u8; 5]; 5] = [
    [0, 36, 3, 41, 18],
    [1, 44, 10, 45, 2],
    [62, 6, 43, 15, 61],
    [28, 55, 25, 21, 56],
    [27, 20, 39, 8, 14],
];

/// The rotation offset of the lane at row `x` and column `y`.
pub open spec fn rotation_offset(x: int, y: int) -> nat {
    ROTATION_OFFSETS[x][y] as nat
}

/// The bits of each lane of a state.
pub open spec fn lanes(state: Seq<Bits>) -> Seq<Seq<bool>> {
    Seq::new(state.len(), |i: int| state[i]@)
}

/// The 25 lanes read from the start of `a`, `w` bits each, one after
/// another.
pub open spec fn load_spec(a: Seq<bool>, w: nat) -> Seq<Seq<bool>> {
    Seq::new(25, |i: int| a.subrange(i * w, i * w + w))
}

/// The xor of the five lanes of row `x`.
pub open spec fn row_parity(s: Seq<Seq<bool>>, x: int) -> Seq<bool> {
    xor_bits(
        xor_bits(xor_bits(xor_bits(s[5 * x], s[5 * x + 1]), s[5 * x + 2]), s[5 * x + 3]),
        s[5 * x + 4],
    )
}

/// What theta xors into every lane of row `x`: the parity `c` of the next
/// row, xored with `c` rotated right by one.
pub open spec fn theta_effect(s: Seq<Seq<bool>>, x: int) -> Seq<bool> {
    xor_bits(row_parity(s, (x + 1) % 5), rotr_bits(row_parity(s, (x + 1) % 5), 1))
}

/// The theta step.
pub open spec fn theta_spec(s: Seq<Seq<bool>>) -> Seq<Seq<bool>> {
    Seq::new(25, |i: int| xor_bits(s[i], theta_effect(s, i / 5)))
}

/// The lane that rho-pi moves to lane `i`: the lane at row `(x + 3y) mod 5`
/// and column `x`, for lane `i` at row `x` and column `y`.
pub open spec fn source_lane(i: int) -> int {
    5 * ((i / 5 + 3 * (i % 5)) % 5) + i / 5
}

/// The rho and pi steps: every lane but the first is the lane
/// `source_lane(i)`, rotated right by lane `i`'s rotation offset.
pub open spec fn rho_pi_spec(s: Seq<Seq<bool>>) -> Seq<Seq<bool>> {
    Seq::new(
        25,
        |i: int|
            if i == 0 {
                s[0]
            } else {
                rotr_bits(s[source_lane(i)], rotation_offset(i / 5, i % 5))
            },
    )
}

/// The chi step: each lane xored with the complement of the lane one row on,
/// anded with the lane two rows on (same column).
pub open spec fn chi_spec(s: Seq<Seq<bool>>) -> Seq<Seq<bool>> {
    Seq::new(
        25,
        |i: int|
            xor_bits(
                s[i],
                and_bits(
                    not_bits(s[5 * ((i / 5 + 1) % 5) + i % 5]),
                    s[5 * ((i / 5 + 2) % 5) + i % 5],
                ),
            ),
    )
}

/// The state after theta, rho, pi and chi, from the lanes read from `a`.
pub open spec fn permute_spec(a: Seq<bool>, w: nat) -> Seq<Seq<bool>> {
    chi_spec(rho_pi_spec(theta_spec(load_spec(a, w))))
}

/// Reads the 25 lanes of a state, `word_size` bits each, from the start of
/// `a`.
pub fn load_state(a: &Bits, word_size: u16) -> (state: Vec<Bits>)
    requires
        25 * word_size <= a@.len(),
    ensures
        state@.len() == 25,
        lanes(state@) == load_spec(a@, word_size as nat),
{
    let w = word_size as usize;
    let mut state: Vec<Bits> = Vec::new();
    let mut memoffset: usize = 0;
    let mut i: usize = 0;
    while i < 25
        invariant
            w == word_size,
            25 * w <= a@.len(),
            i <= 25,
            memoffset == i * w,
            state@.len() == i,
            forall|j: int| 0 <= j < i ==> state@[j]@ == a@.subrange(j * w, j * w + w),
        decreases 25 - i,
    {
        proof {
            vstd::arithmetic::mul::lemma_mul_inequality(i as int + 1, 25, w as int);
            vstd::arithmetic::mul::lemma_mul_is_distributive_add_other_way(w as int, i as int, 1);
        }
        state.push(bv_copy_range(a, memoffset, memoffset + w));
        memoffset = memoffset + w;
        i = i + 1;
    }
    assert(lanes(state@) =~= load_spec(a@, word_size as nat));
    state
}

/// Every lane of `state` xored with the parity of the next row and that
/// parity rotated right by one.
pub fn theta(state: &mut Vec<Bits>)
    requires
        old(state)@.len() == 25,
        forall|x: int| 0 <= x < 5 ==> (#[trigger] old(state)@[5 * x])@.len() >= 1,
    ensures
        final(state)@.len() == 25,
        lanes(final(state)@) == theta_spec(lanes(old(state)@)),
{
    let ghost s = lanes(state@);
    let mut c: Vec<Bits> = Vec::new();
    let mut x: usize = 0;
    while x < 5
        invariant
            state@.len() == 25,
            lanes(state@) == s,
            x <= 5,
            c@.len() == x,
            forall|j: int| 0 <= j < x ==> (#[trigger] c@[j])@ == row_parity(s, j),
        decreases 5 - x,
    {
        let p = bv_xor(
            bv_xor(
                bv_xor(
                    bv_xor(bv_clone(&state[5 * x]), bv_clone(&state[5 * x + 1])),
                    bv_clone(&state[5 * x + 2]),
                ),
                bv_clone(&state[5 * x + 3]),
            ),
            bv_clone(&state[5 * x + 4]),
        );
        c.push(p);
        x = x + 1;
    }
    let mut d: Vec<Bits> = Vec::new();
    let mut x: usize = 0;
    while x < 5
        invariant
            state@.len() == 25,
            lanes(state@) == s,
            forall|j: int| 0 <= j < 5 ==> (#[trigger] s[5 * j]).len() >= 1,
            x <= 5,
            c@.len() == 5,
            forall|j: int| 0 <= j < 5 ==> (#[trigger] c@[j])@ == row_parity(s, j),
            d@.len() == x,
            forall|j: int| 0 <= j < x ==> (#[trigger] d@[j])@ == theta_effect(s, j),
        decreases 5 - x,
    {
        let next = (x + 1) % 5;
        assert(c@[next as int]@.len() == s[5 * next].len());
        let mut rotated_vec = bv_clone(&c[next]);
        bv_rotate_right(&mut rotated_vec, 1);
        d.push(bv_xor(bv_clone(&c[next]), rotated_vec));
        x = x + 1;
    }
    let mut x: usize = 0;
    while x < 5
        invariant
            state@.len() == 25,
            s.len() == 25,
            x <= 5,
            d@.len() == 5,
            forall|j: int| 0 <= j < 5 ==> (#[trigger] d@[j])@ == theta_effect(s, j),
            forall|i: int|
                0 <= i < 25 ==> (#[trigger] state@[i])@ == if i < 5 * x {
                    xor_bits(s[i], theta_effect(s, i / 5))
                } else {
                    s[i]
                },
        decreases 5 - x,
    {
        let mut y: usize = 0;
        while y < 5
            invariant
                state@.len() == 25,
                s.len() == 25,
                x < 5,
                y <= 5,
                d@.len() == 5,
                forall|j: int| 0 <= j < 5 ==> (#[trigger] d@[j])@ == theta_effect(s, j),
                forall|i: int|
                    0 <= i < 25 ==> (#[trigger] state@[i])@ == if i < 5 * x + y {
                        xor_bits(s[i], theta_effect(s, i / 5))
                    } else {
                        s[i]
                    },
            decreases 5 - y,
        {
            let lane = bv_xor(bv_clone(&state[5 * x + y]), bv_clone(&d[x]));
            state[5 * x + y] = lane;
            y = y + 1;
        }
        x = x + 1;
    }
    assert(lanes(state@) =~= theta_spec(s));
}

/// The chi step, one column at a time: each lane xored with the complement
/// of the lane one row on, anded with the lane two rows on.
pub fn chi(state: &mut Vec<Bits>)
    requires
        old(state)@.len() == 25,
    ensures
        final(state)@.len() == 25,
        lanes(final(state)@) == chi_spec(lanes(old(state)@)),
{
    let ghost s = lanes(state@);
    let mut y: usize = 0;
    while y < 5
        invariant
            state@.len() == 25,
            s.len() == 25,
            y <= 5,
            forall|i: int|
                0 <= i < 25 ==> (#[trigger] state@[i])@ == if i % 5 < y {
                    chi_spec(s)[i]
                } else {
                    s[i]
                },
        decreases 5 - y,
    {
        let mut t: Vec<Bits> = Vec::new();
        let mut x: usize = 0;
        while x < 5
            invariant
                state@.len() == 25,
                s.len() == 25,
                y < 5,
                x <= 5,
                t@.len() == x,
                forall|j: int| 0 <= j < x ==> (#[trigger] t@[j])@ == s[5 * j + y],
                forall|i: int|
                    0 <= i < 25 ==> (#[trigger] state@[i])@ == if i % 5 < y {
                        chi_spec(s)[i]
                    } else {
                        s[i]
                    },
            decreases 5 - x,
        {
            t.push(bv_clone(&state[5 * x + y]));
            x = x + 1;
        }
        let mut x: usize = 0;
        while x < 5
            invariant
                state@.len() == 25,
                s.len() == 25,
                y < 5,
                x <= 5,
                t@.len() == 5,
                forall|j: int| 0 <= j < 5 ==> (#[trigger] t@[j])@ == s[5 * j + y],
                forall|i: int|
                    0 <= i < 25 ==> (#[trigger] state@[i])@ == if i % 5 < y || (i % 5 == y && i
                        / 5 < x) {
                        chi_spec(s)[i]
                    } else {
                        s[i]
                    },
            decreases 5 - x,
        {
            let lane = bv_xor(
                bv_clone(&t[x]),
                bv_and(bv_not(bv_clone(&t[(x + 1) % 5])), bv_clone(&t[(x + 2) % 5])),
            );
            state[5 * x + y] = lane;
            x = x + 1;
        }
        y = y + 1;
    }
    assert(lanes(state@) =~= chi_spec(s));
}

/// The iteration (from 1 to 24) at which the rho-pi walk, which starts at
/// row 1, column 0 and steps from `(x, y)` to `(y, (2x + 3y) mod 5)`,
/// reaches the lane at row `x`, column `y`; 0 for the first lane, which the
/// walk never reaches.
spec fn walk_step(x: int, y: int) -> int {
    if x == 0 && y == 2 { 1 }
    else if x == 2 && y == 1 { 2 }
    else if x == 1 && y == 2 { 3 }
    else if x == 2 && y == 3 { 4 }
    else if x == 3 && y == 3 { 5 }
    else if x == 3 && y == 0 { 6 }
    else if x == 0 && y == 1 { 7 }
    else if x == 1 && y == 3 { 8 }
    else if x == 3 && y == 1 { 9 }
    else if x == 1 && y == 4 { 10 }
    else if x == 4 && y == 4 { 11 }
    else if x == 4 && y == 0 { 12 }
    else if x == 0 && y == 3 { 13 }
    else if x == 3 && y == 4 { 14 }
    else if x == 4 && y == 3 { 15 }
    else if x == 3 && y == 2 { 16 }
    else if x == 2 && y == 2 { 17 }
    else if x == 2 && y == 0 { 18 }
    else if x == 0 && y == 4 { 19 }
    else if x == 4 && y == 2 { 20 }
    else if x == 2 && y == 4 { 21 }
    else if x == 4 && y == 1 { 22 }
    else if x == 1 && y == 1 { 23 }
    else if x == 1 && y == 0 { 24 }
    else { 0 }
}

/// One step of the walk goes from the lane reached at iteration `t` to the
/// lane reached at iteration `t + 1` (from the start lane, reached at 24, to
/// the lane reached at 1), and comes from that lane's source lane.
proof fn lemma_walk_step(x: int, y: int)
    requires
        0 <= x < 5,
        0 <= y < 5,
        !(x == 0 && y == 0),
    ensures
        walk_step(y, (2 * x + 3 * y) % 5) == walk_step(x, y) % 24 + 1,
        source_lane(5 * y + (2 * x + 3 * y) % 5) == 5 * x + y,
{
    assert(0 <= (2 * x + 3 * y) % 5 < 5);
    assert((5 * y + (2 * x + 3 * y) % 5) / 5 == y);
    assert((5 * y + (2 * x + 3 * y) % 5) % 5 == (2 * x + 3 * y) % 5);
    assert((y + 3 * ((2 * x + 3 * y) % 5)) % 5 == x);
}

/// Every lane but the first is reached by the walk, each at one iteration
/// from 1 to 24.
proof fn lemma_walk_covers(i: int)
    requires
        0 <= i < 25,
    ensures
        i == 0 <==> walk_step(i / 5, i % 5) == 0,
        0 <= walk_step(i / 5, i % 5) <= 24,
{
}

/// The rho and pi steps: walks the lanes from row 1, column 0, stepping
/// from `(x, y)` to `(y, (2x + 3y) mod 5)`, and puts at each lane it reaches
/// the lane it came from, rotated right by the rotation offset of the lane
/// reached.
pub fn rho_pi(state: &mut Vec<Bits>)
    requires
        old(state)@.len() == 25,
        forall|i: int|
            0 < i < 25 ==> rotation_offset(i / 5, i % 5) <= (#[trigger] old(
                state,
            )@[source_lane(i)])@.len(),
    ensures
        final(state)@.len() == 25,
        lanes(final(state)@) == rho_pi_spec(lanes(old(state)@)),
{
    let ghost s = lanes(state@);
    let mut x: usize = 1;
    let mut y: usize = 0;
    let mut current: Bits = bv_clone(&state[5 * x + y]);
    let mut t: usize = 0;
    while t < 24
        invariant
            state@.len() == 25,
            s.len() == 25,
            forall|i: int|
                0 < i < 25 ==> rotation_offset(i / 5, i % 5) <= (#[trigger] s[source_lane(
                    i,
                )]).len(),
            t <= 24,
            x < 5,
            y < 5,
            t == 0 ==> x == 1 && y == 0,
            t > 0 ==> walk_step(x as int, y as int) == t,
            current@ == s[5 * x + y],
            forall|i: int|
                0 <= i < 25 ==> (#[trigger] state@[i])@ == if 1 <= walk_step(i / 5, i % 5)
                    <= t {
                    rotr_bits(s[source_lane(i)], rotation_offset(i / 5, i % 5))
                } else {
                    s[i]
                },
        decreases 24 - t,
    {
        let temp_x = x;
        let temp_y = y;
        proof {
            lemma_walk_step(temp_x as int, temp_y as int);
        }
        x = y;
        y = (2 * temp_x + 3 * temp_y) % 5;
        let ghost i = 5 * x + y;
        assert(i / 5 == x && i % 5 == y);
        assert(walk_step(x as int, y as int) == t + 1);
        let temp_current = current;
        current = bv_clone(&state[5 * x + y]);
        let mut rotated_vec = bv_clone(&temp_current);
        assert(rotation_offset(i / 5, i % 5) <= s[source_lane(i)].len());
        bv_rotate_right(&mut rotated_vec, ROTATION_OFFSETS[x][y] as usize);
        state[5 * x + y] = rotated_vec;
        t = t + 1;
    }
    assert forall|i: int| 0 <= i < 25 implies (#[trigger] lanes(state@)[i]) == rho_pi_spec(s)[i] by {
        lemma_walk_covers(i);
    }
    assert(lanes(state@) =~= rho_pi_spec(s));
}

/// No rotation offset is above 62.
proof fn lemma_rotation_offsets_bound(x: int, y: int)
    requires
        0 <= x < 5,
        0 <= y < 5,
    ensures
        rotation_offset(x, y) <= 62,
{
}

/// The permutation keeps the shape of the state: 25 lanes, each as long as
/// the word size it was read with.
pub proof fn lemma_permute_keeps_word_size(a: Seq<bool>, w: nat)
    requires
        25 * w <= a.len(),
    ensures
        permute_spec(a, w).len() == 25,
        forall|i: int| 0 <= i < 25 ==> (#[trigger] permute_spec(a, w)[i]).len() == w,
{
    let s0 = load_spec(a, w);
    assert forall|i: int| 0 <= i < 25 implies (#[trigger] s0[i]).len() == w by {
        vstd::arithmetic::mul::lemma_mul_inequality(i + 1, 25, w as int);
        vstd::arithmetic::mul::lemma_mul_is_distributive_add_other_way(w as int, i, 1);
    }
    let s1 = theta_spec(s0);
    assert forall|i: int| 0 <= i < 25 implies (#[trigger] s1[i]).len() == w by {}
    let s2 = rho_pi_spec(s1);
    assert forall|i: int| 0 <= i < 25 implies (#[trigger] s2[i]).len() == w by {
        if i != 0 {
            assert(0 <= source_lane(i) < 25);
            assert(s1[source_lane(i)].len() == w);
        }
    }
    let s3 = chi_spec(s2);
    assert forall|i: int| 0 <= i < 25 implies (#[trigger] s3[i]).len() == w by {}
}

/// Bit `j` of lane `i` of the loaded state is bit `i * w + j` of `a`.
pub proof fn lemma_load_bits(a: Seq<bool>, w: nat)
    requires
        25 * w <= a.len(),
    ensures
        load_spec(a, w).len() == 25,
        forall|i: int| 0 <= i < 25 ==> (#[trigger] load_spec(a, w)[i]).len() == w,
        forall|i: int, j: int|
            0 <= i < 25 && 0 <= j < w ==> #[trigger] load_spec(a, w)[i][j] == a[i * w + j],
{
    assert forall|i: int| 0 <= i < 25 implies (#[trigger] load_spec(a, w)[i]).len() == w by {
        vstd::arithmetic::mul::lemma_mul_inequality(i + 1, 25, w as int);
        vstd::arithmetic::mul::lemma_mul_is_distributive_add_other_way(w as int, i, 1);
    }
    assert forall|i: int, j: int| 0 <= i < 25 && 0 <= j < w implies #[trigger] load_spec(a, w)[i][j]
        == a[i * w + j] by {
        vstd::arithmetic::mul::lemma_mul_inequality(i + 1, 25, w as int);
        vstd::arithmetic::mul::lemma_mul_is_distributive_add_other_way(w as int, i, 1);
    }
}

/// Theta on bits: bit `j` of the lane at row `x`, column `y` is flipped by
/// the parity of bit `j` over the five lanes of row `x + 1`, and again by
/// the parity of bit `j - 1` (wrapping round) over that row.
pub proof fn lemma_theta_bits(s: Seq<Seq<bool>>, w: nat)
    requires
        s.len() == 25,
        w >= 1,
        forall|i: int| 0 <= i < 25 ==> (#[trigger] s[i]).len() == w,
    ensures
        theta_spec(s).len() == 25,
        forall|i: int| 0 <= i < 25 ==> (#[trigger] theta_spec(s)[i]).len() == w,
        forall|x: int, y: int, j: int|
            #![trigger theta_spec(s)[5 * x + y][j]]
            0 <= x < 5 && 0 <= y < 5 && 0 <= j < w ==> theta_spec(s)[5 * x + y][j] == (s[5 * x
                + y][j] != ((((((s[5 * ((x + 1) % 5)][j] != s[5 * ((x + 1) % 5) + 1][j]) != s[5
                * ((x + 1) % 5) + 2][j]) != s[5 * ((x + 1) % 5) + 3][j]) != s[5 * ((x + 1) % 5)
                + 4][j]) != ((((s[5 * ((x + 1) % 5)][(j + w - 1) % (w as int)] != s[5 * ((x + 1)
                % 5) + 1][(j + w - 1) % (w as int)]) != s[5 * ((x + 1) % 5) + 2][(j + w - 1) % (
            w as int)]) != s[5 * ((x + 1) % 5) + 3][(j + w - 1) % (w as int)]) != s[5 * ((x + 1)
                % 5) + 4][(j + w - 1) % (w as int)])))),
{
    assert forall|x: int| 0 <= x < 5 implies (#[trigger] row_parity(s, x)).len() == w by {}
    assert forall|i: int| 0 <= i < 25 implies (#[trigger] theta_spec(s)[i]).len() == w by {
        assert(row_parity(s, (i / 5 + 1) % 5).len() == w);
    }
    assert forall|x: int, y: int, j: int|
        0 <= x < 5 && 0 <= y < 5 && 0 <= j < w implies #[trigger] theta_spec(s)[5 * x + y][j] == (s[5 * x
        + y][j] != ((((((s[5 * ((x + 1) % 5)][j] != s[5 * ((x + 1) % 5) + 1][j]) != s[5 * ((x
        + 1) % 5) + 2][j]) != s[5 * ((x + 1) % 5) + 3][j]) != s[5 * ((x + 1) % 5) + 4][j]) != ((((s[5
        * ((x + 1) % 5)][(j + w - 1) % (w as int)] != s[5 * ((x + 1) % 5) + 1][(j + w - 1) % (
    w as int)]) != s[5 * ((x + 1) % 5) + 2][(j + w - 1) % (w as int)]) != s[5 * ((x + 1) % 5)
        + 3][(j + w - 1) % (w as int)]) != s[5 * ((x + 1) % 5) + 4][(j + w - 1) % (
    w as int)])))) by {
        let i = 5 * x + y;
        assert(i / 5 == x);
        let r = (x + 1) % 5;
        let c = row_parity(s, r);
        assert(c.len() == w);
        let k = (j + w - 1) % (w as int);
        assert(0 <= k < w);
        assert(rotr_bits(c, 1)[j] == c[k]);
    }
}

/// A lane rotated right by `off` places has bit `j` at place
/// `(j + off) mod w`.
proof fn lemma_rotr_place(a: Seq<bool>, off: nat, j: int)
    requires
        a.len() >= 1,
        0 <= j < a.len(),
    ensures
        0 <= (j + off) % (a.len() as int) < a.len(),
        rotr_bits(a, off)[(j + off) % (a.len() as int)] == a[j],
{
    let w = a.len() as int;
    let q = (j + off) % w;
    vstd::arithmetic::div_mod::lemma_add_mod_noop_right(w - off, j + off, w);
    vstd::arithmetic::div_mod::lemma_mod_add_multiples_vanish(j, w);
    vstd::arithmetic::div_mod::lemma_small_mod(j as nat, w as nat);
    assert((q + w - off) % w == j);
}

/// Rho and pi on bits: the first lane stays; the lane at row `x`, column
/// `y` moves to row `y`, column `(2x + 3y) mod 5`, and its bit `j` lands at
/// place `j + offset` (wrapping round), `offset` being the rotation offset
/// of the lane it moves to.
pub proof fn lemma_rho_pi_bits(s: Seq<Seq<bool>>, w: nat)
    requires
        s.len() == 25,
        w >= 1,
        forall|i: int| 0 <= i < 25 ==> (#[trigger] s[i]).len() == w,
    ensures
        rho_pi_spec(s).len() == 25,
        forall|i: int| 0 <= i < 25 ==> (#[trigger] rho_pi_spec(s)[i]).len() == w,
        rho_pi_spec(s)[0] == s[0],
        forall|x: int, y: int, j: int|
            #![trigger s[5 * x + y][j]]
            0 <= x < 5 && 0 <= y < 5 && !(x == 0 && y == 0) && 0 <= j < w ==> rho_pi_spec(s)[5
                * y + (2 * x + 3 * y) % 5][(j + ROTATION_OFFSETS[y][(2 * x + 3 * y) % 5] as int)
                % (w as int)] == s[5 * x + y][j],
{
    assert forall|i: int| 0 <= i < 25 implies (#[trigger] rho_pi_spec(s)[i]).len() == w by {
        if i != 0 {
            assert(0 <= source_lane(i) < 25);
        }
    }
    assert forall|x: int, y: int, j: int|
        0 <= x < 5 && 0 <= y < 5 && !(x == 0 && y == 0) && 0 <= j < w implies rho_pi_spec(s)[5 * y
        + (2 * x + 3 * y) % 5][(j + ROTATION_OFFSETS[y][(2 * x + 3 * y) % 5] as int) % (
    w as int)] == #[trigger] s[5 * x + y][j] by {
        lemma_walk_step(x, y);
        let ny = (2 * x + 3 * y) % 5;
        let i = 5 * y + ny;
        assert(i / 5 == y && i % 5 == ny);
        assert(i != 0) by {
            if y == 0 && ny == 0 {
                assert(x == 0);
            }
        }
        lemma_rotr_place(s[5 * x + y], rotation_offset(y, ny), j);
    }
}

/// Chi on bits: bit `j` of a lane is flipped exactly when bit `j` of the
/// lane one row on (same column) is clear and bit `j` of the lane two rows
/// on is set.
pub proof fn lemma_chi_bits(s: Seq<Seq<bool>>, w: nat)
    requires
        s.len() == 25,
        forall|i: int| 0 <= i < 25 ==> (#[trigger] s[i]).len() == w,
    ensures
        chi_spec(s).len() == 25,
        forall|i: int| 0 <= i < 25 ==> (#[trigger] chi_spec(s)[i]).len() == w,
        forall|x: int, y: int, j: int|
            #![trigger chi_spec(s)[5 * x + y][j]]
            0 <= x < 5 && 0 <= y < 5 && 0 <= j < w ==> chi_spec(s)[5 * x + y][j] == (s[5 * x
                + y][j] != (!s[5 * ((x + 1) % 5) + y][j] && s[5 * ((x + 2) % 5) + y][j])),
{
    assert forall|x: int, y: int, j: int|
        0 <= x < 5 && 0 <= y < 5 && 0 <= j < w implies #[trigger] chi_spec(s)[5 * x + y][j] == (s[5
        * x + y][j] != (!s[5 * ((x + 1) % 5) + y][j] && s[5 * ((x + 2) % 5) + y][j])) by {
        let i = 5 * x + y;
        assert(i / 5 == x && i % 5 == y);
    }
}

/// The permutation reads only the first `25 * w` bits of its input.
pub proof fn lemma_permute_reads_prefix(a: Seq<bool>, w: nat)
    requires
        25 * w <= a.len(),
    ensures
        permute_spec(a, w) == permute_spec(a.subrange(0, 25 * w as int), w),
{
    let b = a.subrange(0, 25 * w as int);
    lemma_load_bits(a, w);
    lemma_load_bits(b, w);
    assert forall|i: int| 0 <= i < 25 implies #[trigger] load_spec(a, w)[i] == load_spec(b, w)[i] by {
        assert forall|j: int| 0 <= j < w implies #[trigger] load_spec(a, w)[i][j] == load_spec(
            b,
            w,
        )[i][j] by {
            vstd::arithmetic::mul::lemma_mul_inequality(i + 1, 25, w as int);
            vstd::arithmetic::mul::lemma_mul_is_distributive_add_other_way(w as int, i, 1);
            assert(i * w + j < 25 * w);
        }
        assert(load_spec(a, w)[i] =~= load_spec(b, w)[i]);
    }
    assert(load_spec(a, w) =~= load_spec(b, w));
}

/// Reads the state from the start of `a`, `word_size` bits a lane, and runs
/// theta, rho, pi and chi on it.
pub fn permute_state(a: &Bits, word_size: u16) -> (state: Vec<Bits>)
    requires
        25 * word_size <= a@.len(),
        word_size >= 62,
    ensures
        state@.len() == 25,
        lanes(state@) == permute_spec(a@, word_size as nat),
        lanes(state@) == chi_spec(rho_pi_spec(theta_spec(load_spec(a@, word_size as nat)))),
{
    let mut state = load_state(a, word_size);
    let ghost w = word_size as nat;
    assert forall|i: int| 0 <= i < 25 implies (#[trigger] state@[i])@.len() == w by {
        vstd::arithmetic::mul::lemma_mul_inequality(i + 1, 25, w as int);
        vstd::arithmetic::mul::lemma_mul_is_distributive_add_other_way(w as int, i, 1);
        assert(lanes(state@)[i] == load_spec(a@, w)[i]);
    }
    let ghost loaded = lanes(state@);
    theta(&mut state);
    assert forall|i: int| 0 < i < 25 implies rotation_offset(i / 5, i % 5) <= (
    #[trigger] state@[source_lane(i)])@.len() by {
        lemma_rotation_offsets_bound(i / 5, i % 5);
        assert(lanes(state@)[source_lane(i)] == theta_spec(loaded)[source_lane(i)]);
    }
    rho_pi(&mut state);
    chi(&mut state);
    state
}

/// The permutation of a sponge's state, read from the start of `a` in
/// lanes of `word_size` bits: theta, rho, pi and chi. The state it reaches
/// is not handed back; `permute_state` returns it.
pub fn permutate(a: &Bits, word_size: u16, rate: u16, output_length: u16)
    requires
        25 * word_size <= a@.len(),
        word_size >= 62,
{
    let _state = permute_state(a, word_size);
}

} // verus!
