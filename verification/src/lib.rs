//! Message padding for SHA-1 and a Keccak-style sponge, and a Keccak-style
//! state permutation, over bit strings held in `bitvec::vec::BitVec`.

pub mod bits;
pub mod keccak;
pub mod permutation;
pub mod sha1;
