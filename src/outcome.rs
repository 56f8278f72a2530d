//! Outcomes drawn from one block of entropy bytes.
//!
//! A draw reads four bytes, little-endian, from the block rotated left by the
//! draw's offset. The three dice of a roll use offsets a third of the block
//! apart: they differ modulo the block's length for every block of four bytes or
//! more, and on a block of twelve bytes or more the draws read disjoint bytes. The
//! outcome is the draw reduced modulo the number of faces; the slight bias that
//! this gives is part of the game's odds.
use vstd::prelude::*;

verus! {

/// The number of bytes that one draw reads.
pub const DRAW_BYTES: usize = 4;

/// Byte `j` of `seed` rotated left by `shift` places.
pub open spec fn rotated_byte(seed: Seq<u8>, shift: int, j: int) -> int {
    seed[(shift + j) % (seed.len() as int)] as int
}

/// The draw at offset `shift`: the first four bytes of `seed` rotated left by
/// `shift` places, read little-endian.
pub open spec fn draw(seed: Seq<u8>, shift: int) -> int {
    rotated_byte(seed, shift, 0) + 256 * rotated_byte(seed, shift, 1) + 65536 * rotated_byte(
        seed,
        shift,
        2,
    ) + 16777216 * rotated_byte(seed, shift, 3)
}

/// The rotation offset of die `k` (0, 1 or 2) on a block of `n` bytes.
pub open spec fn die_offset(n: int, k: int) -> int {
    k * (n / 3)
}

/// The face shown by die `k` (0, 1 or 2) of a roll.
pub open spec fn die_face(seed: Seq<u8>, k: int) -> int {
    draw(seed, die_offset(seed.len() as int, k)) % 6 + 1
}

/// On every block that a draw can read, the three dice of a roll rotate the
/// block by offsets that differ modulo its length, and from twelve bytes on the
/// four bytes that each die reads lie apart from the others'.
pub proof fn lemma_dice_offsets_distinct(n: int)
    requires
        n >= DRAW_BYTES,
    ensures
        0 == die_offset(n, 0) < die_offset(n, 1) < die_offset(n, 2) < n,
        n >= 12 ==> die_offset(n, 0) + 4 <= die_offset(n, 1) && die_offset(n, 1) + 4
            <= die_offset(n, 2) && die_offset(n, 2) + 4 <= n,
{
}

/// The three faces of a roll.
pub open spec fn dice_of(seed: Seq<u8>) -> Seq<u8> {
    seq![die_face(seed, 0) as u8, die_face(seed, 1) as u8, die_face(seed, 2) as u8]
}

/// The number on which the wheel stops.
pub open spec fn wheel_of(seed: Seq<u8>) -> int {
    draw(seed, 0) % 37
}

/// The percentile of a threshold roll.
pub open spec fn percentile_of(seed: Seq<u8>) -> int {
    draw(seed, 0) % 100
}

/// Reducing the offset first does not move the byte that a rotation reads.
proof fn lemma_rotation_index(s: int, j: int, len: int)
    requires
        s >= 0,
        len > 0,
        0 <= j < len,
    ensures
        (s % len + j) % len == (s + j) % len,
{
    vstd::arithmetic::div_mod::lemma_add_mod_noop(s, j, len);
    vstd::arithmetic::div_mod::lemma_small_mod(j as nat, len as nat);
    vstd::arithmetic::div_mod::lemma_mod_twice(s, len);
    vstd::arithmetic::div_mod::lemma_add_mod_noop(s % len, j, len);
}

/// The index `(base + j) % n`, computed without overflow.
fn wrap_index(base: usize, j: usize, n: usize) -> (r: usize)
    requires
        base < n,
        j < n,
    ensures
        r == (base + j) % (n as int),
{
    if base >= n - j {
        let r = base - (n - j);
        assert((base + j) % (n as int) == r) by {
            vstd::arithmetic::div_mod::lemma_mod_add_multiples_vanish(r as int, n as int);
            vstd::arithmetic::div_mod::lemma_small_mod(r as nat, n as nat);
        }
        r
    } else {
        assert((base + j) % (n as int) == base + j) by {
            vstd::arithmetic::div_mod::lemma_small_mod((base + j) as nat, n as nat);
        }
        base + j
    }
}

/// The draw of `seed` at offset `shift_amount` (see `draw`).
pub fn get_random_number(seed: &Vec<u8>, shift_amount: u32) -> (r: u32)
    requires
        seed@.len() >= DRAW_BYTES,
    ensures
        r == draw(seed@, shift_amount as int),
{
    draw_at(seed, shift_amount as usize)
}

/// The draw of `seed` at offset `shift_amount`, for any offset that fits in a `usize`.
fn draw_at(seed: &Vec<u8>, shift_amount: usize) -> (r: u32)
    requires
        seed@.len() >= DRAW_BYTES,
    ensures
        r == draw(seed@, shift_amount as int),
{
    let n = seed.len();
    let base = shift_amount % n;
    let b0 = seed[wrap_index(base, 0, n)] as u32;
    let b1 = seed[wrap_index(base, 1, n)] as u32;
    let b2 = seed[wrap_index(base, 2, n)] as u32;
    let b3 = seed[wrap_index(base, 3, n)] as u32;
    proof {
        lemma_rotation_index(shift_amount as int, 0, n as int);
        lemma_rotation_index(shift_amount as int, 1, n as int);
        lemma_rotation_index(shift_amount as int, 2, n as int);
        lemma_rotation_index(shift_amount as int, 3, n as int);
    }
    b0 + 256 * b1 + 65536 * b2 + 16777216 * b3
}

/// Rolls three dice from `seed`, each from its own draw.
pub fn roll_dices(seed: &Vec<u8>) -> (r: Vec<u8>)
    requires
        seed@.len() >= DRAW_BYTES,
    ensures
        r@ == dice_of(seed@),
{
    let n = seed.len();
    let step = n / 3;
    let mut dices: Vec<u8> = Vec::new();
    let mut k: usize = 0;
    while k < 3
        invariant
            k <= 3,
            seed@.len() >= DRAW_BYTES,
            n == seed@.len(),
            step == n / 3,
            dices@.len() == k,
            forall|i: int| 0 <= i < k ==> dices@[i] == die_face(seed@, i) as u8,
        decreases 3 - k,
    {
        assert(k * step <= n) by {
            vstd::arithmetic::div_mod::lemma_fundamental_div_mod(n as int, 3);
            vstd::arithmetic::div_mod::lemma_mod_pos_bound(n as int, 3);
            assert(step * 3 <= n);
            if k == 0 {
                assert(k * step == 0);
            } else if k == 1 {
                assert(k * step == step);
            } else {
                assert(k * step == 2 * step);
            }
        }
        assert(k * step == die_offset(seed@.len() as int, k as int));
        let seed_num = draw_at(seed, k * step);
        dices.push((seed_num % 6 + 1) as u8);
        k = k + 1;
    }
    assert(dices@ =~= dice_of(seed@));
    dices
}

/// Spins the wheel from `seed`: a number in `0..=36`.
pub fn roulette_spin(seed: &Vec<u8>) -> (r: u8)
    requires
        seed@.len() >= DRAW_BYTES,
    ensures
        r == wheel_of(seed@),
        r <= 36,
{
    let seed_num = get_random_number(seed, 0);
    (seed_num % 37) as u8
}

/// Rolls a percentile from `seed`: a number in `0..=99`.
pub fn dice_100_roll(seed: &Vec<u8>) -> (r: u8)
    requires
        seed@.len() >= DRAW_BYTES,
    ensures
        r == percentile_of(seed@),
        r <= 99,
{
    let seed_num = get_random_number(seed, 0);
    (seed_num % 100) as u8
}

} // verus!
