//! What the hash promises.
use crate::sha256::{
    big_sigma0, big_sigma1, choice, length_bytes, majority, padding, plus, rotr, scheduled, sha256, small_sigma0, small_sigma1, word_at, word_bytes,
    zeros_after, HashState, K,
};
use vstd::prelude::*;

verus! {

/// Whether a word has a bit.
pub open spec fn bit(x: u32, i: u32) -> bool {
    (x >> i) & 1 == 1
}

proof fn lemma_sum(x: u32, y: u32, a: int, b: int)
    requires
        x == a % 0x1_0000_0000,
        y == b % 0x1_0000_0000,
    ensures
        plus(x, y) == (a + b) % 0x1_0000_0000,
{
    vstd::arithmetic::div_mod::lemma_add_mod_noop(a, b, 0x1_0000_0000);
}

/// Law: words are added modulo two to the thirty-second power.
pub proof fn law_words_are_added_in_a_circle(x: u32, y: u32, z: u32)
    ensures
        plus(x, y) == plus(y, x),
        plus(plus(x, y), z) == plus(x, plus(y, z)),
        plus(x, 0) == x,
        x + y <= u32::MAX ==> plus(x, y) == x + y,
        x + y > u32::MAX ==> plus(x, y) + 0x1_0000_0000 == x + y,
{
    lemma_sum(x, y, x as int, y as int);
    lemma_sum(y, z, y as int, z as int);
    lemma_sum(plus(x, y), z, x + y, z as int);
    lemma_sum(x, plus(y, z), x as int, y + z);
}

/// Law: a rotation moves every bit down by its amount, those at the low end to the top.
pub proof fn law_rotations_move_bits_around(x: u32, n: u32, i: u32)
    requires
        0 < n < 32,
        i < 32,
    ensures
        bit(rotr(x, n), i) == bit(x, ((i + n) % 32) as u32),
{
    let up = (32 - n) as u32;
    let j = ((i + n) % 32) as u32;
    assert((((x >> n) | (x << up)) >> i) & 1 == (x >> j) & 1) by (bit_vector)
        requires
            0 < n < 32,
            i < 32,
            up == 32 - n,
            j == (i + n) % 32,
    ;
}

proof fn lemma_xor3(x: u32, y: u32, z: u32, i: u32)
    requires
        i < 32,
    ensures
        bit(x ^ y ^ z, i) == ((bit(x, i) != bit(y, i)) != bit(z, i)),
{
    assert(((x ^ y ^ z) >> i) & 1 == 1 <==> ((((x >> i) & 1 == 1) != ((y >> i) & 1 == 1)) != ((z
        >> i) & 1 == 1))) by (bit_vector)
        requires
            i < 32,
    ;
}

/// Law: the four mixing functions, bit by bit: each bit of the result is the exclusive or of
/// three bits of the word; the small ones shift instead of rotating once.
pub proof fn law_mixing_is_exclusive_or_of_three_bits(x: u32, i: u32)
    requires
        i < 32,
    ensures
        bit(big_sigma0(x), i) == ((bit(x, ((i + 2) % 32) as u32) != bit(
            x,
            ((i + 13) % 32) as u32,
        )) != bit(x, ((i + 22) % 32) as u32)),
        bit(big_sigma1(x), i) == ((bit(x, ((i + 6) % 32) as u32) != bit(
            x,
            ((i + 11) % 32) as u32,
        )) != bit(x, ((i + 25) % 32) as u32)),
        bit(small_sigma0(x), i) == ((bit(x, ((i + 7) % 32) as u32) != bit(
            x,
            ((i + 18) % 32) as u32,
        )) != (i < 29 && bit(x, (i + 3) as u32))),
        bit(small_sigma1(x), i) == ((bit(x, ((i + 17) % 32) as u32) != bit(
            x,
            ((i + 19) % 32) as u32,
        )) != (i < 22 && bit(x, (i + 10) as u32))),
{
    law_rotations_move_bits_around(x, 2, i);
    law_rotations_move_bits_around(x, 13, i);
    law_rotations_move_bits_around(x, 22, i);
    law_rotations_move_bits_around(x, 6, i);
    law_rotations_move_bits_around(x, 11, i);
    law_rotations_move_bits_around(x, 25, i);
    law_rotations_move_bits_around(x, 7, i);
    law_rotations_move_bits_around(x, 18, i);
    law_rotations_move_bits_around(x, 17, i);
    law_rotations_move_bits_around(x, 19, i);
    lemma_xor3(rotr(x, 2), rotr(x, 13), rotr(x, 22), i);
    lemma_xor3(rotr(x, 6), rotr(x, 11), rotr(x, 25), i);
    lemma_xor3(rotr(x, 7), rotr(x, 18), x >> 3, i);
    lemma_xor3(rotr(x, 17), rotr(x, 19), x >> 10, i);
    lemma_shifted(x, 3, i);
    lemma_shifted(x, 10, i);
}

proof fn lemma_shifted(x: u32, n: u32, i: u32)
    requires
        i < 32,
        n < 32,
    ensures
        bit(x >> n, i) == (i + n < 32 && bit(x, (i + n) as u32)),
{
    let j = (i + n) as u32;
    assert(((x >> n) >> i) & 1 == 1 <==> (j < 32 && (x >> j) & 1 == 1)) by (bit_vector)
        requires
            i < 32,
            n < 32,
            j == i + n,
    ;
}

/// Law: choice takes each bit from the second word where the first has it and from the third
/// where not; majority takes what two of three say.
pub proof fn law_choice_and_majority_go_bit_by_bit(x: u32, y: u32, z: u32, i: u32)
    requires
        i < 32,
    ensures
        bit(choice(x, y, z), i) == if bit(x, i) {
            bit(y, i)
        } else {
            bit(z, i)
        },
        bit(majority(x, y, z), i) == if bit(x, i) == bit(y, i) {
            bit(x, i)
        } else {
            bit(z, i)
        },
{
    assert(((((x & y) ^ (!x & z)) >> i) & 1 == 1) == (if (x >> i) & 1 == 1 {
        (y >> i) & 1 == 1
    } else {
        (z >> i) & 1 == 1
    })) by (bit_vector)
        requires
            i < 32,
    ;
    assert(((((x & y) ^ (x & z) ^ (y & z)) >> i) & 1 == 1) == (if ((x >> i) & 1 == 1) == ((y >> i)
        & 1 == 1) {
        (x >> i) & 1 == 1
    } else {
        (z >> i) & 1 == 1
    })) by (bit_vector)
        requires
            i < 32,
    ;
}

/// Law: words are written with their high byte first, and read back as they were written.
pub proof fn law_words_read_back(x: u32)
    ensures
        word_bytes(x).len() == 4,
        word_bytes(x)[0] * 0x100_0000 + word_bytes(x)[1] * 0x1_0000 + word_bytes(x)[2] * 0x100
            + word_bytes(x)[3] == x,
        word_at(word_bytes(x), 0) == x,
{
}

/// Law: the first sixteen words of a block are its bytes.
pub proof fn law_the_schedule_begins_with_the_block(block: Seq<u8>, t: int)
    requires
        block.len() == 64,
        0 <= t < 16,
    ensures
        word_bytes(scheduled(block, t)) == block.subrange(4 * t, 4 * t + 4),
{
    lemma_bytes(block[4 * t], block[4 * t + 1], block[4 * t + 2], block[4 * t + 3]);
    assert(word_bytes(scheduled(block, t)) =~= block.subrange(4 * t, 4 * t + 4));
}

proof fn lemma_bytes(a: u8, b: u8, c: u8, d: u8)
    ensures
        ({
            let w = (a * 0x100_0000 + b * 0x1_0000 + c * 0x100 + d) as u32;
            word_bytes(w) == seq![a, b, c, d]
        }),
{
    let w = (a * 0x100_0000 + b * 0x1_0000 + c * 0x100 + d) as u32;
    assert(w / 0x100_0000 == a);
    assert(w / 0x1_0000 == a * 0x100 + b);
    assert(w / 0x100 == a * 0x1_0000 + b * 0x100 + c);
    assert(word_bytes(w) =~= seq![a, b, c, d]);
}

/// Law: each later word of the schedule adds up the words two, seven, fifteen and sixteen
/// before it, the first and the third of them mixed.
pub proof fn law_the_schedule_goes_on_by_mixing(block: Seq<u8>, t: int)
    requires
        16 <= t < 64,
    ensures
        scheduled(block, t) == (small_sigma1(scheduled(block, t - 2)) + scheduled(block, t - 7)
            + small_sigma0(scheduled(block, t - 15)) + scheduled(block, t - 16)) % 0x1_0000_0000,
{
    let a = small_sigma1(scheduled(block, t - 2));
    let b = scheduled(block, t - 7);
    let c = small_sigma0(scheduled(block, t - 15));
    let d = scheduled(block, t - 16);
    lemma_sum(a, b, a as int, b as int);
    lemma_sum(c, d, c as int, d as int);
    lemma_sum(plus(a, b), plus(c, d), a + b, c + d);
    assert(scheduled(block, t) == plus(plus(a, b), plus(c, d)));
}

/// Law: a round hands six words on to the next place. The new fifth word adds up the fourth and
/// the last word, the mixed fifth with its choice, the key and the scheduled word; the new first
/// word adds up the same but for the fourth, and the mixed first with its majority.
pub proof fn law_a_round_makes_two_new_words(s: HashState, k: u32, w: u32)
    ensures
        ({
            let r = s.round(k, w);
            let taken = s.h + big_sigma1(s.e) + choice(s.e, s.f, s.g) + k + w;
            &&& r.b == s.a && r.c == s.b && r.d == s.c
            &&& r.f == s.e && r.g == s.f && r.h == s.g
            &&& r.e == (s.d + taken) % 0x1_0000_0000
            &&& r.a == (taken + big_sigma0(s.a) + majority(s.a, s.b, s.c)) % 0x1_0000_0000
        }),
{
    let m = big_sigma1(s.e);
    let c = choice(s.e, s.f, s.g);
    let n = big_sigma0(s.a);
    let j = majority(s.a, s.b, s.c);
    lemma_sum(s.h, m, s.h as int, m as int);
    lemma_sum(plus(s.h, m), c, s.h + m, c as int);
    lemma_sum(k, w, k as int, w as int);
    let t1 = plus(plus(plus(s.h, m), c), plus(k, w));
    lemma_sum(plus(plus(s.h, m), c), plus(k, w), s.h + m + c, k + w);
    let t2 = plus(n, j);
    lemma_sum(n, j, n as int, j as int);
    let taken = s.h + m + c + k + w;
    assert(t1 == taken % 0x1_0000_0000);
    lemma_sum(t1, t2, taken, n + j);
    lemma_sum(s.d, t1, s.d as int, taken);
    let r = s.round(k, w);
    assert(r.e == plus(s.d, t1));
    assert(r.a == plus(t1, t2));
}

/// Whether a word is the first thirty-two bits behind the point of the square root of a prime.
pub open spec fn is_square_root_of(word: u32, p: int) -> bool {
    let whole: int = if p < 4 {
        1
    } else if p < 9 {
        2
    } else if p < 16 {
        3
    } else {
        4
    };
    let r = whole * 0x1_0000_0000 + word;
    r * r <= p * 0x1_0000_0000_0000_0000 < (r + 1) * (r + 1)
}

/// Law: the hash starts from the square roots of the first eight primes.
pub proof fn law_the_start_is_made_of_square_roots()
    ensures
        is_square_root_of(HashState::initial().a, 2),
        is_square_root_of(HashState::initial().b, 3),
        is_square_root_of(HashState::initial().c, 5),
        is_square_root_of(HashState::initial().d, 7),
        is_square_root_of(HashState::initial().e, 11),
        is_square_root_of(HashState::initial().f, 13),
        is_square_root_of(HashState::initial().g, 17),
        is_square_root_of(HashState::initial().h, 19),
{
    assert(is_square_root_of(0x6a09e667, 2)) by (nonlinear_arith);
    assert(is_square_root_of(0xbb67ae85, 3)) by (nonlinear_arith);
    assert(is_square_root_of(0x3c6ef372, 5)) by (nonlinear_arith);
    assert(is_square_root_of(0xa54ff53a, 7)) by (nonlinear_arith);
    assert(is_square_root_of(0x510e527f, 11)) by (nonlinear_arith);
    assert(is_square_root_of(0x9b05688c, 13)) by (nonlinear_arith);
    assert(is_square_root_of(0x1f83d9ab, 17)) by (nonlinear_arith);
    assert(is_square_root_of(0x5be0cd19, 19)) by (nonlinear_arith);
}

/// Whether a word is the first thirty-two bits behind the point of the cube root of a prime.
pub open spec fn is_cube_root_of(word: u32, p: int) -> bool {
    let whole: int = if p < 8 {
        1
    } else if p < 27 {
        2
    } else if p < 64 {
        3
    } else if p < 125 {
        4
    } else if p < 216 {
        5
    } else {
        6
    };
    let r = whole * 0x1_0000_0000 + word;
    r * r * r <= p * 0x1_0000_0000_0000_0000_0000_0000 < (r + 1) * (r + 1) * (r + 1)
}

/// Law: the keys of the rounds are the cube roots of the first sixty-four primes.
pub proof fn law_round_keys_are_cube_roots()
    ensures
        is_cube_root_of(K@[0], 2),
        is_cube_root_of(K@[1], 3),
        is_cube_root_of(K@[2], 5),
        is_cube_root_of(K@[3], 7),
        is_cube_root_of(K@[4], 11),
        is_cube_root_of(K@[5], 13),
        is_cube_root_of(K@[6], 17),
        is_cube_root_of(K@[7], 19),
        is_cube_root_of(K@[8], 23),
        is_cube_root_of(K@[9], 29),
        is_cube_root_of(K@[10], 31),
        is_cube_root_of(K@[11], 37),
        is_cube_root_of(K@[12], 41),
        is_cube_root_of(K@[13], 43),
        is_cube_root_of(K@[14], 47),
        is_cube_root_of(K@[15], 53),
        is_cube_root_of(K@[16], 59),
        is_cube_root_of(K@[17], 61),
        is_cube_root_of(K@[18], 67),
        is_cube_root_of(K@[19], 71),
        is_cube_root_of(K@[20], 73),
        is_cube_root_of(K@[21], 79),
        is_cube_root_of(K@[22], 83),
        is_cube_root_of(K@[23], 89),
        is_cube_root_of(K@[24], 97),
        is_cube_root_of(K@[25], 101),
        is_cube_root_of(K@[26], 103),
        is_cube_root_of(K@[27], 107),
        is_cube_root_of(K@[28], 109),
        is_cube_root_of(K@[29], 113),
        is_cube_root_of(K@[30], 127),
        is_cube_root_of(K@[31], 131),
        is_cube_root_of(K@[32], 137),
        is_cube_root_of(K@[33], 139),
        is_cube_root_of(K@[34], 149),
        is_cube_root_of(K@[35], 151),
        is_cube_root_of(K@[36], 157),
        is_cube_root_of(K@[37], 163),
        is_cube_root_of(K@[38], 167),
        is_cube_root_of(K@[39], 173),
        is_cube_root_of(K@[40], 179),
        is_cube_root_of(K@[41], 181),
        is_cube_root_of(K@[42], 191),
        is_cube_root_of(K@[43], 193),
        is_cube_root_of(K@[44], 197),
        is_cube_root_of(K@[45], 199),
        is_cube_root_of(K@[46], 211),
        is_cube_root_of(K@[47], 223),
        is_cube_root_of(K@[48], 227),
        is_cube_root_of(K@[49], 229),
        is_cube_root_of(K@[50], 233),
        is_cube_root_of(K@[51], 239),
        is_cube_root_of(K@[52], 241),
        is_cube_root_of(K@[53], 251),
        is_cube_root_of(K@[54], 257),
        is_cube_root_of(K@[55], 263),
        is_cube_root_of(K@[56], 269),
        is_cube_root_of(K@[57], 271),
        is_cube_root_of(K@[58], 277),
        is_cube_root_of(K@[59], 281),
        is_cube_root_of(K@[60], 283),
        is_cube_root_of(K@[61], 293),
        is_cube_root_of(K@[62], 307),
        is_cube_root_of(K@[63], 311),
{
    assert(is_cube_root_of(0x428a2f98, 2)) by (nonlinear_arith);
    assert(is_cube_root_of(0x71374491, 3)) by (nonlinear_arith);
    assert(is_cube_root_of(0xb5c0fbcf, 5)) by (nonlinear_arith);
    assert(is_cube_root_of(0xe9b5dba5, 7)) by (nonlinear_arith);
    assert(is_cube_root_of(0x3956c25b, 11)) by (nonlinear_arith);
    assert(is_cube_root_of(0x59f111f1, 13)) by (nonlinear_arith);
    assert(is_cube_root_of(0x923f82a4, 17)) by (nonlinear_arith);
    assert(is_cube_root_of(0xab1c5ed5, 19)) by (nonlinear_arith);
    assert(is_cube_root_of(0xd807aa98, 23)) by (nonlinear_arith);
    assert(is_cube_root_of(0x12835b01, 29)) by (nonlinear_arith);
    assert(is_cube_root_of(0x243185be, 31)) by (nonlinear_arith);
    assert(is_cube_root_of(0x550c7dc3, 37)) by (nonlinear_arith);
    assert(is_cube_root_of(0x72be5d74, 41)) by (nonlinear_arith);
    assert(is_cube_root_of(0x80deb1fe, 43)) by (nonlinear_arith);
    assert(is_cube_root_of(0x9bdc06a7, 47)) by (nonlinear_arith);
    assert(is_cube_root_of(0xc19bf174, 53)) by (nonlinear_arith);
    assert(is_cube_root_of(0xe49b69c1, 59)) by (nonlinear_arith);
    assert(is_cube_root_of(0xefbe4786, 61)) by (nonlinear_arith);
    assert(is_cube_root_of(0x0fc19dc6, 67)) by (nonlinear_arith);
    assert(is_cube_root_of(0x240ca1cc, 71)) by (nonlinear_arith);
    assert(is_cube_root_of(0x2de92c6f, 73)) by (nonlinear_arith);
    assert(is_cube_root_of(0x4a7484aa, 79)) by (nonlinear_arith);
    assert(is_cube_root_of(0x5cb0a9dc, 83)) by (nonlinear_arith);
    assert(is_cube_root_of(0x76f988da, 89)) by (nonlinear_arith);
    assert(is_cube_root_of(0x983e5152, 97)) by (nonlinear_arith);
    assert(is_cube_root_of(0xa831c66d, 101)) by (nonlinear_arith);
    assert(is_cube_root_of(0xb00327c8, 103)) by (nonlinear_arith);
    assert(is_cube_root_of(0xbf597fc7, 107)) by (nonlinear_arith);
    assert(is_cube_root_of(0xc6e00bf3, 109)) by (nonlinear_arith);
    assert(is_cube_root_of(0xd5a79147, 113)) by (nonlinear_arith);
    assert(is_cube_root_of(0x06ca6351, 127)) by (nonlinear_arith);
    assert(is_cube_root_of(0x14292967, 131)) by (nonlinear_arith);
    assert(is_cube_root_of(0x27b70a85, 137)) by (nonlinear_arith);
    assert(is_cube_root_of(0x2e1b2138, 139)) by (nonlinear_arith);
    assert(is_cube_root_of(0x4d2c6dfc, 149)) by (nonlinear_arith);
    assert(is_cube_root_of(0x53380d13, 151)) by (nonlinear_arith);
    assert(is_cube_root_of(0x650a7354, 157)) by (nonlinear_arith);
    assert(is_cube_root_of(0x766a0abb, 163)) by (nonlinear_arith);
    assert(is_cube_root_of(0x81c2c92e, 167)) by (nonlinear_arith);
    assert(is_cube_root_of(0x92722c85, 173)) by (nonlinear_arith);
    assert(is_cube_root_of(0xa2bfe8a1, 179)) by (nonlinear_arith);
    assert(is_cube_root_of(0xa81a664b, 181)) by (nonlinear_arith);
    assert(is_cube_root_of(0xc24b8b70, 191)) by (nonlinear_arith);
    assert(is_cube_root_of(0xc76c51a3, 193)) by (nonlinear_arith);
    assert(is_cube_root_of(0xd192e819, 197)) by (nonlinear_arith);
    assert(is_cube_root_of(0xd6990624, 199)) by (nonlinear_arith);
    assert(is_cube_root_of(0xf40e3585, 211)) by (nonlinear_arith);
    assert(is_cube_root_of(0x106aa070, 223)) by (nonlinear_arith);
    assert(is_cube_root_of(0x19a4c116, 227)) by (nonlinear_arith);
    assert(is_cube_root_of(0x1e376c08, 229)) by (nonlinear_arith);
    assert(is_cube_root_of(0x2748774c, 233)) by (nonlinear_arith);
    assert(is_cube_root_of(0x34b0bcb5, 239)) by (nonlinear_arith);
    assert(is_cube_root_of(0x391c0cb3, 241)) by (nonlinear_arith);
    assert(is_cube_root_of(0x4ed8aa4a, 251)) by (nonlinear_arith);
    assert(is_cube_root_of(0x5b9cca4f, 257)) by (nonlinear_arith);
    assert(is_cube_root_of(0x682e6ff3, 263)) by (nonlinear_arith);
    assert(is_cube_root_of(0x748f82ee, 269)) by (nonlinear_arith);
    assert(is_cube_root_of(0x78a5636f, 271)) by (nonlinear_arith);
    assert(is_cube_root_of(0x84c87814, 277)) by (nonlinear_arith);
    assert(is_cube_root_of(0x8cc70208, 281)) by (nonlinear_arith);
    assert(is_cube_root_of(0x90befffa, 283)) by (nonlinear_arith);
    assert(is_cube_root_of(0xa4506ceb, 293)) by (nonlinear_arith);
    assert(is_cube_root_of(0xbef9a3f7, 307)) by (nonlinear_arith);
    assert(is_cube_root_of(0xc67178f2, 311)) by (nonlinear_arith);
}

/// Law: a block is taken in by sixty-four rounds, each with its key and its scheduled word, and
/// by adding what was before.
pub proof fn law_a_block_is_taken_in_by_rounds(s: HashState, block: Seq<u8>, n: int)
    requires
        0 <= n < 64,
    ensures
        s.rounds(block, 0) == s,
        s.rounds(block, n + 1) == s.rounds(block, n).round(K@[n], scheduled(block, n)),
        ({
            let last = s.rounds(block, 64);
            let r = s.compressed(block);
            &&& r.a == plus(s.a, last.a) && r.b == plus(s.b, last.b)
            &&& r.c == plus(s.c, last.c) && r.d == plus(s.d, last.d)
            &&& r.e == plus(s.e, last.e) && r.f == plus(s.f, last.f)
            &&& r.g == plus(s.g, last.g) && r.h == plus(s.h, last.h)
        }),
{
}

/// Law: blocks are taken in one after the other; what is less than a block is not.
pub proof fn law_blocks_are_taken_in_in_order(s: HashState, block: Seq<u8>, rest: Seq<u8>)
    requires
        block.len() == 64,
    ensures
        s.absorbed(block + rest) == s.compressed(block).absorbed(rest),
        rest.len() < 64 ==> s.absorbed(rest) == s,
{
    assert((block + rest).take(64) =~= block);
    assert((block + rest).skip(64) =~= rest);
}

/// Law: a message is closed by one bit, zeros, and its length in bits as eight bytes, so that
/// whole blocks come out and as few as can be.
pub proof fn law_messages_are_closed_with_their_length(len: int)
    requires
        0 <= len < 0x2000_0000_0000_0000,
    ensures
        ({
            let p = padding(len);
            let n = p.len() as int;
            &&& 9 <= n < 9 + 64
            &&& (len + n) % 64 == 0
            &&& p[0] == 0x80
            &&& forall|i: int| 1 <= i < n - 8 ==> #[trigger] p[i] == 0
            &&& word_at(p, n - 8) * 0x1_0000_0000 + word_at(p, n - 4) == len * 8
        }),
{
    reveal(length_bytes);
    let p = padding(len);
    let n = p.len() as int;
    let bits = len * 8;
    let high = (bits / 0x1_0000_0000) as u32;
    let low = (bits % 0x1_0000_0000) as u32;
    let front = seq![0x80u8] + Seq::new(zeros_after(len) as nat, |i: int| 0u8);
    assert(bits % 0x1_0000_0000_0000_0000 == bits);
    assert(p =~= front + word_bytes(high) + word_bytes(low));
    lemma_word_in(front, high, word_bytes(low));
    lemma_word_in(front + word_bytes(high), low, Seq::empty());
    assert(p =~= front + word_bytes(high) + word_bytes(low) + Seq::<u8>::empty());
    assert(n == front.len() + 8);
    lemma_zeros_fill(len);
}

proof fn lemma_zeros_fill(len: int)
    requires
        0 <= len,
    ensures
        0 <= zeros_after(len) < 64,
        (len + 9 + zeros_after(len)) % 64 == 0,
{
}

proof fn lemma_word_in(a: Seq<u8>, x: u32, b: Seq<u8>)
    ensures
        word_at(a + word_bytes(x) + b, a.len() as int) == x,
{
    let all = a + word_bytes(x) + b;
    let n = a.len() as int;
    assert(all[n] == word_bytes(x)[0]);
    assert(all[n + 1] == word_bytes(x)[1]);
    assert(all[n + 2] == word_bytes(x)[2]);
    assert(all[n + 3] == word_bytes(x)[3]);
    law_words_read_back(x);
}

/// Law: a digest is the eight words behind the closed message, in order, high byte first.
pub proof fn law_a_digest_is_eight_words(message: Seq<u8>, i: int)
    requires
        0 <= i < 8,
    ensures
        sha256(message).len() == 32,
        ({
            let s = HashState::initial().absorbed(message + padding(message.len() as int));
            let words = seq![s.a, s.b, s.c, s.d, s.e, s.f, s.g, s.h];
            sha256(message).subrange(4 * i, 4 * i + 4) == word_bytes(words[i])
        }),
{
    let s = HashState::initial().absorbed(message + padding(message.len() as int));
    let words = seq![s.a, s.b, s.c, s.d, s.e, s.f, s.g, s.h];
    assert(sha256(message) == s.digest());
    assert(i == 0 || i == 1 || i == 2 || i == 3 || i == 4 || i == 5 || i == 6 || i == 7);
    assert(sha256(message).subrange(4 * i, 4 * i + 4) =~= word_bytes(words[i]));
}

} // verus!
