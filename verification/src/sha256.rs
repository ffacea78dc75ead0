//! SHA-256.
use vstd::prelude::*;

verus! {

/// Bytes of a digest.
pub const DIGEST_SIZE: usize = 32;

/// Bytes of a message block.
pub const BLOCK_SIZE: usize = 64;

/// The round constants.
pub const K: [u32; 64] = [
    0x428a2f98, 0x71374491, 0xb5c0fbcf, 0xe9b5dba5,
    0x3956c25b, 0x59f111f1, 0x923f82a4, 0xab1c5ed5,
    0xd807aa98, 0x12835b01, 0x243185be, 0x550c7dc3,
    0x72be5d74, 0x80deb1fe, 0x9bdc06a7, 0xc19bf174,
    0xe49b69c1, 0xefbe4786, 0x0fc19dc6, 0x240ca1cc,
    0x2de92c6f, 0x4a7484aa, 0x5cb0a9dc, 0x76f988da,
    0x983e5152, 0xa831c66d, 0xb00327c8, 0xbf597fc7,
    0xc6e00bf3, 0xd5a79147, 0x06ca6351, 0x14292967,
    0x27b70a85, 0x2e1b2138, 0x4d2c6dfc, 0x53380d13,
    0x650a7354, 0x766a0abb, 0x81c2c92e, 0x92722c85,
    0xa2bfe8a1, 0xa81a664b, 0xc24b8b70, 0xc76c51a3,
    0xd192e819, 0xd6990624, 0xf40e3585, 0x106aa070,
    0x19a4c116, 0x1e376c08, 0x2748774c, 0x34b0bcb5,
    0x391c0cb3, 0x4ed8aa4a, 0x5b9cca4f, 0x682e6ff3,
    0x748f82ee, 0x78a5636f, 0x84c87814, 0x8cc70208,
    0x90befffa, 0xa4506ceb, 0xbef9a3f7, 0xc67178f2,
];

/// The eight words of the hash.
#[derive(Clone, Copy, PartialEq, Eq, Structural, Debug)]
pub struct HashState {
    pub a: u32,
    pub b: u32,
    pub c: u32,
    pub d: u32,
    pub e: u32,
    pub f: u32,
    pub g: u32,
    pub h: u32,
}

/// Addition of words.
pub open spec fn plus(x: u32, y: u32) -> u32 {
    ((x + y) % 0x1_0000_0000) as u32
}

/// Rotation of a word to the right.
pub open spec fn rotr(x: u32, n: u32) -> u32 {
    (x >> n) | (x << ((32 - n) as u32))
}

pub open spec fn big_sigma0(x: u32) -> u32 {
    rotr(x, 2) ^ rotr(x, 13) ^ rotr(x, 22)
}

pub open spec fn big_sigma1(x: u32) -> u32 {
    rotr(x, 6) ^ rotr(x, 11) ^ rotr(x, 25)
}

pub open spec fn small_sigma0(x: u32) -> u32 {
    rotr(x, 7) ^ rotr(x, 18) ^ (x >> 3)
}

pub open spec fn small_sigma1(x: u32) -> u32 {
    rotr(x, 17) ^ rotr(x, 19) ^ (x >> 10)
}

/// The choice function.
pub open spec fn choice(x: u32, y: u32, z: u32) -> u32 {
    (x & y) ^ (!x & z)
}

/// The majority function.
pub open spec fn majority(x: u32, y: u32, z: u32) -> u32 {
    (x & y) ^ (x & z) ^ (y & z)
}

/// The word that four bytes stand for, the most significant first.
pub open spec fn word_at(d: Seq<u8>, p: int) -> u32 {
    (d[p] * 0x100_0000 + d[p + 1] * 0x1_0000 + d[p + 2] * 0x100 + d[p + 3]) as u32
}

/// A word of the message schedule of a block.
pub open spec fn scheduled(block: Seq<u8>, t: int) -> u32
    decreases t,
{
    if t < 16 {
        word_at(block, 4 * t)
    } else {
        plus(
            plus(small_sigma1(scheduled(block, t - 2)), scheduled(block, t - 7)),
            plus(small_sigma0(scheduled(block, t - 15)), scheduled(block, t - 16)),
        )
    }
}

impl HashState {
    /// The initial hash.
    pub open spec fn initial() -> HashState {
        HashState {
            a: 0x6a09e667,
            b: 0xbb67ae85,
            c: 0x3c6ef372,
            d: 0xa54ff53a,
            e: 0x510e527f,
            f: 0x9b05688c,
            g: 0x1f83d9ab,
            h: 0x5be0cd19,
        }
    }

    /// One round.
    pub open spec fn round(self, k: u32, w: u32) -> HashState {
        let t1 = plus(
            plus(plus(self.h, big_sigma1(self.e)), choice(self.e, self.f, self.g)),
            plus(k, w),
        );
        let t2 = plus(big_sigma0(self.a), majority(self.a, self.b, self.c));
        HashState {
            a: plus(t1, t2),
            b: self.a,
            c: self.b,
            d: self.c,
            e: plus(self.d, t1),
            f: self.e,
            g: self.f,
            h: self.g,
        }
    }

    /// The first `n` rounds over a block.
    pub open spec fn rounds(self, block: Seq<u8>, n: int) -> HashState
        decreases n,
    {
        if n <= 0 {
            self
        } else {
            self.rounds(block, n - 1).round(K@[n - 1], scheduled(block, n - 1))
        }
    }

    /// The sum of two hashes, word by word.
    pub open spec fn sum(self, o: HashState) -> HashState {
        HashState {
            a: plus(self.a, o.a),
            b: plus(self.b, o.b),
            c: plus(self.c, o.c),
            d: plus(self.d, o.d),
            e: plus(self.e, o.e),
            f: plus(self.f, o.f),
            g: plus(self.g, o.g),
            h: plus(self.h, o.h),
        }
    }

    /// The hash after a block.
    pub open spec fn compressed(self, block: Seq<u8>) -> HashState {
        self.sum(self.rounds(block, 64))
    }

    /// The hash after the whole blocks of some data.
    pub open spec fn absorbed(self, data: Seq<u8>) -> HashState
        decreases data.len(),
    {
        if data.len() < BLOCK_SIZE {
            self
        } else {
            self.compressed(data.take(64)).absorbed(data.skip(64))
        }
    }

    /// The digest.
    pub open spec fn digest(self) -> Seq<u8> {
        word_bytes(self.a) + word_bytes(self.b) + word_bytes(self.c) + word_bytes(self.d)
            + word_bytes(self.e) + word_bytes(self.f) + word_bytes(self.g) + word_bytes(self.h)
    }
}

/// The bytes of a word, the most significant first.
pub open spec fn word_bytes(x: u32) -> Seq<u8> {
    seq![
        (x / 0x100_0000) as u8,
        (x / 0x1_0000 % 0x100) as u8,
        (x / 0x100 % 0x100) as u8,
        (x % 0x100) as u8,
    ]
}

/// The number of zero bytes that pad a message of some length.
pub open spec fn zeros_after(len: int) -> int {
    (119 - len % 64) % 64
}

/// What is appended to a message of some length: a bit, zeros, and the length in
/// bits.
pub open spec fn padding(len: int) -> Seq<u8> {
    seq![0x80u8] + Seq::new(zeros_after(len) as nat, |i: int| 0u8) + length_bytes(len)
}

/// A length in bits, as eight bytes.
#[verifier::opaque]
pub open spec fn length_bytes(len: int) -> Seq<u8> {
    let bits = (len * 8) % 0x1_0000_0000_0000_0000;
    word_bytes((bits / 0x1_0000_0000) as u32) + word_bytes((bits % 0x1_0000_0000) as u32)
}

/// The digest of what a state has taken in, followed by a tail, where the state
/// has taken in `before` bytes.
pub open spec fn finished(state: HashState, before: int, tail: Seq<u8>) -> Seq<u8> {
    state.absorbed(tail + padding(before + tail.len())).digest()
}

/// The SHA-256 digest of a message.
pub open spec fn sha256(message: Seq<u8>) -> Seq<u8> {
    finished(HashState::initial(), 0, message)
}

/// Addition of words.
fn add_words(x: u32, y: u32) -> (r: u32)
    ensures
        r == plus(x, y),
{
    x.wrapping_add(y)
}

impl HashState {
    /// The initial hash.
    pub fn new() -> (r: Self)
        ensures
            r == HashState::initial(),
    {
        HashState {
            a: 0x6a09e667,
            b: 0xbb67ae85,
            c: 0x3c6ef372,
            d: 0xa54ff53a,
            e: 0x510e527f,
            f: 0x9b05688c,
            g: 0x1f83d9ab,
            h: 0x5be0cd19,
        }
    }

    /// One round.
    fn step(self, k: u32, w: u32) -> (r: Self)
        ensures
            r == self.round(k, w),
    {
        let e = self.e;
        let a = self.a;
        let s1: u32 = ((e >> 6u32) | (e << 26u32)) ^ ((e >> 11u32) | (e << 21u32)) ^ ((e >> 25u32)
            | (e << 7u32));
        let ch: u32 = (e & self.f) ^ (!e & self.g);
        let t1: u32 = add_words(add_words(add_words(self.h, s1), ch), add_words(k, w));
        let s0: u32 = ((a >> 2u32) | (a << 30u32)) ^ ((a >> 13u32) | (a << 19u32)) ^ ((a >> 22u32)
            | (a << 10u32));
        let maj: u32 = (a & self.b) ^ (a & self.c) ^ (self.b & self.c);
        let t2: u32 = add_words(s0, maj);
        HashState {
            a: add_words(t1, t2),
            b: a,
            c: self.b,
            d: self.c,
            e: add_words(self.d, t1),
            f: e,
            g: self.f,
            h: self.g,
        }
    }

    /// The hash after the block that stands at a position of some data.
    pub fn compress(self, data: &[u8], at: usize) -> (r: Self)
        requires
            at + 64 <= data@.len(),
        ensures
            r == self.compressed(data@.subrange(at as int, at + 64)),
    {
        let ghost block = data@.subrange(at as int, at + 64);
        assert(data@.len() == data.len());
        let mut w: [u32; 64] = [0u32; 64];
        let mut t: usize = 0;
        while t < 16
            invariant
                t <= 16,
                at + 64 <= data@.len(),
                data@.len() <= usize::MAX,
                block == data@.subrange(at as int, at + 64),
                forall|j: int| 0 <= j < t ==> #[trigger] w@[j] == scheduled(block, j),
            decreases 16 - t,
        {
            let p: usize = at + 4 * t;
            assert(block[4 * t] == data@[p as int] && block[4 * t + 1] == data@[p + 1] && block[4
                * t + 2] == data@[p + 2] && block[4 * t + 3] == data@[p + 3]);
            w[t] = data[p] as u32 * 0x100_0000 + data[p + 1] as u32 * 0x1_0000 + data[p + 2] as u32
                * 0x100 + data[p + 3] as u32;
            t += 1;
        }
        while t < 64
            invariant
                16 <= t <= 64,
                forall|j: int| 0 <= j < t ==> #[trigger] w@[j] == scheduled(block, j),
            decreases 64 - t,
        {
            let x: u32 = w[t - 2];
            let y: u32 = w[t - 15];
            let s1: u32 = ((x >> 17u32) | (x << 15u32)) ^ ((x >> 19u32) | (x << 13u32)) ^ (x
                >> 10u32);
            let s0: u32 = ((y >> 7u32) | (y << 25u32)) ^ ((y >> 18u32) | (y << 14u32)) ^ (y
                >> 3u32);
            assert(w@[t - 7] == scheduled(block, t - 7) && w@[t - 16] == scheduled(block, t - 16));
            w[t] = add_words(add_words(s1, w[t - 7]), add_words(s0, w[t - 16]));
            t += 1;
        }
        let mut s = self;
        let mut n: usize = 0;
        while n < 64
            invariant
                n <= 64,
                forall|j: int| 0 <= j < 64 ==> #[trigger] w@[j] == scheduled(block, j),
                s == self.rounds(block, n as int),
            decreases 64 - n,
        {
            assert(w@[n as int] == scheduled(block, n as int));
            s = s.step(K[n], w[n]);
            n += 1;
        }
        HashState {
            a: add_words(self.a, s.a),
            b: add_words(self.b, s.b),
            c: add_words(self.c, s.c),
            d: add_words(self.d, s.d),
            e: add_words(self.e, s.e),
            f: add_words(self.f, s.f),
            g: add_words(self.g, s.g),
            h: add_words(self.h, s.h),
        }
    }

    /// The digest.
    fn to_bytes(self) -> (r: [u8; DIGEST_SIZE])
        ensures
            r@ == self.digest(),
    {
        let words: [u32; 8] = [
            self.a,
            self.b,
            self.c,
            self.d,
            self.e,
            self.f,
            self.g,
            self.h,
        ];
        let mut out: [u8; DIGEST_SIZE] = [0u8; DIGEST_SIZE];
        let mut i: usize = 0;
        while i < 8
            invariant
                i <= 8,
                forall|j: int| 0 <= j < 4 * i ==> #[trigger] out@[j] == word_bytes(words@[j / 4])[j
                    % 4],
            decreases 8 - i,
        {
            let x: u32 = words[i];
            out[4 * i] = (x / 0x100_0000) as u8;
            out[4 * i + 1] = (x / 0x1_0000 % 0x100) as u8;
            out[4 * i + 2] = (x / 0x100 % 0x100) as u8;
            out[4 * i + 3] = (x % 0x100) as u8;
            i += 1;
        }
        assert(out@ =~= self.digest());
        out
    }

    /// The digest of what the state has taken in, followed by a tail, where the
    /// state has taken in `before` bytes.
    pub fn finish(self, before: u64, tail: &[u8]) -> (r: [u8; DIGEST_SIZE])
        ensures
            r@ == finished(self, before as int, tail@),
    {
        let data = padded_tail(before, tail);
        let mut s = self;
        let mut at: usize = 0;
        assert(data@.skip(0) =~= data@);
        while data.len() - at >= 64
            invariant
                at <= data@.len(),
                self.absorbed(data@) == s.absorbed(data@.skip(at as int)),
            decreases data@.len() - at,
        {
            assert(data@.skip(at as int).take(64) =~= data@.subrange(at as int, at + 64));
            assert(data@.skip(at as int).skip(64) =~= data@.skip(at + 64));
            s = s.compress(data.as_slice(), at);
            at += 64;
        }
        s.to_bytes()
    }
}

/// Appends the bytes of a word, the most significant first.
fn push_word(data: &mut Vec<u8>, x: u32)
    ensures
        final(data)@ == old(data)@ + word_bytes(x),
{
    data.push((x / 0x100_0000) as u8);
    data.push((x / 0x1_0000 % 0x100) as u8);
    data.push((x / 0x100 % 0x100) as u8);
    data.push((x % 0x100) as u8);
    assert(data@ =~= old(data)@ + word_bytes(x));
}

/// A tail with its padding, behind `before` bytes.
fn padded_tail(before: u64, tail: &[u8]) -> (data: Vec<u8>)
    ensures
        data@ == tail@ + padding(before + tail@.len()),
{
    let ghost len = before + tail@.len();
    let mut data: Vec<u8> = vstd::slice::slice_to_vec(tail);
    data.push(0x80);
    assert(tail@.len() == tail.len());
    let rest: u64 = (before % 64 + tail.len() as u64 % 64) % 64;
    assert(rest == len % 64);
    let zeros: u64 = (119 - rest) % 64;
    let mut i: u64 = 0;
    while i < zeros
        invariant
            i <= zeros,
            data@ == tail@ + seq![0x80u8] + Seq::new(i as nat, |j: int| 0u8),
        decreases zeros - i,
    {
        data.push(0);
        i += 1;
        assert(data@ =~= tail@ + seq![0x80u8] + Seq::new(i as nat, |j: int| 0u8));
    }
    push_length(&mut data, before, tail.len() as u64);
    proof {
        let zs = Seq::new(zeros as nat, |j: int| 0u8);
        lemma_joined(tail@, seq![0x80u8], zs, length_bytes(len));
        assert(zs =~= Seq::new(zeros_after(len) as nat, |j: int| 0u8));
    }
    data
}

/// Appends a length in bits.
fn push_length(data: &mut Vec<u8>, before: u64, more: u64)
    ensures
        final(data)@ == old(data)@ + length_bytes(before + more),
{
    let bits: u64 = before.wrapping_add(more).wrapping_mul(8);
    proof {
        lemma_bits(before as int, more as int);
    }
    reveal(length_bytes);
    let ghost given = data@;
    let high: u32 = (bits / 0x1_0000_0000) as u32;
    let low: u32 = (bits % 0x1_0000_0000) as u32;
    push_word(data, high);
    push_word(data, low);
    proof {
        lemma_added(given, word_bytes(high), word_bytes(low));
    }
}

proof fn lemma_added(a: Seq<u8>, b: Seq<u8>, c: Seq<u8>)
    ensures
        a + b + c == a + (b + c),
{
    assert(a + b + c =~= a + (b + c));
}

proof fn lemma_joined(a: Seq<u8>, b: Seq<u8>, c: Seq<u8>, d: Seq<u8>)
    ensures
        a + b + c + d == a + (b + c + d),
{
    assert(a + b + c + d =~= a + (b + c + d));
}

proof fn lemma_bits(a: int, b: int)
    requires
        0 <= a <= u64::MAX,
        0 <= b <= u64::MAX,
    ensures
        (((a + b) % 0x1_0000_0000_0000_0000) * 8) % 0x1_0000_0000_0000_0000 == ((a + b) * 8)
            % 0x1_0000_0000_0000_0000,
{
    let m = 0x1_0000_0000_0000_0000int;
    let q = (a + b) / m;
    let r = (a + b) % m;
    assert((a + b) * 8 == q * 8 * m + r * 8);
    vstd::arithmetic::div_mod::lemma_mod_multiples_vanish(q * 8, r * 8, m);
    assert(m * (q * 8) + r * 8 == (a + b) * 8);
}

/// The SHA-256 digest of a message.
pub fn sha256_digest(message: &[u8]) -> (r: [u8; DIGEST_SIZE])
    ensures
        r@ == sha256(message@),
{
    HashState::new().finish(0, message)
}

/// Law: a padded message consists of whole blocks.
pub proof fn law_padding_fills_blocks(message: Seq<u8>)
    ensures
        (message + padding(message.len() as int)).len() % 64 == 0,
{
    let n = message.len() as int;
    lemma_padding_len(n);
    lemma_fill(n);
    assert((message + padding(n)).len() == n + padding(n).len());
}

proof fn lemma_fill(n: int)
    requires
        0 <= n,
    ensures
        (n + 9 + zeros_after(n)) % 64 == 0,
{
    let r = n % 64;
    assert((n + 9 + (119 - r) % 64) % 64 == 0);
}

proof fn lemma_length_bytes_len(len: int)
    ensures
        length_bytes(len).len() == 8,
{
    reveal(length_bytes);
}

proof fn lemma_padding_len(len: int)
    ensures
        padding(len).len() == 9 + zeros_after(len),
{
    lemma_length_bytes_len(len);
}

/// Law: a state that has taken in a whole block stands for it. The digest of a
/// block and a tail is the digest that the state after the block gives for the tail.
pub proof fn law_block_can_be_taken_in_first(block: Seq<u8>, tail: Seq<u8>)
    requires
        block.len() == 64,
    ensures
        sha256(block + tail) == finished(HashState::initial().compressed(block), 64, tail),
{
    let all = block + tail + padding(64int + tail.len());
    assert(block + tail + padding((block + tail).len() as int) =~= all);
    assert(all.take(64) =~= block);
    assert(all.skip(64) =~= tail + padding(64int + tail.len()));
}

} // verus!
