//! Deterministic expansion of seeds: the public matrix A, per-entry seeds,
//! and the noise sampler.

use vstd::prelude::*;

use crate::kem::Frodo;
use crate::matrix::{le_to_i16s, Matrix};
use crate::{L, N, SEED_LENGTH, SIGMA};

verus! {

/// The first `len` bytes of the SHAKE128 output stream over `input`.
pub uninterp spec fn shake128_output(input: Seq<u8>, len: nat) -> Seq<u8>;

/// The first `count` words that the standard generator seeded with `seed`
/// produces.
pub uninterp spec fn std_rng_output(seed: Seq<u8>, count: nat) -> Seq<u64>;

/// Relies on sha3's `Shake128` (`Update::update`, `finalize_xof`,
/// `XofReader::read`): the first `out_len` bytes of the extendable output
/// over `input`.
#[verifier::external_body]
fn shake128(input: &[u8], out_len: usize) -> (r: Vec<u8>)
    ensures
        r@ == shake128_output(input@, out_len as nat),
        r@.len() == out_len,
{
    let mut hasher = sha3::Shake128::default();
    sha3::digest::Update::update(&mut hasher, input);
    let mut reader = sha3::digest::ExtendableOutput::finalize_xof(hasher);
    let mut out = vec![0u8; out_len];
    sha3::digest::XofReader::read(&mut reader, &mut out);
    out
}

/// Relies on rand's `StdRng::from_seed` and `Rng::gen::<u64>` (which is
/// `next_u64`): the first `count` words of the generator seeded with `seed`.
/// `Rng::gen::<f64>` reads one such word and keeps its top 53 bits.
#[verifier::external_body]
fn std_rng_words(seed: &[u8], count: usize) -> (r: Vec<u64>)
    requires
        seed@.len() == 32,
    ensures
        r@ == std_rng_output(seed@, count as nat),
        r@.len() == count,
{
    let seed: [u8; 32] = seed.try_into().unwrap();
    let mut rng = <rand::rngs::StdRng as rand::SeedableRng>::from_seed(seed);
    (0..count).map(|_| rand::Rng::gen::<u64>(&mut rng)).collect()
}

/// The little-endian bytes of `n`.
pub open spec fn u64_le(n: u64) -> Seq<u8> {
    Seq::new(8, |i: int| ((n >> ((8 * i) as u64)) & 255u64) as u8)
}

/// The per-entry seed: SHAKE128 over `base` followed by the little-endian
/// nonce, cut to a seed's length.
pub open spec fn derived_seed(base: Seq<u8>, nonce: u64) -> Seq<u8> {
    shake128_output(base + u64_le(nonce), SEED_LENGTH as nat)
}

/// The public matrix A expanded from `seed`: N*N little-endian signed
/// 16-bit values read from the SHAKE128 stream over the seed.
pub open spec fn expanded_a(seed: Seq<u8>) -> Seq<i16> {
    le_to_i16s(shake128_output(seed, (N * N * 2) as nat), (N * N) as nat)
}

/// The top 53 bits of a generator word, the numerator of the uniform value
/// in [0, 1) that the word stands for (its denominator is 2^53).
pub open spec fn uniform_numerator(x: u64) -> int {
    x as int / 2048
}

/// Whether the uniform value of word `x` lies below the threshold
/// p = 1/2 + sqrt(1/2 - SIGMA / (2L + 1)), compared exactly: with
/// u = f / 2^53 and d = 2f - 2^53, u < p holds when d < 0, and otherwise
/// when d^2 / 2^108 < (2L + 1 - 2 SIGMA) / (2 (2L + 1)).
pub open spec fn draw_below_threshold(x: u64) -> bool {
    let d = 2 * uniform_numerator(x) - 9007199254740992;
    let num = 2 * L + 1 - 2 * SIGMA;
    let den = 2 * (2 * L + 1);
    d < 0 || d * d * den < num * 324518553658426726783156020576256
}

/// How many of the words lie below the threshold.
pub open spec fn count_below(draws: Seq<u64>) -> nat
    decreases draws.len(),
{
    if draws.len() == 0 {
        0
    } else {
        count_below(draws.drop_last()) + if draw_below_threshold(draws.last()) {
            1nat
        } else {
            0nat
        }
    }
}

/// The noise value that a run of draws gives: the count below the
/// threshold, less L.
pub open spec fn noise_from_draws(draws: Seq<u64>) -> int {
    count_below(draws) - L
}

/// The noise entry for `seed` at position `nonce`.
pub open spec fn noise_entry(seed: Seq<u8>, nonce: u64) -> int {
    noise_from_draws(std_rng_output(derived_seed(seed, nonce), (2 * L + 1) as nat))
}

/// The first `count` noise values from nonce `start` on.
pub open spec fn noise_entries(seed: Seq<u8>, start: u64, count: nat) -> Seq<i16> {
    Seq::new(count, |k: int| noise_entry(seed, (start + k) as u64) as i16)
}

/// Every word lies below the threshold: the threshold exceeds 1 for these
/// parameters, and every uniform value lies below 1.
pub proof fn lemma_every_draw_below_threshold(x: u64)
    ensures
        draw_below_threshold(x),
{
    let f = uniform_numerator(x);
    assert(0 <= f < 9007199254740992);
    let d = 2 * f - 9007199254740992;
    if d >= 0 {
        assert(d * d <= 9007199254740992 * 9007199254740992) by (nonlinear_arith)
            requires
                0 <= d < 9007199254740992,
        ;
        assert(d * d * 10 < 3 * 324518553658426726783156020576256) by (nonlinear_arith)
            requires
                d * d <= 9007199254740992 * 9007199254740992,
        ;
    }
}

/// A run of draws gives a noise value between -L and its length less L.
pub proof fn lemma_noise_bounds(draws: Seq<u64>)
    ensures
        -L <= noise_from_draws(draws) <= draws.len() - L,
    decreases draws.len(),
{
    if draws.len() > 0 {
        lemma_noise_bounds(draws.drop_last());
    }
}

/// Since every draw lies below the threshold, a run of draws gives its
/// length less L.
pub proof fn lemma_noise_is_count(draws: Seq<u64>)
    ensures
        noise_from_draws(draws) == draws.len() - L,
    decreases draws.len(),
{
    if draws.len() > 0 {
        lemma_every_draw_below_threshold(draws.last());
        lemma_noise_is_count(draws.drop_last());
    }
}

/// Expanding a seed is deterministic: equal seeds give equal matrices.
pub proof fn lemma_expand_a_deterministic(seed1: Seq<u8>, seed2: Seq<u8>)
    requires
        seed1 == seed2,
    ensures
        expanded_a(seed1) == expanded_a(seed2),
{
}

/// Whether the uniform value of word `x` lies below the noise threshold.
pub fn below_threshold(x: u64) -> (r: bool)
    ensures
        r == draw_below_threshold(x),
{
    let f: u128 = (x / 2048) as u128;
    let half: u128 = 9007199254740992;
    if 2 * f < half {
        true
    } else {
        let d: u128 = 2 * f - half;
        let num: u128 = (2 * L as u64 + 1 - 2 * SIGMA) as u128;
        let den: u128 = (2 * (2 * L as u64 + 1)) as u128;
        assert(num == 3 && den == 10);
        assert(d * d * 10 < 3 * 324518553658426726783156020576256) by (nonlinear_arith)
            requires
                d < 9007199254740992,
        ;
        d * d * den < num * 324518553658426726783156020576256
    }
}

/// The noise value of a run of 2L + 1 generator words: how many lie below
/// the threshold, less L.
pub fn noise_of_draws(draws: &Vec<u64>) -> (r: i16)
    requires
        draws@.len() == 2 * L + 1,
    ensures
        r as int == noise_from_draws(draws@),
{
    let mut count: i16 = 0;
    let mut k: usize = 0;
    while k < draws.len()
        invariant
            k <= draws@.len(),
            draws@.len() == 2 * L + 1,
            count as int == count_below(draws@.take(k as int)),
        decreases draws@.len() - k,
    {
        proof {
            lemma_noise_bounds(draws@.take(k as int));
            assert(draws@.take(k as int + 1).drop_last() =~= draws@.take(k as int));
        }
        if below_threshold(draws[k]) {
            count = count + 1;
        }
        k = k + 1;
    }
    assert(draws@.take(draws@.len() as int) =~= draws@);
    count - L
}

/// A vector holding the bytes of `src`.
pub(crate) fn copy_bytes(src: &[u8]) -> (r: Vec<u8>)
    ensures
        r@ == src@,
{
    let mut out: Vec<u8> = Vec::new();
    let mut k: usize = 0;
    while k < src.len()
        invariant
            k <= src@.len(),
            out@ == src@.take(k as int),
        decreases src@.len() - k,
    {
        out.push(src[k]);
        assert(out@ =~= src@.take(k as int + 1));
        k = k + 1;
    }
    assert(src@.take(src@.len() as int) =~= src@);
    out
}

/// The per-entry seed: SHAKE128 over `base_seed` followed by the eight
/// little-endian bytes of `nonce`, cut to 32 bytes.
pub fn derive_seed(base_seed: &[u8], nonce: u64) -> (r: Vec<u8>)
    requires
        base_seed@.len() + 8 <= usize::MAX,
    ensures
        r@ == derived_seed(base_seed@, nonce),
        r@.len() == SEED_LENGTH,
{
    let mut input = copy_bytes(base_seed);
    let mut i: u64 = 0;
    while i < 8
        invariant
            i <= 8,
            input@ == base_seed@ + u64_le(nonce).take(i as int),
        decreases 8 - i,
    {
        input.push(((nonce >> (8 * i)) & 255) as u8);
        assert(input@ =~= base_seed@ + u64_le(nonce).take(i as int + 1));
        i = i + 1;
    }
    assert(u64_le(nonce).take(8) =~= u64_le(nonce));
    shake128(input.as_slice(), SEED_LENGTH)
}

impl Frodo {
    /// The public matrix A, N x N, expanded from `seed`: the SHAKE128 stream
    /// over the seed read as little-endian signed 16-bit values, row-major.
    pub fn generate_a(&self, seed: &[u8]) -> (m: Matrix)
        ensures
            m.has_shape(N as nat, N as nat),
            m.entries() == expanded_a(seed@),
    {
        let bytes = shake128(seed, N * N * 2);
        let m = Matrix::read_at(bytes.as_slice(), 0, N, N);
        assert(bytes@.skip(0) =~= bytes@);
        m
    }

    /// One noise value: the generator seeded with the per-entry seed of
    /// (`seed`, `nonce`) draws 2L + 1 uniform values; the result is how many
    /// lie below the threshold, less L. With these parameters every draw
    /// lies below it, so the result is always L + 1.
    pub fn sample_gaussian(&self, seed: &[u8], nonce: u64) -> (r: i16)
        requires
            seed@.len() + 8 <= usize::MAX,
        ensures
            r as int == noise_entry(seed@, nonce),
            r == L + 1,
    {
        let entry_seed = derive_seed(seed, nonce);
        let draws = std_rng_words(entry_seed.as_slice(), (2 * L + 1) as usize);
        proof {
            lemma_noise_is_count(draws@);
        }
        noise_of_draws(&draws)
    }

    /// A `rows` x `cols` noise matrix: the entry at row-major position k is
    /// the noise value at nonce `start_nonce + k`.
    pub fn generate_noise(&self, rows: usize, cols: usize, seed: &[u8], start_nonce: u64) -> (m: Matrix)
        requires
            rows * cols <= usize::MAX,
            start_nonce + rows * cols <= u64::MAX,
            seed@.len() + 8 <= usize::MAX,
        ensures
            m.has_shape(rows as nat, cols as nat),
            m.entries() == noise_entries(seed@, start_nonce, (rows * cols) as nat),
    {
        let mut m = Matrix::new(rows, cols);
        let mut nonce: u64 = start_nonce;
        let mut i: usize = 0;
        while i < rows
            invariant
                i <= rows,
                rows * cols <= usize::MAX,
                start_nonce + rows * cols <= u64::MAX,
                seed@.len() + 8 <= usize::MAX,
                m.has_shape(rows as nat, cols as nat),
                nonce == start_nonce + i * cols,
                i * cols <= rows * cols,
                forall|t: int| 0 <= t < i * cols ==> #[trigger] m.entries()[t] == noise_entries(seed@, start_nonce, (rows * cols) as nat)[t],
            decreases rows - i,
        {
            proof {
                assert(i * cols + cols == (i + 1) * cols) by (nonlinear_arith);
                assert((i + 1) * cols <= rows * cols) by (nonlinear_arith)
                    requires
                        i + 1 <= rows,
                ;
            }
            let mut j: usize = 0;
            while j < cols
                invariant
                    i < rows,
                    j <= cols,
                    rows * cols <= usize::MAX,
                    start_nonce + rows * cols <= u64::MAX,
                    seed@.len() + 8 <= usize::MAX,
                    m.has_shape(rows as nat, cols as nat),
                    nonce == start_nonce + i * cols + j,
                    i * cols + cols <= rows * cols,
                    forall|t: int| 0 <= t < i * cols + j ==> #[trigger] m.entries()[t] == noise_entries(seed@, start_nonce, (rows * cols) as nat)[t],
                decreases cols - j,
            {
                let v = self.sample_gaussian(seed, nonce);
                m.set(i, j, v);
                nonce = nonce + 1;
                j = j + 1;
            }
            proof {
                assert(i * cols + cols == (i + 1) * cols) by (nonlinear_arith);
            }
            i = i + 1;
        }
        assert(m.entries() =~= noise_entries(seed@, start_nonce, (rows * cols) as nat));
        m
    }
}

} // verus!
