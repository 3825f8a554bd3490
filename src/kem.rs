//! Keys, ciphertexts and the three protocol operations.

use vstd::prelude::*;

use crate::matrix::{dot_acc, i16s_to_le, le_to_i16s, lo_byte, low_byte, transposed, Matrix};
use crate::sampling::{copy_bytes, expanded_a, noise_entries};
use crate::{FrodoError, M_BAR, N, N_BAR, SEED_LENGTH, SHARED_SECRET_BYTES};

verus! {

/// Length of a serialized public key.
pub const PUBLIC_KEY_BYTES: usize = SEED_LENGTH + N * N_BAR * 2;

/// Length of a serialized secret key.
pub const SECRET_KEY_BYTES: usize = N_BAR * N * 2;

/// Length of a serialized ciphertext.
pub const CIPHERTEXT_BYTES: usize = (N * M_BAR + N_BAR * M_BAR) * 2;

/// A public key: the seed of the matrix A and the N x N_BAR matrix B.
#[derive(Clone)]
pub struct PublicKey {
    seed_a: Vec<u8>,
    matrix_b: Matrix,
}

/// A secret key: the transpose of the noise matrix S, N_BAR x N.
#[derive(Clone)]
pub struct SecretKey {
    matrix_s_transpose: Matrix,
}

/// A ciphertext: B', N x M_BAR, and V', N_BAR x M_BAR.
#[derive(Clone)]
pub struct Ciphertext {
    matrix_b_prime: Matrix,
    matrix_v_prime: Matrix,
}

impl PublicKey {
    /// The seed from which A is expanded.
    pub closed spec fn seed(&self) -> Seq<u8> {
        self.seed_a@
    }

    /// The matrix B.
    pub closed spec fn b(&self) -> Matrix {
        self.matrix_b
    }

    /// A seed of `SEED_LENGTH` bytes and an N x N_BAR matrix B.
    pub open spec fn wf(&self) -> bool {
        &&& self.seed().len() == SEED_LENGTH
        &&& self.b().has_shape(N as nat, N_BAR as nat)
    }

    /// The wire form: the seed, then B.
    pub open spec fn bytes(&self) -> Seq<u8> {
        self.seed() + i16s_to_le(self.b().entries())
    }

    /// The seed, then B in the matrix wire format.
    pub fn serialize(&self) -> (r: Vec<u8>)
        requires
            self.wf(),
        ensures
            r@ == self.bytes(),
    {
        let mut out = copy_bytes(self.seed_a.as_slice());
        let mut rest = self.matrix_b.serialize();
        out.append(&mut rest);
        out
    }

    /// Reads a public key from the first `PUBLIC_KEY_BYTES` bytes of `data`;
    /// bytes after those are ignored.
    pub fn deserialize(data: &[u8]) -> (r: Result<PublicKey, FrodoError>)
        ensures
            match r {
                Ok(pk) => {
                    &&& data@.len() >= PUBLIC_KEY_BYTES
                    &&& pk.wf()
                    &&& pk.seed() == data@.take(SEED_LENGTH as int)
                    &&& pk.b().entries() == le_to_i16s(
                        data@.skip(SEED_LENGTH as int),
                        (N * N_BAR) as nat,
                    )
                },
                Err(_) => data@.len() < PUBLIC_KEY_BYTES,
            },
    {
        if data.len() < PUBLIC_KEY_BYTES {
            return Err(FrodoError::DeserializationError("Invalid public key size".to_string()));
        }
        let mut seed_a: Vec<u8> = Vec::new();
        let mut k: usize = 0;
        while k < SEED_LENGTH
            invariant
                k <= SEED_LENGTH,
                data@.len() >= PUBLIC_KEY_BYTES,
                seed_a@ == data@.take(k as int),
            decreases SEED_LENGTH - k,
        {
            seed_a.push(data[k]);
            assert(seed_a@ =~= data@.take(k as int + 1));
            k = k + 1;
        }
        let matrix_b = Matrix::read_at(data, SEED_LENGTH, N, N_BAR);
        Ok(PublicKey { seed_a, matrix_b })
    }
}

impl SecretKey {
    /// The transpose of the noise matrix S.
    pub closed spec fn s_transpose(&self) -> Matrix {
        self.matrix_s_transpose
    }

    /// An N_BAR x N matrix.
    pub open spec fn wf(&self) -> bool {
        self.s_transpose().has_shape(N_BAR as nat, N as nat)
    }

    /// The wire form: the transposed secret matrix.
    pub open spec fn bytes(&self) -> Seq<u8> {
        i16s_to_le(self.s_transpose().entries())
    }

    /// The transposed secret matrix in the matrix wire format.
    pub fn serialize(&self) -> (r: Vec<u8>)
        requires
            self.wf(),
        ensures
            r@ == self.bytes(),
    {
        self.matrix_s_transpose.serialize()
    }

    /// Reads a secret key from the first `SECRET_KEY_BYTES` bytes of `data`;
    /// bytes after those are ignored.
    pub fn deserialize(data: &[u8]) -> (r: Result<SecretKey, FrodoError>)
        ensures
            match r {
                Ok(sk) => {
                    &&& data@.len() >= SECRET_KEY_BYTES
                    &&& sk.wf()
                    &&& sk.s_transpose().entries() == le_to_i16s(data@, (N_BAR * N) as nat)
                },
                Err(_) => data@.len() < SECRET_KEY_BYTES,
            },
    {
        match Matrix::deserialize(data, N_BAR, N) {
            Ok(matrix_s_transpose) => Ok(SecretKey { matrix_s_transpose }),
            Err(e) => Err(e),
        }
    }
}

impl Ciphertext {
    /// The matrix B'.
    pub closed spec fn b_prime(&self) -> Matrix {
        self.matrix_b_prime
    }

    /// The matrix V'.
    pub closed spec fn v_prime(&self) -> Matrix {
        self.matrix_v_prime
    }

    /// B' is N x M_BAR and V' is N_BAR x M_BAR.
    pub open spec fn wf(&self) -> bool {
        &&& self.b_prime().has_shape(N as nat, M_BAR as nat)
        &&& self.v_prime().has_shape(N_BAR as nat, M_BAR as nat)
    }

    /// The wire form: B', then V'.
    pub open spec fn bytes(&self) -> Seq<u8> {
        i16s_to_le(self.b_prime().entries()) + i16s_to_le(self.v_prime().entries())
    }

    /// B', then V', each in the matrix wire format.
    pub fn serialize(&self) -> (r: Vec<u8>)
        requires
            self.wf(),
        ensures
            r@ == self.bytes(),
    {
        let mut out = self.matrix_b_prime.serialize();
        let mut rest = self.matrix_v_prime.serialize();
        out.append(&mut rest);
        out
    }

    /// Reads a ciphertext from the first `CIPHERTEXT_BYTES` bytes of `data`;
    /// bytes after those are ignored.
    pub fn deserialize(data: &[u8]) -> (r: Result<Ciphertext, FrodoError>)
        ensures
            match r {
                Ok(ct) => {
                    &&& data@.len() >= CIPHERTEXT_BYTES
                    &&& ct.wf()
                    &&& ct.b_prime().entries() == le_to_i16s(data@, (N * M_BAR) as nat)
                    &&& ct.v_prime().entries() == le_to_i16s(
                        data@.skip((N * M_BAR * 2) as int),
                        (N_BAR * M_BAR) as nat,
                    )
                },
                Err(_) => data@.len() < CIPHERTEXT_BYTES,
            },
    {
        if data.len() < CIPHERTEXT_BYTES {
            return Err(FrodoError::DeserializationError("Invalid ciphertext size".to_string()));
        }
        let matrix_b_prime = Matrix::read_at(data, 0, N, M_BAR);
        let matrix_v_prime = Matrix::read_at(data, N * M_BAR * 2, N_BAR, M_BAR);
        assert(data@.skip(0) =~= data@);
        Ok(Ciphertext { matrix_b_prime, matrix_v_prime })
    }
}

/// Serializing a well-formed public key and reading it back gives the same
/// seed and the same matrix B.
pub proof fn lemma_public_key_round_trip(pk: PublicKey)
    requires
        pk.wf(),
    ensures
        pk.bytes().len() == PUBLIC_KEY_BYTES,
        pk.bytes().take(SEED_LENGTH as int) == pk.seed(),
        le_to_i16s(pk.bytes().skip(SEED_LENGTH as int), (N * N_BAR) as nat) == pk.b().entries(),
{
    crate::matrix::lemma_matrix_round_trip(pk.b());
    assert(pk.bytes().take(SEED_LENGTH as int) =~= pk.seed());
    assert(pk.bytes().skip(SEED_LENGTH as int) =~= i16s_to_le(pk.b().entries()));
}

/// Serializing a well-formed secret key and reading it back gives the same
/// matrix.
pub proof fn lemma_secret_key_round_trip(sk: SecretKey)
    requires
        sk.wf(),
    ensures
        sk.bytes().len() == SECRET_KEY_BYTES,
        le_to_i16s(sk.bytes(), (N_BAR * N) as nat) == sk.s_transpose().entries(),
{
    crate::matrix::lemma_matrix_round_trip(sk.s_transpose());
}

/// Serializing a well-formed ciphertext and reading it back gives the same
/// two matrices.
pub proof fn lemma_ciphertext_round_trip(ct: Ciphertext)
    requires
        ct.wf(),
    ensures
        ct.bytes().len() == CIPHERTEXT_BYTES,
        le_to_i16s(ct.bytes(), (N * M_BAR) as nat) == ct.b_prime().entries(),
        le_to_i16s(ct.bytes().skip((N * M_BAR * 2) as int), (N_BAR * M_BAR) as nat)
            == ct.v_prime().entries(),
{
    crate::matrix::lemma_matrix_round_trip(ct.b_prime());
    crate::matrix::lemma_matrix_round_trip(ct.v_prime());
    let first = i16s_to_le(ct.b_prime().entries());
    assert(ct.bytes().skip((N * M_BAR * 2) as int) =~= i16s_to_le(ct.v_prime().entries()));
    assert(le_to_i16s(ct.bytes(), (N * M_BAR) as nat) =~= le_to_i16s(first, (N * M_BAR) as nat));
}

/// The scheme's entry point; it holds the length of the shared secret.
pub struct Frodo {
    message_bytes: usize,
}

/// The message placed in an N_BAR x M_BAR matrix, row-major: one byte per
/// entry while the message lasts, zeros after it.
pub open spec fn encoded_message(message: Seq<u8>) -> Seq<i16> {
    Seq::new((N_BAR * M_BAR) as nat, |k: int| if k < message.len() { message[k] as i16 } else { 0i16 })
}

/// The low bytes of the first `len` entries.
pub open spec fn decoded_message(entries: Seq<i16>, len: nat) -> Seq<u8> {
    Seq::new(len, |k: int| lo_byte(entries[k]))
}

/// Entry (`i`, `j`) of `m` plus, in 16-bit wrapping arithmetic, the entry of
/// `e` at row-major position `j * cols + i` when `swapped`, else
/// `i * cols + j`, where `cols` is the column count of `m`.
pub open spec fn added_entry(m: Matrix, e: Seq<i16>, swapped: bool, i: int, j: int) -> i16 {
    let k = if swapped { j * m.ncols() + i } else { i * m.ncols() + j };
    m.entry(i, j).wrapping_add(e[k])
}

/// `m` with the entries of `e` added, in 16-bit wrapping arithmetic with no
/// modular reduction; when `swapped`, entry (i, j) takes the entry of `e` at
/// row-major position `j * cols + i`.
fn add_entries(m: &Matrix, e: &Matrix, swapped: bool) -> (r: Matrix)
    requires
        m.wf(),
        e.wf(),
        m.ncols() >= 1,
        if swapped {
            (m.ncols() - 1) * m.ncols() + m.nrows() <= e.entries().len()
        } else {
            e.entries().len() == m.entries().len()
        },
    ensures
        r.has_shape(m.nrows(), m.ncols()),
        forall|i: int, j: int|
            0 <= i < m.nrows() && 0 <= j < m.ncols() ==> #[trigger] r.entry(i, j) == added_entry(
                *m,
                e.entries(),
                swapped,
                i,
                j,
            ),
{
    let rows = m.nrows_exec();
    let cols = m.ncols_exec();
    let mut r = Matrix::new(rows, cols);
    let mut i: usize = 0;
    while i < rows
        invariant
            i <= rows,
            rows == m.nrows(),
            cols == m.ncols(),
            m.wf(),
            e.wf(),
            cols >= 1,
            if swapped {
                (m.ncols() - 1) * m.ncols() + m.nrows() <= e.entries().len()
            } else {
                e.entries().len() == m.entries().len()
            },
            r.has_shape(m.nrows(), m.ncols()),
            forall|a: int, b: int|
                0 <= a < i && 0 <= b < cols ==> #[trigger] r.entry(a, b) == added_entry(
                    *m,
                    e.entries(),
                    swapped,
                    a,
                    b,
                ),
        decreases rows - i,
    {
        let mut j: usize = 0;
        while j < cols
            invariant
                i < rows,
                j <= cols,
                rows == m.nrows(),
                cols == m.ncols(),
                m.wf(),
                e.wf(),
                cols >= 1,
                if swapped {
                    (m.ncols() - 1) * m.ncols() + m.nrows() <= e.entries().len()
                } else {
                    e.entries().len() == m.entries().len()
                },
                r.has_shape(m.nrows(), m.ncols()),
                forall|a: int, b: int|
                    0 <= a < i && 0 <= b < cols ==> #[trigger] r.entry(a, b) == added_entry(
                        *m,
                        e.entries(),
                        swapped,
                        a,
                        b,
                    ),
                forall|b: int|
                    0 <= b < j ==> #[trigger] r.entry(i as int, b) == added_entry(
                        *m,
                        e.entries(),
                        swapped,
                        i as int,
                        b,
                    ),
            decreases cols - j,
        {
            let k: usize = if swapped {
                proof {
                    assert(j * cols + i < (cols - 1) * cols + rows) by (nonlinear_arith)
                        requires
                            j <= cols - 1,
                            i < rows,
                            cols >= 1,
                    ;
                }
                j * cols + i
            } else {
                proof {
                    assert(i * cols + j < rows * cols) by (nonlinear_arith)
                        requires
                            j < cols,
                            i < rows,
                    ;
                }
                i * cols + j
            };
            let v = m.get(i, j).wrapping_add(e.get_flat(k));
            r.set(i, j, v);
            j = j + 1;
        }
        i = i + 1;
    }
    r
}

/// Relies on rand's `thread_rng` and `Rng::fill`: `length` bytes from the
/// thread-local generator that the operating system seeds; nothing is known
/// of their values.
#[verifier::external_body]
fn random_bytes(length: usize) -> (r: Vec<u8>)
    ensures
        r@.len() == length,
{
    let mut bytes = vec![0u8; length];
    rand::Rng::fill(&mut rand::thread_rng(), &mut bytes[..]);
    bytes
}

/// The noise matrix S of key generation, N x N_BAR, row-major.
pub open spec fn keygen_s(seed_se: Seq<u8>) -> Seq<i16> {
    noise_entries(seed_se, 0, (N * N_BAR) as nat)
}

/// The error matrix E of key generation, N x N_BAR, row-major.
pub open spec fn keygen_e(seed_se: Seq<u8>) -> Seq<i16> {
    noise_entries(seed_se, (N * N_BAR) as u64, (N * N_BAR) as nat)
}

/// Entry (`i`, `j`) of B = A * S + E, the sum in 16-bit wrapping arithmetic.
pub open spec fn keygen_b_entry(seed_a: Seq<u8>, seed_se: Seq<u8>, i: int, j: int) -> i16 {
    (dot_acc(expanded_a(seed_a), N as nat, keygen_s(seed_se), N_BAR as nat, i, j, N as nat) as i16)
        .wrapping_add(keygen_e(seed_se)[i * N_BAR + j])
}

/// `pk` and `sk` are the key pair that the seeds `seed_a` and `seed_se` give.
pub open spec fn keypair_from_seeds(
    pk: PublicKey,
    sk: SecretKey,
    seed_a: Seq<u8>,
    seed_se: Seq<u8>,
) -> bool {
    &&& pk.wf()
    &&& sk.wf()
    &&& pk.seed() == seed_a
    &&& forall|i: int, j: int|
        0 <= i < N && 0 <= j < N_BAR ==> #[trigger] pk.b().entry(i, j) == keygen_b_entry(
            seed_a,
            seed_se,
            i,
            j,
        )
    &&& sk.s_transpose().entries() == transposed(keygen_s(seed_se), N as nat, N_BAR as nat)
}

/// The noise matrix S' of encapsulation, N x M_BAR, row-major.
pub open spec fn encaps_s(seed_se: Seq<u8>) -> Seq<i16> {
    noise_entries(seed_se, 0, (N * M_BAR) as nat)
}

/// The error matrix E' of encapsulation, N x M_BAR, row-major.
pub open spec fn encaps_e(seed_se: Seq<u8>) -> Seq<i16> {
    noise_entries(seed_se, (N * M_BAR) as u64, (N * M_BAR) as nat)
}

/// The error matrix E'' of encapsulation, N_BAR x M_BAR, row-major.
pub open spec fn encaps_e2(seed_se: Seq<u8>) -> Seq<i16> {
    noise_entries(seed_se, (2 * N * M_BAR) as u64, (N_BAR * M_BAR) as nat)
}

/// Entry (`i`, `j`) of B' = A * S' plus the entry of E' at row-major position
/// `j * M_BAR + i`.
pub open spec fn encaps_b_entry(seed_a: Seq<u8>, seed_se: Seq<u8>, i: int, j: int) -> i16 {
    (dot_acc(expanded_a(seed_a), N as nat, encaps_s(seed_se), M_BAR as nat, i, j, N as nat) as i16)
        .wrapping_add(encaps_e(seed_se)[j * M_BAR + i])
}

/// Entry (`i`, `j`) of V' = transpose(S') * B, plus entry (j, i) of E'',
/// plus entry (i, j) of the encoded message.
pub open spec fn encaps_v_entry(
    b: Seq<i16>,
    message: Seq<u8>,
    seed_se: Seq<u8>,
    i: int,
    j: int,
) -> i16 {
    let st = transposed(encaps_s(seed_se), N as nat, M_BAR as nat);
    (dot_acc(st, N as nat, b, N_BAR as nat, i, j, N as nat) as i16).wrapping_add(
        encaps_e2(seed_se)[j * M_BAR + i],
    ).wrapping_add(encoded_message(message)[i * M_BAR + j])
}

/// `ct` is the ciphertext that encapsulating `message` to `pk` with the
/// noise seed `seed_se` gives.
pub open spec fn ciphertext_from_seeds(
    ct: Ciphertext,
    pk: PublicKey,
    message: Seq<u8>,
    seed_se: Seq<u8>,
) -> bool {
    &&& ct.wf()
    &&& forall|i: int, j: int|
        0 <= i < N && 0 <= j < M_BAR ==> #[trigger] ct.b_prime().entry(i, j) == encaps_b_entry(
            pk.seed(),
            seed_se,
            i,
            j,
        )
    &&& forall|i: int, j: int|
        0 <= i < N_BAR && 0 <= j < M_BAR ==> #[trigger] ct.v_prime().entry(i, j)
            == encaps_v_entry(pk.b().entries(), message, seed_se, i, j)
}

/// The N_BAR x M_BAR matrix that decapsulation decodes: entry (i, j) is
/// entry (i, j) of V' less entry (i, j) of B' * transpose(S), in 16-bit
/// wrapping arithmetic.
pub open spec fn decaps_entries(sk: SecretKey, ct: Ciphertext) -> Seq<i16> {
    Seq::new(
        (N_BAR * M_BAR) as nat,
        |k: int|
            ct.v_prime().entry(k / M_BAR as int, k % M_BAR as int).wrapping_sub(
                dot_acc(
                    ct.b_prime().entries(),
                    M_BAR as nat,
                    sk.s_transpose().entries(),
                    N as nat,
                    k / M_BAR as int,
                    k % M_BAR as int,
                    M_BAR as nat,
                ) as i16,
            ),
    )
}

impl Default for Frodo {
    /// The scheme with a shared secret of `SHARED_SECRET_BYTES` bytes.
    fn default() -> (r: Frodo)
        ensures
            r.wf(),
    {
        Frodo { message_bytes: SHARED_SECRET_BYTES }
    }
}

impl Frodo {
    /// Length of the shared secret.
    pub closed spec fn message_len(&self) -> nat {
        self.message_bytes as nat
    }

    /// The shared secret has `SHARED_SECRET_BYTES` bytes.
    pub open spec fn wf(&self) -> bool {
        self.message_len() == SHARED_SECRET_BYTES
    }

    /// The message in an N_BAR x M_BAR matrix, one byte per entry in
    /// row-major order while it lasts, zeros after it.
    pub fn encode(&self, message: &[u8]) -> (m: Matrix)
        ensures
            m.has_shape(N_BAR as nat, M_BAR as nat),
            m.entries() == encoded_message(message@),
    {
        let mut m = Matrix::new(N_BAR, M_BAR);
        let mut i: usize = 0;
        while i < N_BAR
            invariant
                i <= N_BAR,
                m.has_shape(N_BAR as nat, M_BAR as nat),
                forall|t: int| 0 <= t < i * M_BAR ==> #[trigger] m.entries()[t] == encoded_message(message@)[t],
                forall|t: int| i * M_BAR <= t < N_BAR * M_BAR ==> #[trigger] m.entries()[t] == 0,
            decreases N_BAR - i,
        {
            let mut j: usize = 0;
            while j < M_BAR
                invariant
                    i < N_BAR,
                    j <= M_BAR,
                    m.has_shape(N_BAR as nat, M_BAR as nat),
                    forall|t: int|
                        0 <= t < i * M_BAR + j ==> #[trigger] m.entries()[t] == encoded_message(message@)[t],
                    forall|t: int| i * M_BAR + j <= t < N_BAR * M_BAR ==> #[trigger] m.entries()[t] == 0,
                decreases M_BAR - j,
            {
                let k: usize = i * M_BAR + j;
                if k < message.len() {
                    m.set(i, j, message[k] as i16);
                }
                j = j + 1;
            }
            i = i + 1;
        }
        assert(m.entries() =~= encoded_message(message@));
        m
    }

    /// The low bytes of the first `SHARED_SECRET_BYTES` entries of `matrix`,
    /// in row-major order.
    pub fn decode(&self, matrix: &Matrix) -> (r: Vec<u8>)
        requires
            self.wf(),
            matrix.has_shape(N_BAR as nat, M_BAR as nat),
        ensures
            r@ == decoded_message(matrix.entries(), SHARED_SECRET_BYTES as nat),
    {
        let mut message: Vec<u8> = Vec::new();
        let mut i: usize = 0;
        while i < N_BAR
            invariant
                i <= N_BAR,
                self.wf(),
                matrix.has_shape(N_BAR as nat, M_BAR as nat),
                message@.len() == if i * M_BAR < self.message_bytes { i * M_BAR } else { self.message_bytes as int },
                forall|t: int| 0 <= t < message@.len() ==> #[trigger] message@[t] == lo_byte(matrix.entries()[t]),
            decreases N_BAR - i,
        {
            let mut j: usize = 0;
            while j < M_BAR
                invariant
                    i < N_BAR,
                    j <= M_BAR,
                    self.wf(),
                    matrix.has_shape(N_BAR as nat, M_BAR as nat),
                    message@.len() == if i * M_BAR + j < self.message_bytes { i * M_BAR + j } else { self.message_bytes as int },
                    forall|t: int| 0 <= t < message@.len() ==> #[trigger] message@[t] == lo_byte(matrix.entries()[t]),
                decreases M_BAR - j,
            {
                if i * M_BAR + j < self.message_bytes {
                    let v = matrix.get(i, j);
                    message.push(low_byte(v));
                }
                j = j + 1;
            }
            i = i + 1;
        }
        assert(message@ =~= decoded_message(matrix.entries(), SHARED_SECRET_BYTES as nat));
        message
    }

    /// Key generation from its two seeds: A is expanded from `seed_a`; S
    /// and E are the noise matrices from `seed_se` at nonces 0 and N*N_BAR
    /// on; B = A * S + E, the sum taken without reduction. The public key is
    /// (`seed_a`, B), the secret key the transpose of S.
    pub fn keygen_from_seeds(&self, seed_a: &[u8], seed_se: &[u8]) -> (r: (PublicKey, SecretKey))
        requires
            seed_a@.len() == SEED_LENGTH,
            seed_se@.len() == SEED_LENGTH,
        ensures
            keypair_from_seeds(r.0, r.1, seed_a@, seed_se@),
    {
        let matrix_a = self.generate_a(seed_a);
        let matrix_s = self.generate_noise(N, N_BAR, seed_se, 0);
        let matrix_e = self.generate_noise(N, N_BAR, seed_se, (N * N_BAR) as u64);
        let product = matrix_a.multiply(&matrix_s);
        let matrix_b = add_entries(&product, &matrix_e, false);
        let pk = PublicKey { seed_a: copy_bytes(seed_a), matrix_b };
        let sk = SecretKey { matrix_s_transpose: matrix_s.transpose() };
        assert forall|i: int, j: int| 0 <= i < N && 0 <= j < N_BAR implies #[trigger] pk.b().entry(i, j)
            == keygen_b_entry(seed_a@, seed_se@, i, j) by {
            assert(matrix_b.entry(i, j) == added_entry(product, matrix_e.entries(), false, i, j));
            crate::matrix::lemma_dot_acc_bounds(matrix_a.entries(), N as nat, matrix_s.entries(), N_BAR as nat, i, j, N as nat);
        }
        (pk, sk)
    }

    /// Key generation with fresh seeds from the thread-local generator.
    pub fn keygen(&self) -> (r: (PublicKey, SecretKey))
        ensures
            exists|seed_se: Seq<u8>| #[trigger] keypair_from_seeds(r.0, r.1, r.0.seed(), seed_se),
    {
        let seed_a = random_bytes(SEED_LENGTH);
        let seed_se = random_bytes(SEED_LENGTH);
        let r = self.keygen_from_seeds(seed_a.as_slice(), seed_se.as_slice());
        assert(keypair_from_seeds(r.0, r.1, r.0.seed(), seed_se@));
        r
    }

    /// Encapsulation of `message` to `pk` with the noise seed `seed_se`: A
    /// is expanded from the key's seed; S', E' and E'' are the noise
    /// matrices from `seed_se` at nonces 0, N*M_BAR and 2*N*M_BAR on;
    /// B' = A * S' plus E' and V' = transpose(S') * B plus E'', each error
    /// entry taken at the swapped row-major position; then the encoded
    /// message is added to V'. No sum is reduced.
    pub fn encaps_from_seeds(&self, pk: &PublicKey, message: &[u8], seed_se: &[u8]) -> (ct: Ciphertext)
        requires
            pk.wf(),
            seed_se@.len() == SEED_LENGTH,
        ensures
            ciphertext_from_seeds(ct, *pk, message@, seed_se@),
    {
        let matrix_a = self.generate_a(pk.seed_a.as_slice());
        let matrix_s = self.generate_noise(N, M_BAR, seed_se, 0);
        let matrix_e = self.generate_noise(N, M_BAR, seed_se, (N * M_BAR) as u64);
        let matrix_e2 = self.generate_noise(N_BAR, M_BAR, seed_se, (N * M_BAR + N * M_BAR) as u64);
        let matrix_s_transpose = matrix_s.transpose();
        let product_b = matrix_a.multiply(&matrix_s);
        let matrix_b_prime = add_entries(&product_b, &matrix_e, true);
        let product_v = matrix_s_transpose.multiply(&pk.matrix_b);
        let matrix_v = add_entries(&product_v, &matrix_e2, true);
        let encoded = self.encode(message);
        let matrix_v_prime = add_entries(&matrix_v, &encoded, false);
        let ct = Ciphertext { matrix_b_prime, matrix_v_prime };
        assert forall|i: int, j: int| 0 <= i < N && 0 <= j < M_BAR implies #[trigger] ct.b_prime().entry(i, j)
            == encaps_b_entry(pk.seed(), seed_se@, i, j) by {
            assert(matrix_b_prime.entry(i, j) == added_entry(product_b, matrix_e.entries(), true, i, j));
            crate::matrix::lemma_dot_acc_bounds(matrix_a.entries(), N as nat, matrix_s.entries(), M_BAR as nat, i, j, N as nat);
        }
        assert forall|i: int, j: int| 0 <= i < N_BAR && 0 <= j < M_BAR implies #[trigger] ct.v_prime().entry(i, j)
            == encaps_v_entry(pk.b().entries(), message@, seed_se@, i, j) by {
            assert(matrix_v_prime.entry(i, j) == added_entry(matrix_v, encoded.entries(), false, i, j));
            assert(matrix_v.entry(i, j) == added_entry(product_v, matrix_e2.entries(), true, i, j));
            crate::matrix::lemma_dot_acc_bounds(matrix_s_transpose.entries(), N as nat, pk.b().entries(), N_BAR as nat, i, j, N as nat);
        }
        ct
    }

    /// Encapsulation to `pk` of a fresh message, with a fresh noise seed,
    /// both from the thread-local generator; returns the ciphertext and the
    /// message, which is the shared secret.
    pub fn encaps(&self, pk: &PublicKey) -> (r: (Ciphertext, Vec<u8>))
        requires
            self.wf(),
            pk.wf(),
        ensures
            r.1@.len() == SHARED_SECRET_BYTES,
            exists|seed_se: Seq<u8>| #[trigger] ciphertext_from_seeds(r.0, *pk, r.1@, seed_se),
    {
        let message = random_bytes(self.message_bytes);
        let seed_se = random_bytes(SEED_LENGTH);
        let ct = self.encaps_from_seeds(pk, message.as_slice(), seed_se.as_slice());
        assert(ciphertext_from_seeds(ct, *pk, message@, seed_se@));
        let r = (ct, message);
        assert(ciphertext_from_seeds(r.0, *pk, r.1@, seed_se@));
        r
    }

    /// Decapsulation: V' less B' * transpose(S), taken entry by entry over
    /// the N_BAR x M_BAR top-left corner of the product without reduction,
    /// then decoded to `SHARED_SECRET_BYTES` bytes.
    pub fn decaps(&self, sk: &SecretKey, ct: &Ciphertext) -> (r: Vec<u8>)
        requires
            self.wf(),
            sk.wf(),
            ct.wf(),
        ensures
            r@ == decoded_message(decaps_entries(*sk, *ct), SHARED_SECRET_BYTES as nat),
    {
        let product = ct.matrix_b_prime.multiply(&sk.matrix_s_transpose);
        let mut result = Matrix::new(N_BAR, M_BAR);
        let mut i: usize = 0;
        while i < N_BAR
            invariant
                i <= N_BAR,
                sk.wf(),
                ct.wf(),
                product.has_shape(N as nat, N as nat),
                forall|a: int, b: int|
                    0 <= a < N && 0 <= b < N ==> #[trigger] product.entry(a, b) as int == dot_acc(
                        ct.b_prime().entries(),
                        M_BAR as nat,
                        sk.s_transpose().entries(),
                        N as nat,
                        a,
                        b,
                        M_BAR as nat,
                    ),
                result.has_shape(N_BAR as nat, M_BAR as nat),
                forall|t: int| 0 <= t < i * M_BAR ==> #[trigger] result.entries()[t] == decaps_entries(*sk, *ct)[t],
            decreases N_BAR - i,
        {
            let mut j: usize = 0;
            while j < M_BAR
                invariant
                    i < N_BAR,
                    j <= M_BAR,
                    sk.wf(),
                    ct.wf(),
                    product.has_shape(N as nat, N as nat),
                    forall|a: int, b: int|
                        0 <= a < N && 0 <= b < N ==> #[trigger] product.entry(a, b) as int == dot_acc(
                            ct.b_prime().entries(),
                            M_BAR as nat,
                            sk.s_transpose().entries(),
                            N as nat,
                            a,
                            b,
                            M_BAR as nat,
                        ),
                    result.has_shape(N_BAR as nat, M_BAR as nat),
                    forall|t: int|
                        0 <= t < i * M_BAR + j ==> #[trigger] result.entries()[t] == decaps_entries(*sk, *ct)[t],
                decreases M_BAR - j,
            {
                proof {
                    let t = i * M_BAR + j;
                    assert(t / (M_BAR as int) == i && t % (M_BAR as int) == j);
                    crate::matrix::lemma_dot_acc_bounds(
                        ct.b_prime().entries(),
                        M_BAR as nat,
                        sk.s_transpose().entries(),
                        N as nat,
                        i as int,
                        j as int,
                        M_BAR as nat,
                    );
                }
                let v = ct.matrix_v_prime.get(i, j).wrapping_sub(product.get(i, j));
                let ghost before = result;
                result.set(i, j, v);
                proof {
                    let t = i * M_BAR + j;
                    assert(result.entries()[t] == v);
                    assert(decaps_entries(*sk, *ct)[t] == v);
                    assert forall|u: int| 0 <= u < i * M_BAR + j + 1 implies #[trigger] result.entries()[u]
                        == decaps_entries(*sk, *ct)[u] by {
                        if u < t {
                            assert(result.entries()[u] == before.entries()[u]);
                        }
                    }
                }
                j = j + 1;
            }
            i = i + 1;
        }
        assert(result.entries() =~= decaps_entries(*sk, *ct));
        self.decode(&result)
    }
}

} // verus!
