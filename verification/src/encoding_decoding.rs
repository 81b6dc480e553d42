use vstd::prelude::*;

verus! {

/// The canonical JPEG zigzag traversal: entry `k` is the `[row, col]` of the
/// coefficient that lands at position `k` of the scanned sequence, ordering
/// coefficients from lowest spatial frequency upward.
pub const ZIGZAG_ORDER: [[u8; 2]; 64] = [
    [0, 0], [0, 1], [1, 0], [2, 0], [1, 1], [0, 2], [0, 3], [1, 2],
    [2, 1], [3, 0], [4, 0], [3, 1], [2, 2], [1, 3], [0, 4], [0, 5],
    [1, 4], [2, 3], [3, 2], [4, 1], [5, 0], [6, 0], [5, 1], [4, 2],
    [3, 3], [2, 4], [1, 5], [0, 6], [0, 7], [1, 6], [2, 5], [3, 4],
    [4, 3], [5, 2], [6, 1], [7, 0], [7, 1], [6, 2], [5, 3], [4, 4],
    [3, 5], [2, 6], [1, 7], [2, 7], [3, 6], [4, 5], [5, 4], [6, 3],
    [7, 2], [7, 3], [6, 4], [5, 5], [4, 6], [3, 7], [4, 7], [5, 6],
    [6, 5], [7, 4], [7, 5], [6, 6], [5, 7], [6, 7], [7, 6], [7, 7],
];

/// The inverse permutation: `ZIGZAG_INDEX[r][c]` is the scan position of the
/// coefficient at `(r, c)`.
pub const ZIGZAG_INDEX: [[u8; 8]; 8] = [
    [0, 1, 5, 6, 14, 15, 27, 28],
    [2, 4, 7, 13, 16, 26, 29, 42],
    [3, 8, 12, 17, 25, 30, 41, 43],
    [9, 11, 18, 24, 31, 40, 44, 53],
    [10, 19, 23, 32, 39, 45, 52, 54],
    [20, 22, 33, 38, 46, 51, 55, 60],
    [21, 34, 37, 47, 50, 56, 59, 61],
    [35, 36, 48, 49, 57, 58, 62, 63],
];

/// The two tables describe one bijection between scan positions and grid
/// cells: they are inverse to each other, and every entry is in range.
pub proof fn lemma_zigzag_bijection()
    ensures
        forall|k: int|
            0 <= k < 64 ==> (#[trigger] ZIGZAG_ORDER@[k])@[0] < 8 && ZIGZAG_ORDER@[k]@[1] < 8,
        forall|r: int, c: int|
            0 <= r < 8 && 0 <= c < 8 ==> #[trigger] ZIGZAG_INDEX@[r]@[c] < 64,
        forall|r: int, c: int|
            0 <= r < 8 && 0 <= c < 8
                ==> ZIGZAG_ORDER@[#[trigger] ZIGZAG_INDEX@[r]@[c] as int]@[0] == r
                    && ZIGZAG_ORDER@[ZIGZAG_INDEX@[r]@[c] as int]@[1] == c,
        forall|k: int|
            0 <= k < 64
                ==> ZIGZAG_INDEX@[(#[trigger] ZIGZAG_ORDER@[k])@[0] as int]@[ZIGZAG_ORDER@[k]@[1] as int]
                    == k,
{
}

/// Read an 8x8 coefficient block into a 64-long sequence in zigzag order.
pub fn zigzag_scan(block: &[[i32; 8]; 8]) -> (z: [i32; 64])
    ensures
        forall|k: int|
            0 <= k < 64
                ==> #[trigger] z@[k]
                    == block@[ZIGZAG_ORDER@[k]@[0] as int]@[ZIGZAG_ORDER@[k]@[1] as int],
{
    proof {
        lemma_zigzag_bijection();
    }
    let mut z: [i32; 64] = [0; 64];
    let mut k: usize = 0;
    while k < 64
        invariant
            k <= 64,
            forall|kk: int|
                0 <= kk < k as int
                    ==> #[trigger] z@[kk]
                        == block@[ZIGZAG_ORDER@[kk]@[0] as int]@[ZIGZAG_ORDER@[kk]@[1] as int],
        decreases 64 - k as int,
    {
        proof {
            lemma_zigzag_bijection();
        }
        let rc = ZIGZAG_ORDER[k];
        z[k] = block[rc[0] as usize][rc[1] as usize];
        k = k + 1;
    }
    z
}

/// Scatter a 64-long zigzag sequence back into an 8x8 coefficient block;
/// the exact inverse of `zigzag_scan`.
pub fn zigzag_unscan(z: &[i32; 64]) -> (block: [[i32; 8]; 8])
    ensures
        forall|r: int, c: int|
            0 <= r < 8 && 0 <= c < 8
                ==> #[trigger] block@[r]@[c] == z@[ZIGZAG_INDEX@[r]@[c] as int],
{
    proof {
        lemma_zigzag_bijection();
    }
    let mut block: [[i32; 8]; 8] = [[0; 8]; 8];
    let mut r: usize = 0;
    while r < 8
        invariant
            r <= 8,
            forall|rr: int, c: int|
                0 <= rr < r as int && 0 <= c < 8
                    ==> #[trigger] block@[rr]@[c] == z@[ZIGZAG_INDEX@[rr]@[c] as int],
        decreases 8 - r as int,
    {
        let mut row: [i32; 8] = [0; 8];
        let mut c: usize = 0;
        while c < 8
            invariant
                r < 8,
                c <= 8,
                forall|cc: int|
                    0 <= cc < c as int ==> #[trigger] row@[cc] == z@[ZIGZAG_INDEX@[r as int]@[cc] as int],
            decreases 8 - c as int,
        {
            proof {
                lemma_zigzag_bijection();
            }
            row[c] = z[ZIGZAG_INDEX[r][c] as usize];
            c = c + 1;
        }
        block[r] = row;
        r = r + 1;
    }
    block
}

/// Scanning a block and scattering the result back reproduces the block
/// exactly: the zigzag permutation is a pure bijection.
pub proof fn lemma_zigzag_round_trip(block: [[i32; 8]; 8], z: [i32; 64], back: [[i32; 8]; 8])
    requires
        forall|k: int|
            0 <= k < 64
                ==> #[trigger] z@[k]
                    == block@[ZIGZAG_ORDER@[k]@[0] as int]@[ZIGZAG_ORDER@[k]@[1] as int],
        forall|r: int, c: int|
            0 <= r < 8 && 0 <= c < 8
                ==> #[trigger] back@[r]@[c] == z@[ZIGZAG_INDEX@[r]@[c] as int],
    ensures
        forall|r: int, c: int|
            0 <= r < 8 && 0 <= c < 8 ==> #[trigger] back@[r]@[c] == block@[r]@[c],
{
    lemma_zigzag_bijection();
    assert forall|r: int, c: int|
        0 <= r < 8 && 0 <= c < 8 implies #[trigger] back@[r]@[c] == block@[r]@[c] by {
        let k = ZIGZAG_INDEX@[r]@[c] as int;
        assert(back@[r]@[c] == z@[k]);
        assert(z@[k] == block@[ZIGZAG_ORDER@[k]@[0] as int]@[ZIGZAG_ORDER@[k]@[1] as int]);
        assert(ZIGZAG_ORDER@[k]@[0] == r && ZIGZAG_ORDER@[k]@[1] == c);
    }
}


// ---------------------------------------------------------------------------
// Entropy coding: run-length + prefix-coded categories with magnitude bits.
//
// Bit-level convention (self-consistent; no external bitstream is persisted):
// every multi-bit field is emitted least-significant bit first. A block is
// encoded as its DC category code followed by the DC magnitude bits, then
// run-length symbols for the 63 AC coefficients, closed by an end-of-block
// code as soon as the remaining coefficients are all zero.
// ---------------------------------------------------------------------------

/// 2^n.
pub open spec fn p2(n: nat) -> nat
    decreases n,
{
    if n == 0 {
        1
    } else {
        2 * p2((n - 1) as nat)
    }
}

/// The magnitude category of `a`: how many bits are needed to write it.
pub open spec fn cat_abs(a: nat) -> nat
    decreases a,
{
    if a == 0 {
        0
    } else {
        1 + cat_abs(a / 2)
    }
}

/// Category of a signed coefficient: bits needed for its absolute value.
pub open spec fn cat_of(v: int) -> nat {
    cat_abs((if v < 0 { -v } else { v }) as nat)
}

/// The value carried by the magnitude bits: a nonnegative coefficient is
/// sent as itself, a negative one as `v - 1` modulo `2^category` (the
/// ones-complement-style convention), so the bits alone settle the sign.
pub open spec fn mag_val(v: int) -> nat {
    if v >= 0 {
        v as nat
    } else {
        (v - 1 + p2(cat_of(v))) as nat
    }
}

/// Recover a coefficient from its category and magnitude value.
pub open spec fn dec_mag(c: nat, m: nat) -> int {
    if c == 0 {
        0
    } else if m >= p2((c - 1) as nat) {
        m as int
    } else {
        m + 1 - p2(c)
    }
}

/// The `n`-bit field for value `m`, least-significant bit first.
pub open spec fn bits_of(m: nat, n: nat) -> Seq<bool>
    decreases n,
{
    if n == 0 {
        Seq::empty()
    } else {
        seq![m % 2 == 1] + bits_of(m / 2, (n - 1) as nat)
    }
}

/// `n` copies of the bit `b`.
pub open spec fn rep_bit(b: bool, n: nat) -> Seq<bool>
    decreases n,
{
    if n == 0 {
        Seq::empty()
    } else {
        seq![b] + rep_bit(b, (n - 1) as nat)
    }
}

/// The DC category code: `c` copies of the table's marker bit closed by its
/// complement, a comma code that is prefix-free by construction.
pub open spec fn dc_code(pol: bool, c: nat) -> Seq<bool> {
    rep_bit(pol, c) + seq![!pol]
}

/// The AC (run, size) symbol code: the complement of the marker bit, then a
/// 4-bit run field and a 4-bit size field.
pub open spec fn ac_pair_code(pol: bool, run: nat, size: nat) -> Seq<bool> {
    seq![!pol] + bits_of(run, 4) + bits_of(size, 4)
}

/// The end-of-block code: the marker bit followed by 0.
pub open spec fn eob_code(pol: bool) -> Seq<bool> {
    seq![pol, false]
}

/// The 16-zero-run code: the marker bit followed by 1.
pub open spec fn zrl_code(pol: bool) -> Seq<bool> {
    seq![pol, true]
}

/// A coefficient the coder can represent: category at most 15.
pub open spec fn wf_coeff(v: int) -> bool {
    -32767 <= v <= 32767
}

/// A zigzag sequence the coder accepts.
pub open spec fn wf_zigzag(b: Seq<int>) -> bool {
    b.len() == 64 && forall|i: int| 0 <= i < 64 ==> wf_coeff(#[trigger] b[i])
}

pub open spec fn wf_zigzags(bs: Seq<Seq<int>>) -> bool {
    forall|k: int| 0 <= k < bs.len() ==> wf_zigzag(#[trigger] bs[k])
}

/// The number of zeros at position `i` before the next nonzero coefficient.
pub open spec fn run_at(b: Seq<int>, i: int) -> nat
    decreases 64 - i
{
    if i >= 64 || i < 0 {
        0
    } else if b[i] != 0 {
        0
    } else {
        1 + run_at(b, i + 1)
    }
}

/// Encode the AC coefficients of `b` from position `i` on: an end-of-block
/// code once the rest is all zero, a 16-zero-run code for a run of 16 or
/// more, else a (run, size) symbol followed by the magnitude bits.
pub open spec fn enc_ac(pol: bool, b: Seq<int>, i: int) -> Seq<bool>
    decreases 64 - i
{
    if i >= 64 {
        Seq::empty()
    } else {
        let r = run_at(b, i) as int;
        if r >= 64 - i {
            eob_code(pol)
        } else if r >= 16 {
            zrl_code(pol) + enc_ac(pol, b, i + 16)
        } else {
            ac_pair_code(pol, r as nat, cat_of(b[i + r])) + bits_of(mag_val(b[i + r]), cat_of(b[i + r]))
                + enc_ac(pol, b, i + r + 1)
        }
    }
}

/// Encode one 64-long zigzag sequence.
pub open spec fn enc_block(pol: bool, b: Seq<int>) -> Seq<bool> {
    dc_code(pol, cat_of(b[0])) + bits_of(mag_val(b[0]), cat_of(b[0])) + enc_ac(pol, b, 1)
}

/// Encode a list of zigzag sequences, one block after the other.
pub open spec fn enc_blocks(pol: bool, bs: Seq<Seq<int>>) -> Seq<bool>
    decreases bs.len(),
{
    if bs.len() == 0 {
        Seq::empty()
    } else {
        enc_block(pol, bs[0]) + enc_blocks(pol, bs.drop_first())
    }
}

/// An AC symbol as the decoder classifies it.
pub enum AcSym {
    Eob,
    Zrl,
    Pair(nat, nat),
}

/// Decode a comma code at position `i`: count marker bits up to the first
/// complement bit.
pub open spec fn dec_unary(pol: bool, bits: Seq<bool>, i: int) -> Option<(nat, int)>
    decreases bits.len() - i
{
    if i < 0 || i >= bits.len() {
        None
    } else if bits[i] == pol {
        match dec_unary(pol, bits, i + 1) {
            None => None,
            Some((c, j)) => Some(((c + 1) as nat, j)),
        }
    } else {
        Some((0, i + 1))
    }
}

/// Read an `n`-bit field, least-significant bit first.
pub open spec fn dec_bits(bits: Seq<bool>, i: int, n: nat) -> Option<(nat, int)>
    decreases n,
{
    if n == 0 {
        Some((0, i))
    } else if i < 0 || i >= bits.len() {
        None
    } else {
        match dec_bits(bits, i + 1, (n - 1) as nat) {
            None => None,
            Some((v, j)) => Some((2 * v + (if bits[i] { 1nat } else { 0nat }), j)),
        }
    }
}

/// Classify the AC symbol starting at position `i`.
pub open spec fn dec_sym(pol: bool, bits: Seq<bool>, i: int) -> Option<(AcSym, int)> {
    if i < 0 || i >= bits.len() {
        None
    } else if bits[i] == pol {
        if i + 1 >= bits.len() {
            None
        } else if bits[i + 1] {
            Some((AcSym::Zrl, i + 2))
        } else {
            Some((AcSym::Eob, i + 2))
        }
    } else {
        match dec_bits(bits, i + 1, 4) {
            None => None,
            Some((run, j)) => match dec_bits(bits, j, 4) {
                None => None,
                Some((size, j2)) => Some((AcSym::Pair(run, size), j2)),
            },
        }
    }
}

/// `n` zero coefficients.
pub open spec fn rep_zero(n: nat) -> Seq<int> {
    Seq::new(n, |k: int| 0)
}

/// Decode AC symbols, extending the partially rebuilt sequence `out` until
/// it holds all 64 coefficients or an end-of-block code fills the rest with
/// zeros.
pub open spec fn dec_ac(pol: bool, bits: Seq<bool>, i: int, out: Seq<int>) -> Option<(Seq<int>, int)>
    decreases 64 - out.len()
{
    if out.len() >= 64 {
        Some((out, i))
    } else {
        match dec_sym(pol, bits, i) {
            None => None,
            Some((sym, j)) => match sym {
                AcSym::Eob => Some((out + rep_zero((64 - out.len()) as nat), j)),
                AcSym::Zrl => {
                    if out.len() + 16 <= 64 {
                        dec_ac(pol, bits, j, out + rep_zero(16))
                    } else {
                        None
                    }
                },
                AcSym::Pair(run, size) => {
                    if out.len() + run + 1 <= 64 && 1 <= size <= 15 {
                        match dec_bits(bits, j, size) {
                            None => None,
                            Some((m, j2)) => dec_ac(
                                pol,
                                bits,
                                j2,
                                out + rep_zero(run) + seq![dec_mag(size, m)],
                            ),
                        }
                    } else {
                        None
                    }
                },
            },
        }
    }
}

/// Decode one block starting at position `i`: DC category code, DC magnitude
/// bits, then the AC symbols.
pub open spec fn dec_block(pol: bool, bits: Seq<bool>, i: int) -> Option<(Seq<int>, int)> {
    match dec_unary(pol, bits, i) {
        None => None,
        Some((c, j)) => {
            if c <= 15 {
                match dec_bits(bits, j, c) {
                    None => None,
                    Some((m, j2)) => dec_ac(pol, bits, j2, seq![dec_mag(c, m)]),
                }
            } else {
                None
            }
        },
    }
}

/// Decode a whole stream into blocks; the stream must end exactly at a block
/// boundary.
pub open spec fn dec_blocks(pol: bool, bits: Seq<bool>, i: int) -> Option<Seq<Seq<int>>>
    decreases bits.len() - i
{
    if i == bits.len() {
        Some(Seq::empty())
    } else if i < 0 || i > bits.len() {
        None
    } else {
        match dec_block(pol, bits, i) {
            None => None,
            Some((b, j)) => {
                if i < j <= bits.len() {
                    match dec_blocks(pol, bits, j) {
                        None => None,
                        Some(rest) => Some(seq![b] + rest),
                    }
                } else {
                    None
                }
            },
        }
    }
}

/// A nonzero value's category brackets it between two powers of two.
pub proof fn lemma_cat_bounds(a: nat)
    requires
        a > 0,
    ensures
        cat_abs(a) >= 1,
        p2((cat_abs(a) - 1) as nat) <= a < p2(cat_abs(a)),
    decreases a,
{
    if a == 1 {
        assert(cat_abs(1nat) == 1 + cat_abs(0nat));
    } else {
        lemma_cat_bounds(a / 2);
    }
}

/// Category is monotone in the value.
pub proof fn lemma_cat_mono(a: nat, b: nat)
    requires
        a <= b,
    ensures
        cat_abs(a) <= cat_abs(b),
    decreases b,
{
    if a > 0 {
        assert(a / 2 <= b / 2) by (nonlinear_arith)
            requires a <= b;
        lemma_cat_mono(a / 2, b / 2);
    }
}

/// The category and magnitude value of a representable coefficient pin it
/// down exactly: decoding them recovers the coefficient, the magnitude value
/// fits its field, and the category fits the tables.
pub proof fn lemma_mag(v: int)
    requires
        wf_coeff(v),
    ensures
        cat_of(v) <= 15,
        v != 0 ==> cat_of(v) >= 1,
        mag_val(v) < p2(cat_of(v)),
        dec_mag(cat_of(v), mag_val(v)) == v,
{
    let a: nat = if v < 0 { (-v) as nat } else { v as nat };
    lemma_cat_mono(a, 32767);
    reveal_with_fuel(cat_abs, 17);
    assert(cat_abs(32767nat) == 15);
    if v == 0 {
    } else {
        lemma_cat_bounds(a);
        let c = cat_abs(a);
        assert(p2(c) == 2 * p2((c - 1) as nat));
        if v < 0 {
            assert(mag_val(v) == p2(c) - a - 1 + v - v);
        }
    }
}

/// `s` occurs in `bits` starting at position `i`.
pub open spec fn at_pos(bits: Seq<bool>, i: int, s: Seq<bool>) -> bool {
    0 <= i && i + s.len() <= bits.len() && forall|k: int| 0 <= k < s.len() ==> bits[i + k] == #[trigger] s[k]
}

/// A concatenation occurs at `i` exactly when its parts occur back to back.
pub proof fn lemma_at_split(bits: Seq<bool>, i: int, s1: Seq<bool>, s2: Seq<bool>)
    requires
        at_pos(bits, i, s1 + s2),
    ensures
        at_pos(bits, i, s1),
        at_pos(bits, i + s1.len(), s2),
{
    assert forall|k: int| 0 <= k < s1.len() implies bits[i + k] == #[trigger] s1[k] by {
        assert((s1 + s2)[k] == s1[k]);
    }
    assert forall|k: int| 0 <= k < s2.len() implies bits[i + s1.len() + k] == #[trigger] s2[k] by {
        assert((s1 + s2)[s1.len() + k] == s2[k]);
    }
}

/// A bit field has exactly its stated width.
pub proof fn lemma_bits_of_len(m: nat, n: nat)
    ensures
        bits_of(m, n).len() == n,
    decreases n,
{
    if n > 0 {
        lemma_bits_of_len(m / 2, (n - 1) as nat);
    }
}

/// A repetition has exactly its stated length.
pub proof fn lemma_rep_len(b: bool, n: nat)
    ensures
        rep_bit(b, n).len() == n,
    decreases n,
{
    if n > 0 {
        lemma_rep_len(b, (n - 1) as nat);
    }
}

/// Reading an `n`-bit field back from where it was written recovers the
/// value and stops right after it.
pub proof fn lemma_dec_bits_rt(bits: Seq<bool>, i: int, m: nat, n: nat)
    requires
        m < p2(n),
        at_pos(bits, i, bits_of(m, n)),
    ensures
        dec_bits(bits, i, n) == Some((m, i + n)),
    decreases n,
{
    lemma_bits_of_len(m, n);
    if n == 0 {
    } else {
        lemma_bits_of_len(m / 2, (n - 1) as nat);
        assert(bits_of(m, n) == seq![m % 2 == 1] + bits_of(m / 2, (n - 1) as nat));
        lemma_at_split(bits, i, seq![m % 2 == 1], bits_of(m / 2, (n - 1) as nat));
        assert(bits[i] == (m % 2 == 1)) by {
            assert(bits[i + 0] == seq![m % 2 == 1][0]);
        }
        assert(m / 2 < p2((n - 1) as nat)) by (nonlinear_arith)
            requires m < 2 * p2((n - 1) as nat);
        lemma_dec_bits_rt(bits, i + 1, m / 2, (n - 1) as nat);
        assert(2 * (m / 2) + (if m % 2 == 1 { 1nat } else { 0nat }) == m);
    }
}

/// Reading a comma code back from where it was written recovers the count
/// and stops right after it.
pub proof fn lemma_dec_unary_rt(pol: bool, bits: Seq<bool>, i: int, c: nat)
    requires
        at_pos(bits, i, dc_code(pol, c)),
    ensures
        dec_unary(pol, bits, i) == Some((c, i + c + 1)),
    decreases c,
{
    lemma_rep_len(pol, c);
    if c == 0 {
        assert(bits[i + 0] == dc_code(pol, 0)[0]);
    } else {
        lemma_rep_len(pol, (c - 1) as nat);
        assert(dc_code(pol, c) =~= seq![pol] + dc_code(pol, (c - 1) as nat));
        lemma_at_split(bits, i, seq![pol], dc_code(pol, (c - 1) as nat));
        assert(bits[i + 0] == seq![pol][0]);
        lemma_dec_unary_rt(pol, bits, i + 1, (c - 1) as nat);
    }
}

/// The run counter counts zeros: everything inside the run is zero, the run
/// stops at 64, and whatever follows a short run is nonzero.
pub proof fn lemma_run_at(b: Seq<int>, i: int)
    requires
        0 <= i <= 64,
    ensures
        run_at(b, i) <= 64 - i,
        forall|k: int| i <= k < i + run_at(b, i) ==> #[trigger] b[k] == 0,
        i + run_at(b, i) < 64 ==> b[i + run_at(b, i)] != 0,
    decreases 64 - i,
{
    if i < 64 && b[i] == 0 {
        lemma_run_at(b, i + 1);
    }
}

/// Reading the AC symbols back from where they were written rebuilds the
/// remaining coefficients exactly and stops right after them.
#[verifier::rlimit(100)]
pub proof fn lemma_dec_ac_rt(pol: bool, b: Seq<int>, bits: Seq<bool>, pos: int, i: int)
    requires
        wf_zigzag(b),
        1 <= i <= 64,
        at_pos(bits, pos, enc_ac(pol, b, i)),
    ensures
        dec_ac(pol, bits, pos, b.subrange(0, i)) == Some((
            b,
            pos + enc_ac(pol, b, i).len() as int,
        )),
    decreases 64 - i,
{
    reveal_with_fuel(p2, 6);
    let out = b.subrange(0, i);
    if i == 64 {
        assert(out =~= b);
    } else {
        lemma_run_at(b, i);
        let r = run_at(b, i) as int;
        if r >= 64 - i {
            assert(bits[pos + 0] == eob_code(pol)[0]);
            assert(bits[pos + 1] == eob_code(pol)[1]);
            assert(dec_sym(pol, bits, pos) == Some((AcSym::Eob, pos + 2)));
            assert(out + rep_zero((64 - out.len()) as nat) =~= b);
        } else if r >= 16 {
            lemma_at_split(bits, pos, zrl_code(pol), enc_ac(pol, b, i + 16));
            assert(bits[pos + 0] == zrl_code(pol)[0]);
            assert(bits[pos + 1] == zrl_code(pol)[1]);
            assert(dec_sym(pol, bits, pos) == Some((AcSym::Zrl, pos + 2)));
            assert(out + rep_zero(16) =~= b.subrange(0, i + 16));
            lemma_dec_ac_rt(pol, b, bits, pos + 2, i + 16);
        } else {
            let v = b[i + r];
            let c = cat_of(v);
            lemma_mag(v);
            lemma_bits_of_len(run_at(b, i), 4);
            lemma_bits_of_len(c, 4);
            lemma_bits_of_len(mag_val(v), c);
            let sym = ac_pair_code(pol, r as nat, c);
            let mag = bits_of(mag_val(v), c);
            let rest = enc_ac(pol, b, i + r + 1);
            assert(enc_ac(pol, b, i) == sym + mag + rest);
            assert(sym + mag + rest =~= sym + (mag + rest));
            lemma_at_split(bits, pos, sym, mag + rest);
            lemma_at_split(bits, pos + 9, mag, rest);
            assert(sym =~= seq![!pol] + (bits_of(r as nat, 4) + bits_of(c, 4)));
            lemma_at_split(bits, pos, seq![!pol], bits_of(r as nat, 4) + bits_of(c, 4));
            lemma_at_split(bits, pos + 1, bits_of(r as nat, 4), bits_of(c, 4));
            assert(bits[pos + 0] == seq![!pol][0]);
            lemma_dec_bits_rt(bits, pos + 1, r as nat, 4);
            lemma_dec_bits_rt(bits, pos + 5, c, 4);
            assert(dec_sym(pol, bits, pos) == Some((AcSym::Pair(r as nat, c), pos + 9)));
            lemma_dec_bits_rt(bits, pos + 9, mag_val(v), c);
            assert(out + rep_zero(r as nat) + seq![dec_mag(c, mag_val(v))]
                =~= b.subrange(0, i + r + 1));
            lemma_dec_ac_rt(pol, b, bits, pos + 9 + c, i + r + 1);
        }
    }
}

/// Reading one block back from where it was written rebuilds it exactly and
/// stops right after it.
pub proof fn lemma_dec_block_rt(pol: bool, b: Seq<int>, bits: Seq<bool>, pos: int)
    requires
        wf_zigzag(b),
        at_pos(bits, pos, enc_block(pol, b)),
    ensures
        dec_block(pol, bits, pos) == Some((b, pos + enc_block(pol, b).len() as int)),
        enc_block(pol, b).len() >= 3,
{
    let c = cat_of(b[0]);
    lemma_mag(b[0]);
    lemma_rep_len(pol, c);
    lemma_bits_of_len(mag_val(b[0]), c);
    let head = dc_code(pol, c);
    let mag = bits_of(mag_val(b[0]), c);
    let rest = enc_ac(pol, b, 1);
    assert(rest.len() >= 2) by {
        lemma_run_at(b, 1);
        if run_at(b, 1) >= 63 {
        } else if run_at(b, 1) >= 16 {
        } else {
            let r = run_at(b, 1) as int;
            lemma_bits_of_len(run_at(b, 1), 4);
            lemma_bits_of_len(cat_of(b[1 + r]), 4);
        }
    }
    assert(enc_block(pol, b) == head + mag + rest);
    assert(head + mag + rest =~= head + (mag + rest));
    lemma_at_split(bits, pos, head, mag + rest);
    lemma_at_split(bits, pos + head.len(), mag, rest);
    lemma_dec_unary_rt(pol, bits, pos, c);
    lemma_dec_bits_rt(bits, pos + c + 1, mag_val(b[0]), c);
    assert(seq![dec_mag(c, mag_val(b[0]))] =~= b.subrange(0, 1));
    lemma_dec_ac_rt(pol, b, bits, pos + c + 1 + c, 1);
}

/// Reading a whole stream of blocks back from where they were written, with
/// nothing after them, rebuilds the block list exactly.
pub proof fn lemma_dec_blocks_rt(pol: bool, bs: Seq<Seq<int>>, bits: Seq<bool>, pos: int)
    requires
        wf_zigzags(bs),
        at_pos(bits, pos, enc_blocks(pol, bs)),
        pos + enc_blocks(pol, bs).len() == bits.len(),
    ensures
        dec_blocks(pol, bits, pos) == Some(bs),
    decreases bs.len(),
{
    if bs.len() == 0 {
        assert(pos == bits.len());
    } else {
        let b0 = bs[0];
        assert(wf_zigzag(b0));
        lemma_at_split(bits, pos, enc_block(pol, b0), enc_blocks(pol, bs.drop_first()));
        lemma_dec_block_rt(pol, b0, bits, pos);
        let j = pos + enc_block(pol, b0).len() as int;
        assert(wf_zigzags(bs.drop_first())) by {
            assert(forall|k: int|
                0 <= k < bs.drop_first().len() ==> #[trigger] bs.drop_first()[k] == bs[k + 1]);
        }
        lemma_dec_blocks_rt(pol, bs.drop_first(), bits, j);
        assert(seq![b0] + bs.drop_first() =~= bs);
    }
}

/// Decoding an encoded stream of zigzag sequences yields the sequences back
/// exactly, for either marker-bit polarity.
pub proof fn lemma_entropy_round_trip(pol: bool, bs: Seq<Seq<int>>)
    requires
        wf_zigzags(bs),
    ensures
        dec_blocks(pol, enc_blocks(pol, bs), 0) == Some(bs),
{
    let bits = enc_blocks(pol, bs);
    assert(at_pos(bits, 0, bits));
    lemma_dec_blocks_rt(pol, bs, bits, 0);
}

// ---------------------------------------------------------------------------
// The four fixed code tables, one `[length, bits]` pair per symbol with the
// bits taken least-significant first. DC tables are indexed by category and
// tabulate the comma codes `dc_code`; AC tables are indexed by
// `run * 16 + size` and tabulate `ac_pair_code`, with the end-of-block code
// at index 0 and the 16-zero-run code at index 240 (entries for the
// impossible size-0 symbols in between are unused).
// ---------------------------------------------------------------------------

pub const LUMINANCE_DC_HUFFMAN_CODES: [[u16; 2]; 16] = [
    [1, 0],
    [2, 1],
    [3, 3],
    [4, 7],
    [5, 15],
    [6, 31],
    [7, 63],
    [8, 127],
    [9, 255],
    [10, 511],
    [11, 1023],
    [12, 2047],
    [13, 4095],
    [14, 8191],
    [15, 16383],
    [16, 32767],
];

pub const CHROMINANCE_DC_HUFFMAN_CODES: [[u16; 2]; 16] = [
    [1, 1],
    [2, 2],
    [3, 4],
    [4, 8],
    [5, 16],
    [6, 32],
    [7, 64],
    [8, 128],
    [9, 256],
    [10, 512],
    [11, 1024],
    [12, 2048],
    [13, 4096],
    [14, 8192],
    [15, 16384],
    [16, 32768],
];

pub const LUMINANCE_AC_HUFFMAN_CODES: [[u16; 2]; 256] = [
    [2, 1], [9, 32], [9, 64], [9, 96], [9, 128], [9, 160], [9, 192], [9, 224],
    [9, 256], [9, 288], [9, 320], [9, 352], [9, 384], [9, 416], [9, 448], [9, 480],
    [0, 0], [9, 34], [9, 66], [9, 98], [9, 130], [9, 162], [9, 194], [9, 226],
    [9, 258], [9, 290], [9, 322], [9, 354], [9, 386], [9, 418], [9, 450], [9, 482],
    [0, 0], [9, 36], [9, 68], [9, 100], [9, 132], [9, 164], [9, 196], [9, 228],
    [9, 260], [9, 292], [9, 324], [9, 356], [9, 388], [9, 420], [9, 452], [9, 484],
    [0, 0], [9, 38], [9, 70], [9, 102], [9, 134], [9, 166], [9, 198], [9, 230],
    [9, 262], [9, 294], [9, 326], [9, 358], [9, 390], [9, 422], [9, 454], [9, 486],
    [0, 0], [9, 40], [9, 72], [9, 104], [9, 136], [9, 168], [9, 200], [9, 232],
    [9, 264], [9, 296], [9, 328], [9, 360], [9, 392], [9, 424], [9, 456], [9, 488],
    [0, 0], [9, 42], [9, 74], [9, 106], [9, 138], [9, 170], [9, 202], [9, 234],
    [9, 266], [9, 298], [9, 330], [9, 362], [9, 394], [9, 426], [9, 458], [9, 490],
    [0, 0], [9, 44], [9, 76], [9, 108], [9, 140], [9, 172], [9, 204], [9, 236],
    [9, 268], [9, 300], [9, 332], [9, 364], [9, 396], [9, 428], [9, 460], [9, 492],
    [0, 0], [9, 46], [9, 78], [9, 110], [9, 142], [9, 174], [9, 206], [9, 238],
    [9, 270], [9, 302], [9, 334], [9, 366], [9, 398], [9, 430], [9, 462], [9, 494],
    [0, 0], [9, 48], [9, 80], [9, 112], [9, 144], [9, 176], [9, 208], [9, 240],
    [9, 272], [9, 304], [9, 336], [9, 368], [9, 400], [9, 432], [9, 464], [9, 496],
    [0, 0], [9, 50], [9, 82], [9, 114], [9, 146], [9, 178], [9, 210], [9, 242],
    [9, 274], [9, 306], [9, 338], [9, 370], [9, 402], [9, 434], [9, 466], [9, 498],
    [0, 0], [9, 52], [9, 84], [9, 116], [9, 148], [9, 180], [9, 212], [9, 244],
    [9, 276], [9, 308], [9, 340], [9, 372], [9, 404], [9, 436], [9, 468], [9, 500],
    [0, 0], [9, 54], [9, 86], [9, 118], [9, 150], [9, 182], [9, 214], [9, 246],
    [9, 278], [9, 310], [9, 342], [9, 374], [9, 406], [9, 438], [9, 470], [9, 502],
    [0, 0], [9, 56], [9, 88], [9, 120], [9, 152], [9, 184], [9, 216], [9, 248],
    [9, 280], [9, 312], [9, 344], [9, 376], [9, 408], [9, 440], [9, 472], [9, 504],
    [0, 0], [9, 58], [9, 90], [9, 122], [9, 154], [9, 186], [9, 218], [9, 250],
    [9, 282], [9, 314], [9, 346], [9, 378], [9, 410], [9, 442], [9, 474], [9, 506],
    [0, 0], [9, 60], [9, 92], [9, 124], [9, 156], [9, 188], [9, 220], [9, 252],
    [9, 284], [9, 316], [9, 348], [9, 380], [9, 412], [9, 444], [9, 476], [9, 508],
    [2, 3], [9, 62], [9, 94], [9, 126], [9, 158], [9, 190], [9, 222], [9, 254],
    [9, 286], [9, 318], [9, 350], [9, 382], [9, 414], [9, 446], [9, 478], [9, 510],
];

pub const CHROMINANCE_AC_HUFFMAN_CODES: [[u16; 2]; 256] = [
    [2, 0], [9, 33], [9, 65], [9, 97], [9, 129], [9, 161], [9, 193], [9, 225],
    [9, 257], [9, 289], [9, 321], [9, 353], [9, 385], [9, 417], [9, 449], [9, 481],
    [0, 0], [9, 35], [9, 67], [9, 99], [9, 131], [9, 163], [9, 195], [9, 227],
    [9, 259], [9, 291], [9, 323], [9, 355], [9, 387], [9, 419], [9, 451], [9, 483],
    [0, 0], [9, 37], [9, 69], [9, 101], [9, 133], [9, 165], [9, 197], [9, 229],
    [9, 261], [9, 293], [9, 325], [9, 357], [9, 389], [9, 421], [9, 453], [9, 485],
    [0, 0], [9, 39], [9, 71], [9, 103], [9, 135], [9, 167], [9, 199], [9, 231],
    [9, 263], [9, 295], [9, 327], [9, 359], [9, 391], [9, 423], [9, 455], [9, 487],
    [0, 0], [9, 41], [9, 73], [9, 105], [9, 137], [9, 169], [9, 201], [9, 233],
    [9, 265], [9, 297], [9, 329], [9, 361], [9, 393], [9, 425], [9, 457], [9, 489],
    [0, 0], [9, 43], [9, 75], [9, 107], [9, 139], [9, 171], [9, 203], [9, 235],
    [9, 267], [9, 299], [9, 331], [9, 363], [9, 395], [9, 427], [9, 459], [9, 491],
    [0, 0], [9, 45], [9, 77], [9, 109], [9, 141], [9, 173], [9, 205], [9, 237],
    [9, 269], [9, 301], [9, 333], [9, 365], [9, 397], [9, 429], [9, 461], [9, 493],
    [0, 0], [9, 47], [9, 79], [9, 111], [9, 143], [9, 175], [9, 207], [9, 239],
    [9, 271], [9, 303], [9, 335], [9, 367], [9, 399], [9, 431], [9, 463], [9, 495],
    [0, 0], [9, 49], [9, 81], [9, 113], [9, 145], [9, 177], [9, 209], [9, 241],
    [9, 273], [9, 305], [9, 337], [9, 369], [9, 401], [9, 433], [9, 465], [9, 497],
    [0, 0], [9, 51], [9, 83], [9, 115], [9, 147], [9, 179], [9, 211], [9, 243],
    [9, 275], [9, 307], [9, 339], [9, 371], [9, 403], [9, 435], [9, 467], [9, 499],
    [0, 0], [9, 53], [9, 85], [9, 117], [9, 149], [9, 181], [9, 213], [9, 245],
    [9, 277], [9, 309], [9, 341], [9, 373], [9, 405], [9, 437], [9, 469], [9, 501],
    [0, 0], [9, 55], [9, 87], [9, 119], [9, 151], [9, 183], [9, 215], [9, 247],
    [9, 279], [9, 311], [9, 343], [9, 375], [9, 407], [9, 439], [9, 471], [9, 503],
    [0, 0], [9, 57], [9, 89], [9, 121], [9, 153], [9, 185], [9, 217], [9, 249],
    [9, 281], [9, 313], [9, 345], [9, 377], [9, 409], [9, 441], [9, 473], [9, 505],
    [0, 0], [9, 59], [9, 91], [9, 123], [9, 155], [9, 187], [9, 219], [9, 251],
    [9, 283], [9, 315], [9, 347], [9, 379], [9, 411], [9, 443], [9, 475], [9, 507],
    [0, 0], [9, 61], [9, 93], [9, 125], [9, 157], [9, 189], [9, 221], [9, 253],
    [9, 285], [9, 317], [9, 349], [9, 381], [9, 413], [9, 445], [9, 477], [9, 509],
    [2, 2], [9, 63], [9, 95], [9, 127], [9, 159], [9, 191], [9, 223], [9, 255],
    [9, 287], [9, 319], [9, 351], [9, 383], [9, 415], [9, 447], [9, 479], [9, 511],
];

/// The marker-bit polarity a DC table selects: the luminance tables mark
/// category bits with 1, the chrominance tables with 0.
pub open spec fn marker_of(dc_table: [[u16; 2]; 16]) -> bool {
    dc_table@ == LUMINANCE_DC_HUFFMAN_CODES@
}

/// The table pairs the coder accepts: the luminance pair or the chrominance
/// pair.
pub open spec fn tables_wf(dc_table: [[u16; 2]; 16], ac_table: [[u16; 2]; 256]) -> bool {
    ||| (dc_table@ == LUMINANCE_DC_HUFFMAN_CODES@ && ac_table@ == LUMINANCE_AC_HUFFMAN_CODES@)
    ||| (dc_table@ == CHROMINANCE_DC_HUFFMAN_CODES@ && ac_table@ == CHROMINANCE_AC_HUFFMAN_CODES@)
}

/// The zigzag sequence a 64-long coefficient array denotes.
pub open spec fn zig_view(b: [i32; 64]) -> Seq<int> {
    Seq::new(64, |k: int| b@[k] as int)
}

/// The zigzag sequences a list of coefficient arrays denotes.
pub open spec fn zigs_view(s: Seq<[i32; 64]>) -> Seq<Seq<int>> {
    Seq::new(s.len(), |k: int| zig_view(s[k]))
}

/// A value below `2^n` has category at most `n`.
pub proof fn lemma_cat_le(a: nat, n: nat)
    requires
        a < p2(n),
    ensures
        cat_abs(a) <= n,
    decreases n,
{
    if a > 0 {
        assert(n >= 1);
        assert(a / 2 < p2((n - 1) as nat)) by (nonlinear_arith)
            requires a < 2 * p2((n - 1) as nat);
        lemma_cat_le(a / 2, (n - 1) as nat);
    }
}

/// Powers of two grow with the exponent.
pub proof fn lemma_p2_mono(a: nat, b: nat)
    requires
        a <= b,
    ensures
        p2(a) <= p2(b),
    decreases b,
{
    if a < b {
        lemma_p2_mono(a, (b - 1) as nat);
    }
}

/// 2^n, executable, for field widths up to 16 bits.
fn p2_exec(n: u32) -> (p: u32)
    requires
        n <= 16,
    ensures
        p as nat == p2(n as nat),
    decreases n,
{
    proof {
        reveal_with_fuel(p2, 18);
        lemma_p2_mono(n as nat, 16);
    }
    if n == 0 {
        1
    } else {
        2 * p2_exec(n - 1)
    }
}

/// The magnitude category of a value, executable.
fn cat_abs_exec(a: u32) -> (c: u32)
    ensures
        c as nat == cat_abs(a as nat),
    decreases a,
{
    proof {
        reveal_with_fuel(p2, 34);
        lemma_cat_le(a as nat, 32);
    }
    if a == 0 {
        0
    } else {
        1 + cat_abs_exec(a / 2)
    }
}

/// The category of a signed coefficient, executable.
fn cat_exec(v: i32) -> (c: u32)
    requires
        wf_coeff(v as int),
    ensures
        c as nat == cat_of(v as int),
{
    let a: u32 = if v < 0 {
        (-v) as u32
    } else {
        v as u32
    };
    cat_abs_exec(a)
}

/// The magnitude-bit value of a coefficient, executable.
fn mag_exec(v: i32, c: u32) -> (m: u32)
    requires
        wf_coeff(v as int),
        c as nat == cat_of(v as int),
    ensures
        m as nat == mag_val(v as int),
{
    proof {
        lemma_mag(v as int);
    }
    if v >= 0 {
        v as u32
    } else {
        let p = p2_exec(c);
        ((v - 1) + p as i32) as u32
    }
}

/// Append the `n`-bit field for `m`, least-significant bit first.
fn push_bits(out: &mut Vec<bool>, m: u32, n: u32) -> (u: ())
    ensures
        final(out)@ == old(out)@ + bits_of(m as nat, n as nat),
    decreases n,
{
    if n == 0 {
        assert(out@ =~= out@ + bits_of(m as nat, 0));
    } else {
        let ghost pre = out@;
        out.push(m % 2 == 1);
        push_bits(out, m / 2, n - 1);
        assert(out@ =~= pre + bits_of(m as nat, n as nat));
    }
}

/// Append `n` copies of the bit `b`.
fn push_rep(out: &mut Vec<bool>, b: bool, n: u32) -> (u: ())
    ensures
        final(out)@ == old(out)@ + rep_bit(b, n as nat),
    decreases n,
{
    if n == 0 {
        assert(out@ =~= out@ + rep_bit(b, 0));
    } else {
        let ghost pre = out@;
        out.push(b);
        push_rep(out, b, n - 1);
        assert(out@ =~= pre + rep_bit(b, n as nat));
    }
}

/// The number of zeros at position `i` before the next nonzero coefficient,
/// executable.
fn next_run(b: &[i32; 64], i: usize) -> (r: usize)
    requires
        i <= 64,
    ensures
        r as nat == run_at(zig_view(*b), i as int),
        i + r <= 64,
    decreases 64 - i,
{
    if i >= 64 {
        0
    } else if b[i] != 0 {
        0
    } else {
        1 + next_run(b, i + 1)
    }
}

/// Append the encoding of one zigzag sequence.
fn encode_block(out: &mut Vec<bool>, b: &[i32; 64], pol: bool) -> (u: ())
    requires
        wf_zigzag(zig_view(*b)),
    ensures
        final(out)@ == old(out)@ + enc_block(pol, zig_view(*b)),
{
    let ghost bv = zig_view(*b);
    let ghost pre = out@;
    let dc = b[0];
    proof {
        assert(dc as int == bv[0]);
    }
    let c = cat_exec(dc);
    proof {
        lemma_mag(dc as int);
        lemma_rep_len(pol, c as nat);
        lemma_bits_of_len(mag_val(dc as int), c as nat);
    }
    push_rep(out, pol, c);
    out.push(!pol);
    let mv = mag_exec(dc, c);
    push_bits(out, mv, c);
    let ghost header = pre + dc_code(pol, cat_of(bv[0])) + bits_of(mag_val(bv[0]), cat_of(bv[0]));
    assert(out@ =~= header);
    let mut i: usize = 1;
    while i < 64
        invariant
            wf_zigzag(bv),
            bv == zig_view(*b),
            1 <= i <= 64,
            out@ + enc_ac(pol, bv, i as int) == header + enc_ac(pol, bv, 1),
        decreases 64 - i as int,
    {
        proof {
            lemma_run_at(bv, i as int);
        }
        let ghost pre_ac = out@;
        let r = next_run(b, i);
        if r >= 64 - i {
            out.push(pol);
            out.push(false);
            proof {
                assert(enc_ac(pol, bv, i as int) == eob_code(pol));
                assert(out@ =~= pre_ac + eob_code(pol));
                assert(out@ + enc_ac(pol, bv, 64) =~= pre_ac + enc_ac(pol, bv, i as int));
            }
            i = 64;
        } else if r >= 16 {
            out.push(pol);
            out.push(true);
            proof {
                assert(enc_ac(pol, bv, i as int) == zrl_code(pol) + enc_ac(pol, bv, i as int + 16));
                assert(out@ =~= pre_ac + zrl_code(pol));
                assert(out@ + enc_ac(pol, bv, i as int + 16) =~= pre_ac + enc_ac(pol, bv, i as int));
            }
            i = i + 16;
        } else {
            let v = b[i + r];
            proof {
                assert(v as int == bv[i as int + r as int]);
            }
            let vc = cat_exec(v);
            proof {
                lemma_mag(v as int);
                lemma_bits_of_len(r as nat, 4);
                lemma_bits_of_len(vc as nat, 4);
                lemma_bits_of_len(mag_val(v as int), vc as nat);
            }
            out.push(!pol);
            push_bits(out, r as u32, 4);
            push_bits(out, vc, 4);
            let mv2 = mag_exec(v, vc);
            push_bits(out, mv2, vc);
            proof {
                assert(enc_ac(pol, bv, i as int) == ac_pair_code(pol, r as nat, cat_of(bv[i + r]))
                    + bits_of(mag_val(bv[i + r]), cat_of(bv[i + r]))
                    + enc_ac(pol, bv, i as int + r as int + 1));
                assert(out@ =~= pre_ac + ac_pair_code(pol, r as nat, cat_of(bv[i + r]))
                    + bits_of(mag_val(bv[i + r]), cat_of(bv[i + r])));
                assert(out@ + enc_ac(pol, bv, i as int + r as int + 1)
                    =~= pre_ac + enc_ac(pol, bv, i as int));
            }
            i = i + r + 1;
        }
    }
    proof {
        assert(enc_ac(pol, bv, 64) =~= Seq::<bool>::empty());
        assert(out@ =~= out@ + enc_ac(pol, bv, 64));
        assert(out@ =~= pre + enc_block(pol, bv));
    }
}

/// Appending one more block to a list extends its encoding at the end.
#[verifier::rlimit(100)]
pub proof fn lemma_enc_blocks_snoc(pol: bool, bs: Seq<Seq<int>>, b: Seq<int>)
    ensures
        enc_blocks(pol, bs.push(b)) == enc_blocks(pol, bs) + enc_block(pol, b),
    decreases bs.len(),
{
    if bs.len() == 0 {
        assert(bs.push(b)[0] == b);
        assert(bs.push(b).drop_first() =~= Seq::<Seq<int>>::empty());
        assert(enc_blocks(pol, bs.push(b)) == enc_block(pol, b) + enc_blocks(pol, Seq::empty()));
        assert(enc_block(pol, b) + enc_blocks(pol, Seq::<Seq<int>>::empty()) =~= enc_block(pol, b));
        assert(enc_blocks(pol, bs) + enc_block(pol, b) =~= enc_block(pol, b));
    } else {
        assert(bs.push(b).drop_first() =~= bs.drop_first().push(b));
        lemma_enc_blocks_snoc(pol, bs.drop_first(), b);
        assert(bs.push(b)[0] == bs[0]);
        assert(enc_blocks(pol, bs.push(b))
            == enc_block(pol, bs[0]) + (enc_blocks(pol, bs.drop_first()) + enc_block(pol, b)));
        assert(enc_block(pol, bs[0]) + (enc_blocks(pol, bs.drop_first()) + enc_block(pol, b))
            =~= (enc_block(pol, bs[0]) + enc_blocks(pol, bs.drop_first())) + enc_block(pol, b));
    }
}

/// Encode a list of zigzag sequences into one bitstream: for each block the
/// DC category code and magnitude bits, then the run-length AC symbols with
/// their magnitude bits, closed by an end-of-block code once the rest of the
/// block is zero.
pub fn huffman_encode(
    blocks: &Vec<[i32; 64]>,
    dc_table: &[[u16; 2]; 16],
    ac_table: &[[u16; 2]; 256],
) -> (r: Vec<bool>)
    requires
        tables_wf(*dc_table, *ac_table),
        wf_zigzags(zigs_view(blocks@)),
    ensures
        r@ == enc_blocks(marker_of(*dc_table), zigs_view(blocks@)),
{
    let pol = dc_table[0][1] == 0;
    proof {
        assert(LUMINANCE_DC_HUFFMAN_CODES@[0]@[1] == 0);
        assert(CHROMINANCE_DC_HUFFMAN_CODES@[0]@[1] == 1);
        assert(pol == marker_of(*dc_table));
    }
    let mut out: Vec<bool> = Vec::new();
    let mut k: usize = 0;
    while k < blocks.len()
        invariant
            wf_zigzags(zigs_view(blocks@)),
            k <= blocks@.len(),
            out@ == enc_blocks(pol, zigs_view(blocks@.subrange(0, k as int))),
        decreases blocks@.len() - k as int,
    {
        proof {
            assert(zigs_view(blocks@)[k as int] == zig_view(blocks@[k as int]));
        }
        encode_block(&mut out, &blocks[k], pol);
        proof {
            lemma_enc_blocks_snoc(pol, zigs_view(blocks@.subrange(0, k as int)), zig_view(blocks@[k as int]));
            assert(zigs_view(blocks@.subrange(0, k as int + 1))
                =~= zigs_view(blocks@.subrange(0, k as int)).push(zig_view(blocks@[k as int])));
        }
        k = k + 1;
    }
    proof {
        assert(blocks@.subrange(0, blocks@.len() as int) =~= blocks@);
    }
    out
}


/// Small powers of two, unfolded once for the helpers below.
pub proof fn lemma_p2_facts()
    ensures
        p2(4) == 16,
        p2(15) == 32768,
        p2(16) == 65536,
{
    reveal_with_fuel(p2, 18);
}

/// A successful comma-code read lands exactly after the code, inside the
/// stream.
pub proof fn lemma_dec_unary_bound(pol: bool, bits: Seq<bool>, i: int)
    ensures
        dec_unary(pol, bits, i) matches Some((c, j)) ==> j == i + c + 1 && j <= bits.len(),
    decreases bits.len() - i,
{
    if 0 <= i < bits.len() && bits[i] == pol {
        lemma_dec_unary_bound(pol, bits, i + 1);
    }
}

/// A successful field read yields a value that fits the field and lands
/// exactly after it, inside the stream.
pub proof fn lemma_dec_bits_bound(bits: Seq<bool>, i: int, n: nat)
    requires
        0 <= i <= bits.len(),
    ensures
        dec_bits(bits, i, n) matches Some((v, j)) ==> v < p2(n) && j == i + n && j <= bits.len(),
    decreases n,
{
    if n > 0 && i < bits.len() {
        lemma_dec_bits_bound(bits, i + 1, (n - 1) as nat);
    }
}

/// Read a comma code, executable.
fn dec_unary_exec(bits: &Vec<bool>, pol: bool, i: usize) -> (r: Option<(usize, usize)>)
    requires
        i <= bits@.len(),
    ensures
        r is None ==> dec_unary(pol, bits@, i as int) is None,
        r matches Some((c, j)) ==> dec_unary(pol, bits@, i as int) == Some((c as nat, j as int))
            && j <= bits@.len(),
    decreases bits@.len() - i as int,
{
    if i >= bits.len() {
        None
    } else if bits[i] == pol {
        match dec_unary_exec(bits, pol, i + 1) {
            None => None,
            Some((c, j)) => {
                proof {
                    lemma_dec_unary_bound(pol, bits@, i as int + 1);
                }
                Some((c + 1, j))
            },
        }
    } else {
        Some((0, i + 1))
    }
}

/// Read an `n`-bit field, least-significant bit first, executable.
#[verifier::rlimit(100)]
#[verifier::spinoff_prover]
fn dec_bits_exec(bits: &Vec<bool>, i: usize, n: u32) -> (r: Option<(u32, usize)>)
    requires
        n <= 16,
        i <= bits@.len(),
    ensures
        r is None ==> dec_bits(bits@, i as int, n as nat) is None,
        r matches Some((v, j)) ==> dec_bits(bits@, i as int, n as nat) == Some((v as nat, j as int))
            && (v as nat) < p2(n as nat) && j <= bits@.len(),
    decreases n,
{
    proof {
        lemma_p2_facts();
        lemma_p2_mono(n as nat, 16);
        if n > 0 {
            lemma_p2_mono((n - 1) as nat, 16);
        }
        lemma_dec_bits_bound(bits@, i as int, n as nat);
    }
    if n == 0 {
        Some((0, i))
    } else if i >= bits.len() {
        None
    } else {
        match dec_bits_exec(bits, i + 1, n - 1) {
            None => None,
            Some((v, j)) => Some((2 * v + (if bits[i] { 1 } else { 0 }), j)),
        }
    }
}

/// Recover a coefficient from its category and magnitude value, executable.
#[verifier::rlimit(100)]
#[verifier::spinoff_prover]
fn dec_mag_exec(c: u32, m: u32) -> (v: i32)
    requires
        c <= 15,
        (m as nat) < p2(c as nat),
    ensures
        v as int == dec_mag(c as nat, m as nat),
        wf_coeff(v as int),
{
    proof {
        lemma_p2_facts();
        lemma_p2_mono(c as nat, 15);
        if c > 0 {
            lemma_p2_mono((c - 1) as nat, 15);
        }
    }
    if c == 0 {
        0
    } else {
        let half = p2_exec(c - 1);
        if m >= half {
            m as i32
        } else {
            let full = p2_exec(c);
            m as i32 + 1 - full as i32
        }
    }
}
} // verus!
