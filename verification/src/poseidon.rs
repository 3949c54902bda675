//! The Poseidon permutation and the hash built on it.
//!
//! The permutation runs a fixed schedule of rounds over a state vector of
//! field elements; each round adds round constants, applies the fifth-power
//! S-box (to the whole state in a full round, to slot 0 only in a partial
//! round) and mixes the state through the MDS matrix. The whole round
//! schedule is modelled by spec functions over sequences of canonical field
//! values, and every executable step is proved to follow that model.

use vstd::prelude::*;
use vstd::pervasive::VecAdditionalExecFns;
use vstd::arithmetic::div_mod::{
    lemma_add_mod_noop, lemma_mul_mod_noop_general,
    lemma_mul_mod_noop_left, lemma_small_mod, lemma_mod_bound, lemma_fundamental_div_mod,
};
use vstd::arithmetic::power2::{
    pow2, lemma_pow2_unfold, lemma2_to64, lemma2_to64_rest, lemma_pow2_adds, lemma_pow2_strictly_increases,
};
use vstd::string::StrSliceExecFns;
use crate::field::{FieldElement, fr_val, fr_order, fr_add, fr_mul, fr_square, is_decimal,
    decimal_value};

verus! {

/// The sponge interface of the hash.
pub trait Sponge {
    fn absorb();

    fn squeeze();

    fn hash();
}

/// The hash mode: it selects the domain tag placed in state slot 0, so the
/// same permutation cannot be confused across usages.
#[derive(PartialEq, Eq, Structural, Clone, Copy, Debug)]
pub enum PoseidonHashType {
    MerkleTree,
    ConstInputLen,
}

/// The two configuration failures: a state width with no table entry, and a
/// table entry that does not parse as a field element.
#[derive(PartialEq, Eq, Structural, Clone, Copy, Debug)]
pub enum PoseidonError {
    UnsupportedWidth,
    MalformedConstant,
}

/// The precomputed constants, indexed by state width `t`: for each width a
/// flat list of decimal-encoded round constants and a square `t x t`
/// decimal-encoded MDS matrix.
pub struct ConstantsTable {
    pub round_constants: Vec<Vec<String>>,
    pub mds_matrices: Vec<Vec<Vec<String>>>,
}

/// The per-width parameters of the permutation.
pub struct PoseidonParams {
    t: usize,
    alpha: usize,
    num_f: usize,
    num_p: usize,
    pub mds_matrix: Vec<Vec<FieldElement>>,
    pub round_constants: Vec<FieldElement>,
}

/// Modular addition in the scalar field.
pub open spec fn fadd(a: nat, b: nat) -> nat {
    (a + b) % fr_order()
}

/// Modular multiplication in the scalar field.
pub open spec fn fmul(a: nat, b: nat) -> nat {
    (a * b) % fr_order()
}

/// The S-box: the fifth power in the scalar field.
pub open spec fn pow5(x: nat) -> nat {
    (x * x * x * x * x) % fr_order()
}

impl PoseidonParams {
    /// State width.
    pub closed spec fn spec_t(self) -> nat {
        self.t as nat
    }

    /// S-box exponent.
    pub closed spec fn spec_alpha(self) -> nat {
        self.alpha as nat
    }

    /// Number of full rounds.
    pub closed spec fn spec_num_f(self) -> nat {
        self.num_f as nat
    }

    /// Number of partial rounds.
    pub closed spec fn spec_num_p(self) -> nat {
        self.num_p as nat
    }

    /// The MDS matrix as canonical values, row-major.
    pub closed spec fn spec_mds(self) -> Seq<Seq<nat>> {
        self.mds_matrix@.map_values(|row: Vec<FieldElement>| row@.map_values(|x: FieldElement| fr_val(x)))
    }

    /// The flat round-constant list as canonical values.
    pub closed spec fn spec_rc(self) -> Seq<nat> {
        self.round_constants@.map_values(|x: FieldElement| fr_val(x))
    }

    /// Well-formedness: the policy constants are pinned, the MDS matrix is
    /// square of size `t`, the round-constant list holds exactly one constant
    /// per state slot per round, and every constant is a reduced field value.
    pub open spec fn wf(self) -> bool {
        &&& self.spec_t() >= 1
        &&& self.spec_alpha() == 5
        &&& self.spec_num_f() == 57
        &&& self.spec_num_p() == 8
        &&& self.spec_mds().len() == self.spec_t()
        &&& (forall|i: int| 0 <= i < self.spec_t() ==> (#[trigger] self.spec_mds()[i]).len() == self.spec_t())
        &&& self.spec_rc().len() == self.spec_t() * (self.spec_num_f() + self.spec_num_p())
        &&& (forall|k: int| 0 <= k < self.spec_rc().len() ==> #[trigger] self.spec_rc()[k] < fr_order())
        &&& (forall|i: int, j: int|
            0 <= i < self.spec_t() && 0 <= j < self.spec_t()
                ==> #[trigger] self.spec_mds()[i][j] < fr_order())
    }

    /// Builds the parameters for width `t` from the table: the policy
    /// constants (`alpha = 5`, 57 full rounds, 8 partial rounds) and the
    /// parsed per-width constants.
    pub fn new(t: usize, table: &ConstantsTable) -> (r: Result<PoseidonParams, PoseidonError>)
        requires
            t >= 1,
        ensures
            r is Ok <==> constants_well_formed(*table, t as nat),
            match r {
                Ok(p) => {
                    &&& p.wf()
                    &&& p.spec_t() == t
                    &&& rc_parsed(*table, t as nat, p.spec_rc())
                    &&& mds_parsed(*table, t as nat, p.spec_mds())
                },
                Err(e) => {
                    &&& (e == PoseidonError::UnsupportedWidth <==> !width_supported(
                        *table,
                        t as nat,
                    ))
                    &&& (e == PoseidonError::MalformedConstant <==> width_supported(
                        *table,
                        t as nat,
                    ) && !constants_well_formed(*table, t as nat))
                },
            },
    {
        let (mds_matrix, round_constants) = match load_constants(t, 57, 8, table) {
            Ok(p) => p,
            Err(e) => {
                return Err(e);
            },
        };
        let params = PoseidonParams { t, alpha: 5, num_f: 57, num_p: 8, mds_matrix, round_constants };
        proof {
            assert forall|k: int| 0 <= k < params.spec_rc().len() implies #[trigger] params.spec_rc()[k]
                < fr_order() by {
                lemma_mod_bound(
                    decimal_value(table.round_constants@[t as int]@[k]@) as int,
                    fr_order() as int,
                );
            }
            assert forall|i: int, j: int|
                0 <= i < params.spec_t() && 0 <= j < params.spec_t() implies #[trigger] params.spec_mds()[i][j]
                < fr_order() by {
                lemma_mod_bound(
                    decimal_value(table.mds_matrices@[t as int]@[i]@[j]@) as int,
                    fr_order() as int,
                );
            }
        }
        Ok(params)
    }

    fn alpha(&self) -> (r: usize)
        ensures
            r == self.spec_alpha(),
    {
        self.alpha
    }

    fn width(&self) -> (r: usize)
        ensures
            r == self.spec_t(),
    {
        self.t
    }

    fn num_f(&self) -> (r: usize)
        ensures
            r == self.spec_num_f(),
    {
        self.num_f
    }

    fn num_p(&self) -> (r: usize)
        ensures
            r == self.spec_num_p(),
    {
        self.num_p
    }
}

/// The table has an entry for width `t` with enough round constants and a
/// full `t x t` matrix.
pub open spec fn width_supported(table: ConstantsTable, t: nat) -> bool {
    &&& t < table.round_constants@.len()
    &&& t < table.mds_matrices@.len()
    &&& table.round_constants@[t as int]@.len() >= t * 65
    &&& table.mds_matrices@[t as int]@.len() >= t
    &&& (forall|i: int|
        0 <= i < t ==> (#[trigger] table.mds_matrices@[t as int]@[i])@.len() >= t)
}

/// The width is supported and every constant the width needs is a plain
/// decimal string.
pub open spec fn constants_well_formed(table: ConstantsTable, t: nat) -> bool {
    &&& width_supported(table, t)
    &&& (forall|k: int|
        0 <= k < t * 65 ==> is_decimal((#[trigger] table.round_constants@[t as int]@[k])@))
    &&& (forall|i: int, j: int|
        0 <= i < t && 0 <= j < t ==> is_decimal(
            (#[trigger] table.mds_matrices@[t as int]@[i]@[j])@,
        ))
}

/// `rc` is exactly the parsed round-constant list of width `t`.
pub open spec fn rc_parsed(table: ConstantsTable, t: nat, rc: Seq<nat>) -> bool {
    &&& rc.len() == t * 65
    &&& (forall|k: int|
        0 <= k < t * 65 ==> #[trigger] rc[k] == decimal_value(
            table.round_constants@[t as int]@[k]@,
        ) % fr_order())
}

/// `m` is exactly the parsed MDS matrix of width `t`.
pub open spec fn mds_parsed(table: ConstantsTable, t: nat, m: Seq<Seq<nat>>) -> bool {
    &&& m.len() == t
    &&& (forall|i: int| 0 <= i < t ==> (#[trigger] m[i]).len() == t)
    &&& (forall|i: int, j: int|
        0 <= i < t && 0 <= j < t ==> #[trigger] m[i][j] == decimal_value(
            table.mds_matrices@[t as int]@[i]@[j]@,
        ) % fr_order())
}

/// Whether `s` is a non-empty string of decimal digits, executably.
fn check_decimal(s: &str) -> (r: bool)
    ensures
        r == is_decimal(s@),
{
    let n = s.unicode_len();
    if n == 0 {
        return false;
    }
    for i in 0..n
        invariant
            n == s@.len(),
            forall|k: int| 0 <= k < i ==> 48 <= (#[trigger] s@[k]) as u32 <= 57,
    {
        let c = s.get_char(i);
        let cu = c as u32;
        if cu < 48 || cu > 57 {
            return false;
        }
    }
    true
}

/// Slices the round constants and the MDS matrix for width `t` out of the
/// table, parsing each decimal string into a field element.
fn load_constants(t: usize, num_f: usize, num_p: usize, table: &ConstantsTable) -> (r: Result<
    (Vec<Vec<FieldElement>>, Vec<FieldElement>),
    PoseidonError,
>)
    requires
        t >= 1,
        num_f == 57,
        num_p == 8,
    ensures
        match r {
            Ok(p) => {
                &&& constants_well_formed(*table, t as nat)
                &&& mds_parsed(
                    *table,
                    t as nat,
                    p.0@.map_values(
                        |row: Vec<FieldElement>| row@.map_values(|x: FieldElement| fr_val(x)),
                    ),
                )
                &&& rc_parsed(*table, t as nat, p.1@.map_values(|x: FieldElement| fr_val(x)))
            },
            Err(e) => {
                &&& !constants_well_formed(*table, t as nat)
                &&& (e == PoseidonError::UnsupportedWidth <==> !width_supported(
                    *table,
                    t as nat,
                ))
                &&& (e == PoseidonError::MalformedConstant <==> width_supported(
                    *table,
                    t as nat,
                ))
            },
        },
{
    if t >= table.round_constants.len() || t >= table.mds_matrices.len() {
        return Err(PoseidonError::UnsupportedWidth);
    }
    let c_str = &table.round_constants[t];
    let m_str = &table.mds_matrices[t];
    if c_str.len() / 65 < t {
        proof {
            let l = c_str@.len() as int;
            lemma_fundamental_div_mod(l, 65);
            lemma_mod_bound(l, 65);
            assert(l < t * 65) by (nonlinear_arith)
                requires
                    l == 65 * (l / 65) + l % 65,
                    0 <= l % 65 < 65,
                    l / 65 < t,
            ;
        }
        return Err(PoseidonError::UnsupportedWidth);
    }
    proof {
        let l = c_str@.len() as int;
        lemma_fundamental_div_mod(l, 65);
        lemma_mod_bound(l, 65);
        assert(l >= t * 65) by (nonlinear_arith)
            requires
                l == 65 * (l / 65) + l % 65,
                0 <= l % 65,
                l / 65 >= t,
        ;
    }
    if m_str.len() < t {
        return Err(PoseidonError::UnsupportedWidth);
    }
    for i in 0..t
        invariant
            t < table.mds_matrices@.len(),
            m_str == &table.mds_matrices@[t as int],
            m_str@.len() >= t,
            forall|k: int| 0 <= k < i ==> (#[trigger] m_str@[k])@.len() >= t,
    {
        if m_str[i].len() < t {
            return Err(PoseidonError::UnsupportedWidth);
        }
    }
    let needed = t * (num_f + num_p);
    let mut round_constants: Vec<FieldElement> = Vec::with_capacity(needed);
    for k in 0..needed
        invariant
            t < table.round_constants@.len(),
            c_str == &table.round_constants@[t as int],
            needed == t * 65,
            needed <= c_str@.len(),
            width_supported(*table, t as nat),
            round_constants@.len() == k,
            forall|q: int| 0 <= q < k ==> is_decimal((#[trigger] c_str@[q])@),
            forall|q: int|
                0 <= q < k ==> fr_val(#[trigger] round_constants@[q]) == decimal_value(
                    c_str@[q]@,
                ) % fr_order(),
    {
        let s: &String = &c_str[k];
        if !check_decimal(s.as_str()) {
            return Err(PoseidonError::MalformedConstant);
        }
        let a = FieldElement::from_decimal(s.as_str());
        round_constants.push(a);
    }
    let mut mds: Vec<Vec<FieldElement>> = Vec::new();
    for i in 0..t
        invariant
            t < table.mds_matrices@.len(),
            m_str == &table.mds_matrices@[t as int],
            width_supported(*table, t as nat),
            forall|k: int| 0 <= k < t ==> (#[trigger] m_str@[k])@.len() >= t,
            mds@.len() == i,
            forall|a: int| 0 <= a < i ==> (#[trigger] mds@[a])@.len() == t,
            forall|a: int, b: int|
                0 <= a < i && 0 <= b < t ==> is_decimal((#[trigger] m_str@[a]@[b])@),
            forall|a: int, b: int|
                0 <= a < i && 0 <= b < t ==> fr_val(#[trigger] mds@[a]@[b]) == decimal_value(
                    m_str@[a]@[b]@,
                ) % fr_order(),
    {
        let mut mds_i: Vec<FieldElement> = Vec::with_capacity(t);
        for j in 0..t
            invariant
                t < table.mds_matrices@.len(),
                m_str == &table.mds_matrices@[t as int],
                width_supported(*table, t as nat),
                forall|k: int| 0 <= k < t ==> (#[trigger] m_str@[k])@.len() >= t,
                0 <= i < t,
                mds_i@.len() == j,
                forall|b: int| 0 <= b < j ==> is_decimal((#[trigger] m_str@[i as int]@[b])@),
                forall|b: int|
                    0 <= b < j ==> fr_val(#[trigger] mds_i@[b]) == decimal_value(
                        m_str@[i as int]@[b]@,
                    ) % fr_order(),
        {
            let s: &String = &m_str[i][j];
            if !check_decimal(s.as_str()) {
                return Err(PoseidonError::MalformedConstant);
            }
            mds_i.push(FieldElement::from_decimal(s.as_str()));
        }
        mds.push(mds_i);
    }
    Ok((mds, round_constants))
}

/// The total number of rounds of the schedule.
pub open spec fn total_rounds(p: PoseidonParams) -> nat {
    p.spec_num_f() + p.spec_num_p()
}

/// One constant-addition step: each state slot gets the next round constant.
pub open spec fn add_round_constants_spec(s: Seq<nat>, rc: Seq<nat>, round: int) -> Seq<nat> {
    Seq::new(s.len(), |k: int| fadd(s[k], rc[round * s.len() as int + k]))
}

/// Round classification: the partial rounds form the contiguous band
/// `[num_p / 2, num_p / 2 + num_f]`; everything outside it is a full round.
pub open spec fn is_full_round(round: int, num_p: int, num_f: int) -> bool {
    round < num_p / 2 || round > num_p / 2 + num_f
}

/// One S-box step: the fifth power on the whole state in a full round, on
/// slot 0 only in a partial round.
pub open spec fn sbox_spec(s: Seq<nat>, full: bool) -> Seq<nat> {
    if full {
        s.map_values(|x: nat| pow5(x))
    } else {
        s.update(0, pow5(s[0]))
    }
}

/// The integer dot product of the first `j` entries of `row` and `s`.
pub open spec fn dot(row: Seq<nat>, s: Seq<nat>, j: int) -> nat
    decreases j,
{
    if j <= 0 {
        0
    } else {
        dot(row, s, j - 1) + s[j - 1] * row[j - 1]
    }
}

/// One mixing step: the matrix-vector product with the MDS matrix, reduced
/// in the scalar field.
pub open spec fn mix_spec(m: Seq<Seq<nat>>, s: Seq<nat>) -> Seq<nat> {
    Seq::new(s.len(), |i: int| dot(m[i], s, s.len() as int) % fr_order())
}

/// One round: constant addition, then the S-box layer, then mixing.
pub open spec fn round_spec(p: PoseidonParams, s: Seq<nat>, round: int) -> Seq<nat> {
    mix_spec(
        p.spec_mds(),
        sbox_spec(
            add_round_constants_spec(s, p.spec_rc(), round),
            is_full_round(round, p.spec_num_p() as int, p.spec_num_f() as int),
        ),
    )
}

/// The state after the first `rounds` rounds of the schedule.
pub open spec fn permutation_spec(p: PoseidonParams, s: Seq<nat>, rounds: int) -> Seq<nat>
    decreases rounds,
{
    if rounds <= 0 {
        s
    } else {
        round_spec(p, permutation_spec(p, s, rounds - 1), rounds - 1)
    }
}

/// The digest: slot 1 of the state after the full round schedule.
pub open spec fn hash_spec(p: PoseidonParams, s: Seq<nat>) -> nat {
    permutation_spec(p, s, total_rounds(p) as int)[1]
}

/// The domain tag placed in state slot 0 for an input of length `n`.
pub open spec fn domain_tag(mode: PoseidonHashType, n: nat) -> nat {
    match mode {
        PoseidonHashType::MerkleTree => (pow2(n) + 1) % fr_order(),
        PoseidonHashType::ConstInputLen => (pow2(64) * n) % fr_order(),
    }
}

/// The round classification, executably; used by the S-box dispatch.
pub fn classify_full_round(round_i: usize, num_p: usize, num_f: usize) -> (r: bool)
    requires
        num_p / 2 + num_f <= usize::MAX,
    ensures
        r == is_full_round(round_i as int, num_p as int, num_f as int),
{
    round_i < num_p / 2 || round_i > num_p / 2 + num_f
}

/// A permutation in flight: the state vector of width `t` and the
/// parameters for that width.
pub struct Poseidon {
    state: Vec<FieldElement>,
    params: PoseidonParams,
}

impl Poseidon {
    /// The state as canonical values.
    pub closed spec fn spec_state(self) -> Seq<nat> {
        self.state@.map_values(|x: FieldElement| fr_val(x))
    }

    /// The parameters.
    pub closed spec fn spec_params(self) -> PoseidonParams {
        self.params
    }

    /// Well-formedness: the parameters are well formed for the state's
    /// width, and the state has at least an input slot beside the tag slot.
    pub open spec fn wf(self) -> bool {
        &&& self.spec_params().wf()
        &&& self.spec_state().len() == self.spec_params().spec_t()
        &&& self.spec_params().spec_t() >= 2
    }

    /// The state vector, read-only; slot 0 is the domain-tag slot.
    pub fn state(&self) -> (r: &Vec<FieldElement>)
        ensures
            r@.map_values(|x: FieldElement| fr_val(x)) == self.spec_state(),
    {
        &self.state
    }

    /// The parameters, read-only.
    pub fn params(&self) -> (r: &PoseidonParams)
        ensures
            *r == self.spec_params(),
    {
        &self.params
    }

    /// Prepares a permutation for `input` under `mode`: slot 0 takes the
    /// domain tag, slots 1.. take the input, and the parameters for width
    /// `input.len() + 1` are loaded from the table. Fails before any state
    /// is built when the table cannot serve that width.
    pub fn new(input: Vec<FieldElement>, hash_type: PoseidonHashType, table: &ConstantsTable)
        -> (r: Result<Poseidon, PoseidonError>)
        requires
            1 <= input@.len(),
            input@.len() + 1 <= usize::MAX,
        ensures
            r is Ok <==> constants_well_formed(*table, input@.len() + 1),
            match r {
                Ok(p) => {
                    &&& p.wf()
                    &&& p.spec_params().spec_t() == input@.len() + 1
                    &&& rc_parsed(*table, input@.len() + 1, p.spec_params().spec_rc())
                    &&& mds_parsed(*table, input@.len() + 1, p.spec_params().spec_mds())
                    &&& p.spec_state() == seq![domain_tag(hash_type, input@.len())].add(
                        input@.map_values(|x: FieldElement| fr_val(x)),
                    )
                },
                Err(e) => {
                    &&& (e == PoseidonError::UnsupportedWidth <==> !width_supported(
                        *table,
                        input@.len() + 1,
                    ))
                    &&& (e == PoseidonError::MalformedConstant <==> width_supported(
                        *table,
                        input@.len() + 1,
                    ) && !constants_well_formed(*table, input@.len() + 1))
                },
            },
    {
        let ghost input0 = input@;
        let n = input.len();
        let t = n + 1;
        let params = match PoseidonParams::new(t, table) {
            Ok(p) => p,
            Err(e) => {
                return Err(e);
            },
        };
        let tag = compute_domain_tag(hash_type, n);
        let mut state: Vec<FieldElement> = Vec::with_capacity(t);
        state.push(tag);
        let mut rest = input;
        state.append(&mut rest);
        let pos = Poseidon { state, params };
        proof {
            assert(pos.spec_state() =~= seq![domain_tag(hash_type, n as nat)].add(
                input0.map_values(|x: FieldElement| fr_val(x)),
            ));
        }
        Ok(pos)
    }

    fn add_round_constants(&mut self, ith: usize)
        requires
            old(self).wf(),
            ith < total_rounds(old(self).spec_params()),
        ensures
            final(self).wf(),
            final(self).spec_params() == old(self).spec_params(),
            final(self).spec_state() == add_round_constants_spec(
                old(self).spec_state(),
                old(self).spec_params().spec_rc(),
                ith as int,
            ),
    {
        let t = self.params.width();
        for i in 0..t
            invariant
                old(self).wf(),
                self.params == old(self).params,
                self.state@.len() == old(self).state@.len(),
                t == self.spec_params().spec_t(),
                ith < total_rounds(self.spec_params()),
                forall|k: int|
                    0 <= k < i ==> fr_val(#[trigger] self.state@[k]) == fadd(
                        old(self).spec_state()[k],
                        old(self).spec_params().spec_rc()[ith as int * t as int + k],
                    ),
                forall|k: int|
                    i <= k < self.state@.len() ==> #[trigger] self.state@[k] == old(
                        self,
                    ).state@[k],
        {
            let rc_len = self.params.round_constants.len();
            assert(rc_len == t * 65);
            assert(ith * t + i < t * 65) by (nonlinear_arith)
                requires
                    ith < 65,
                    i < t,
            ;
            let c = fr_add(&self.state[i], &self.params.round_constants[ith * t + i]);
            self.state.set(i, c);
        }
        proof {
            assert(self.spec_state() =~= add_round_constants_spec(
                old(self).spec_state(),
                old(self).spec_params().spec_rc(),
                ith as int,
            ));
        }
    }

    fn sbox_full(&mut self)
        requires
            old(self).wf(),
        ensures
            final(self).wf(),
            final(self).spec_params() == old(self).spec_params(),
            final(self).spec_state() == sbox_spec(old(self).spec_state(), true),
    {
        let t = self.params.width();
        for i in 0..t
            invariant
                old(self).wf(),
                self.params == old(self).params,
                self.state@.len() == old(self).state@.len(),
                t == self.spec_params().spec_t(),
                forall|k: int|
                    0 <= k < i ==> fr_val(#[trigger] self.state@[k]) == pow5(
                        old(self).spec_state()[k],
                    ),
                forall|k: int|
                    i <= k < self.state@.len() ==> #[trigger] self.state@[k] == old(
                        self,
                    ).state@[k],
        {
            let x = fifth_power(&self.state[i]);
            self.state.set(i, x);
        }
        proof {
            assert(self.spec_state() =~= sbox_spec(old(self).spec_state(), true));
        }
    }

    fn sbox_partial(&mut self)
        requires
            old(self).wf(),
        ensures
            final(self).wf(),
            final(self).spec_params() == old(self).spec_params(),
            final(self).spec_state() == sbox_spec(old(self).spec_state(), false),
    {
        let x = fifth_power(&self.state[0]);
        self.state.set(0, x);
        proof {
            assert(self.spec_state() =~= sbox_spec(old(self).spec_state(), false));
        }
    }

    fn sbox(&mut self, round_i: usize)
        requires
            old(self).wf(),
        ensures
            final(self).wf(),
            final(self).spec_params() == old(self).spec_params(),
            final(self).spec_state() == sbox_spec(
                old(self).spec_state(),
                is_full_round(
                    round_i as int,
                    old(self).spec_params().spec_num_p() as int,
                    old(self).spec_params().spec_num_f() as int,
                ),
            ),
    {
        let num_p = self.params.num_p();
        let num_f = self.params.num_f();
        if classify_full_round(round_i, num_p, num_f) {
            self.sbox_full()
        } else {
            self.sbox_partial()
        }
    }

    fn product_mds(&mut self, round_i: usize)
        requires
            old(self).wf(),
        ensures
            final(self).wf(),
            final(self).spec_params() == old(self).spec_params(),
            final(self).spec_state() == mix_spec(
                old(self).spec_params().spec_mds(),
                old(self).spec_state(),
            ),
    {
        let t = self.params.width();
        let mut new_state: Vec<FieldElement> = Vec::with_capacity(t);
        for i in 0..t
            invariant
                old(self).wf(),
                self.params == old(self).params,
                self.state == old(self).state,
                t == self.spec_params().spec_t(),
                new_state@.len() == i,
                forall|k: int|
                    0 <= k < i ==> fr_val(#[trigger] new_state@[k]) == dot(
                        self.spec_params().spec_mds()[k],
                        self.spec_state(),
                        t as int,
                    ) % fr_order(),
        {
            let mut acc = FieldElement::zero();
            proof {
                lemma_small_mod(0nat, fr_order());
            }
            for j in 0..t
                invariant
                    old(self).wf(),
                    self.params == old(self).params,
                    self.state == old(self).state,
                    t == self.spec_params().spec_t(),
                    0 <= i < t,
                    fr_val(acc) == dot(
                        self.spec_params().spec_mds()[i as int],
                        self.spec_state(),
                        j as int,
                    ) % fr_order(),
            {
                let prod = fr_mul(&self.state[j], &self.params.mds_matrix[i][j]);
                let next = fr_add(&acc, &prod);
                proof {
                    let row = self.spec_params().spec_mds()[i as int];
                    let s = self.spec_state();
                    lemma_add_mod_noop(
                        dot(row, s, j as int) as int,
                        (s[j as int] * row[j as int]) as int,
                        fr_order() as int,
                    );
                }
                acc = next;
            }
            new_state.push(acc);
        }
        self.state = new_state;
        proof {
            assert(self.spec_state() =~= mix_spec(
                old(self).spec_params().spec_mds(),
                old(self).spec_state(),
            ));
        }
    }

    /// Runs the full round schedule in place and returns the digest, slot 1
    /// of the final state. The permutation itself cannot fail.
    pub fn hash(&mut self) -> (r: Result<FieldElement, String>)
        requires
            old(self).wf(),
        ensures
            final(self).wf(),
            final(self).spec_params() == old(self).spec_params(),
            final(self).spec_state() == permutation_spec(
                old(self).spec_params(),
                old(self).spec_state(),
                total_rounds(old(self).spec_params()) as int,
            ),
            r is Ok,
            fr_val(r->Ok_0) == hash_spec(old(self).spec_params(), old(self).spec_state()),
    {
        let num_rounds = self.params.num_f() + self.params.num_p();
        for i in 0..num_rounds
            invariant
                self.wf(),
                self.params == old(self).params,
                num_rounds == total_rounds(self.spec_params()),
                self.spec_state() == permutation_spec(
                    old(self).spec_params(),
                    old(self).spec_state(),
                    i as int,
                ),
        {
            self.add_round_constants(i);
            self.sbox(i);
            self.product_mds(i);
        }
        let digest = self.state[1].clone();
        Ok(digest)
    }
}

/// Two to the power `n` as a field element, by repeated doubling.
fn pow2_fr(n: usize) -> (r: FieldElement)
    ensures
        fr_val(r) == pow2(n as nat) % fr_order(),
{
    let mut r = FieldElement::from_u64(1);
    proof {
        lemma2_to64();
        lemma_small_mod(1nat, fr_order());
    }
    for i in 0..n
        invariant
            fr_val(r) == pow2(i as nat) % fr_order(),
    {
        let d = fr_add(&r, &r);
        proof {
            lemma_add_mod_noop(
                pow2(i as nat) as int,
                pow2(i as nat) as int,
                fr_order() as int,
            );
            lemma_pow2_unfold((i + 1) as nat);
        }
        r = d;
    }
    r
}

/// The domain tag for mode `mode` and input length `n`, as a field element.
fn compute_domain_tag(mode: PoseidonHashType, n: usize) -> (r: FieldElement)
    ensures
        fr_val(r) == domain_tag(mode, n as nat),
{
    match mode {
        PoseidonHashType::MerkleTree => {
            let p2 = pow2_fr(n);
            let one = FieldElement::from_u64(1);
            let r = fr_add(&p2, &one);
            proof {
                lemma_small_mod(1nat, fr_order());
                lemma_add_mod_noop(pow2(n as nat) as int, 1, fr_order() as int);
            }
            r
        },
        PoseidonHashType::ConstInputLen => {
            let p64 = pow2_fr(64);
            let nf = FieldElement::from_u64(n as u64);
            let r = fr_mul(&p64, &nf);
            proof {
                lemma_mul_mod_noop_general(pow2(64) as int, n as int, fr_order() as int);
            }
            r
        },
    }
}

/// The fifth power, computed as `((x^2)^2) * x`.
fn fifth_power(x: &FieldElement) -> (r: FieldElement)
    ensures
        fr_val(r) == pow5(fr_val(*x)),
{
    let s2 = fr_square(x);
    let s4 = fr_square(&s2);
    let r = fr_mul(&s4, x);
    proof {
        let v = fr_val(*x) as int;
        let p = fr_order() as int;
        lemma_mul_mod_noop_general(v * v, v * v, p);
        assert((v * v) * (v * v) == v * v * v * v) by (nonlinear_arith);
        lemma_mul_mod_noop_left(v * v * v * v, v, p);
    }
    r
}

/// Determinism: the digest is a function of the parameters and the initial
/// state alone, so two runs over the same input return the same digest.
pub proof fn lemma_hash_deterministic(p: PoseidonParams, s: Seq<nat>, d1: nat, d2: nat)
    requires
        d1 == hash_spec(p, s),
        d2 == hash_spec(p, s),
    ensures
        d1 == d2,
{
}

/// Domain separation at the state level: for any input length the two modes
/// place different tags into state slot 0, so the initial states differ.
/// The Merkle tag is odd, the constant-input-length tag is even, and up to
/// length 253 neither wraps around the modulus.
pub proof fn lemma_domain_tags_differ(n: nat)
    requires
        1 <= n <= 253,
    ensures
        domain_tag(PoseidonHashType::MerkleTree, n) != domain_tag(
            PoseidonHashType::ConstInputLen,
            n,
        ),
{
    lemma2_to64();
    lemma2_to64_rest();
    lemma_pow2_adds(64, 61);
    lemma_pow2_adds(64, 64);
    lemma_pow2_adds(128, 125);
    assert(pow2(128) == 340282366920938463463374607431768211456nat) by (nonlinear_arith)
        requires
            pow2(128) == pow2(64) * pow2(64),
            pow2(64) == 0x10000000000000000nat,
    ;
    assert(pow2(125) == 42535295865117307932921825928971026432nat) by (nonlinear_arith)
        requires
            pow2(125) == pow2(64) * pow2(61),
            pow2(64) == 0x10000000000000000nat,
            pow2(61) == 0x2000000000000000nat,
    ;
    assert(pow2(253) == 14474011154664524427946373126085988481658748083205070504932198000989141204992nat)
        by (nonlinear_arith)
        requires
            pow2(253) == pow2(128) * pow2(125),
            pow2(128) == 340282366920938463463374607431768211456nat,
            pow2(125) == 42535295865117307932921825928971026432nat,
    ;
    if n < 253 {
        lemma_pow2_strictly_increases(n, 253);
    }
    assert(pow2(n) + 1 < fr_order());
    lemma_small_mod(pow2(n) + 1, fr_order());
    vstd::arithmetic::mul::lemma_mul_inequality(n as int, 253, pow2(64) as int);
    assert(pow2(64) * 253 == 4667026250648516558848nat) by (nonlinear_arith)
        requires
            pow2(64) == 0x10000000000000000nat,
    ;
    assert(pow2(64) * n < fr_order());
    lemma_small_mod(pow2(64) * n, fr_order());
    lemma_pow2_unfold(n);
    lemma_pow2_unfold(64);
    assert(pow2(n) + 1 == 2 * pow2((n - 1) as nat) + 1);
    assert(pow2(64) * n == 2 * (pow2(63) * n)) by (nonlinear_arith)
        requires
            pow2(64) == 2 * pow2(63),
    ;
}

/// No round runs out of constants: each of the `num_f + num_p` rounds reads
/// one constant per state slot, and every index it reads lies inside the
/// round-constant list.
pub proof fn lemma_round_constant_index_in_range(p: PoseidonParams, round: int, k: int)
    requires
        p.wf(),
        0 <= round < total_rounds(p),
        0 <= k < p.spec_t(),
    ensures
        0 <= round * p.spec_t() + k < p.spec_rc().len(),
{
    assert(round * p.spec_t() + k < p.spec_t() * 65) by (nonlinear_arith)
        requires
            0 <= round < 65,
            0 <= k < p.spec_t(),
    ;
}

/// No constant is consumed twice: distinct (round, slot) pairs read
/// distinct indices of the round-constant list.
pub proof fn lemma_round_constant_index_unique(
    p: PoseidonParams,
    r1: int,
    k1: int,
    r2: int,
    k2: int,
)
    requires
        p.wf(),
        0 <= r1 < total_rounds(p),
        0 <= k1 < p.spec_t(),
        0 <= r2 < total_rounds(p),
        0 <= k2 < p.spec_t(),
        r1 * p.spec_t() + k1 == r2 * p.spec_t() + k2,
    ensures
        r1 == r2,
        k1 == k2,
{
    assert(r1 == r2 && k1 == k2) by (nonlinear_arith)
        requires
            0 <= k1 < p.spec_t(),
            0 <= k2 < p.spec_t(),
            r1 * p.spec_t() + k1 == r2 * p.spec_t() + k2,
    ;
}

/// No constant is left over: every index of the round-constant list is the
/// one read by round `idx / t` at slot `idx % t`.
pub proof fn lemma_round_constants_all_consumed(p: PoseidonParams, idx: int)
    requires
        p.wf(),
        0 <= idx < p.spec_rc().len(),
    ensures
        0 <= idx / (p.spec_t() as int) < total_rounds(p),
        0 <= idx % (p.spec_t() as int) < p.spec_t(),
        (idx / (p.spec_t() as int)) * p.spec_t() + idx % (p.spec_t() as int) == idx,
{
    let t = p.spec_t() as int;
    lemma_fundamental_div_mod(idx, t);
    lemma_mod_bound(idx, t);
    assert(idx / t < 65) by (nonlinear_arith)
        requires
            t >= 1,
            idx == t * (idx / t) + idx % t,
            0 <= idx % t < t,
            idx < t * 65,
    ;
}

/// The full/partial boundary of the fixed schedule: with 8 partial and 57
/// full rounds, the rounds below 4 and above 61 are full and the contiguous
/// band from 4 through 61 is partial.
pub proof fn lemma_full_partial_boundary(round: int)
    ensures
        is_full_round(round, 8, 57) <==> (round < 4 || round > 61),
{
}

/// Pointwise modular addition of two state vectors of one width.
pub open spec fn state_add(a: Seq<nat>, b: Seq<nat>) -> Seq<nat> {
    Seq::new(a.len(), |i: int| fadd(a[i], b[i]))
}

proof fn lemma_dot_linear(row: Seq<nat>, a: Seq<nat>, b: Seq<nat>, j: int)
    requires
        a.len() == b.len(),
        j <= a.len(),
    ensures
        (dot(row, a, j) + dot(row, b, j)) % fr_order() == dot(row, state_add(a, b), j)
            % fr_order(),
    decreases j,
{
    let p = fr_order();
    let c = state_add(a, b);
    if j > 0 {
        lemma_dot_linear(row, a, b, j - 1);
        let da = dot(row, a, j - 1);
        let db = dot(row, b, j - 1);
        let dc = dot(row, c, j - 1);
        let av = a[j - 1];
        let bv = b[j - 1];
        let rv = row[j - 1];
        let y = ((av + bv) % p) * rv;
        let z = (av + bv) * rv;
        assert(c[j - 1] == (av + bv) % p);
        assert(dot(row, c, j) == dc + y);
        lemma_add_mod_noop(dc as int, y as int, p as int);
        lemma_mul_mod_noop_left((av + bv) as int, rv as int, p as int);
        lemma_add_mod_noop(dc as int, z as int, p as int);
        assert((dc + y) % p == (dc + z) % p);
        lemma_add_mod_noop((da + db) as int, z as int, p as int);
        assert((dc + z) % p == (da + db + z) % p);
        assert(da + db + (av + bv) * rv == (da + av * rv) + (db + bv * rv))
            by (nonlinear_arith);
        assert(da + db + z == (da + av * rv) + (db + bv * rv));
        assert(dot(row, a, j) == da + av * rv);
        assert(dot(row, b, j) == db + bv * rv);
    }
}

/// Linearity of the mixing layer: mixing the pointwise sum of two state
/// vectors gives the pointwise sum of mixing each of them, under one MDS
/// matrix.
pub proof fn lemma_mix_linear(m: Seq<Seq<nat>>, a: Seq<nat>, b: Seq<nat>)
    requires
        a.len() == b.len(),
    ensures
        state_add(mix_spec(m, a), mix_spec(m, b)) == mix_spec(m, state_add(a, b)),
{
    let p = fr_order();
    let n = a.len() as int;
    assert forall|i: int| 0 <= i < n implies state_add(mix_spec(m, a), mix_spec(m, b))[i]
        == mix_spec(m, state_add(a, b))[i] by {
        lemma_dot_linear(m[i], a, b, n);
        lemma_add_mod_noop(dot(m[i], a, n) as int, dot(m[i], b, n) as int, p as int);
        lemma_mod_bound(dot(m[i], a, n) as int, p as int);
        lemma_mod_bound(dot(m[i], b, n) as int, p as int);
        lemma_small_mod(dot(m[i], a, n) % p, p);
        lemma_small_mod(dot(m[i], b, n) % p, p);
    }
    assert(state_add(mix_spec(m, a), mix_spec(m, b)) =~= mix_spec(m, state_add(a, b)));
}

} // verus!
