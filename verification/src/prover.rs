//! The prover orchestrator: trace commitment, constraint composition, DEEP
//! composition, the FRI low-degree test and the proof-of-work grind, all
//! sequenced through one Fiat-Shamir transcript in the protocol's fixed
//! order.  Every phase validates its own algebra inside the verified code:
//! the constraints are checked to vanish on the trace, interpolation is
//! re-evaluated point by point, every claimed quotient leaves no remainder,
//! and both degree bounds are tested before committing, so a proof is only
//! ever produced for a trace that satisfies the AIR.

use vstd::prelude::*;
use crate::domain::{domain_points, subgroup_generator};
use crate::field::{fadd, fmul, pow_mod, Fe, GENERATOR, P};
use crate::fri::{FriProof, FriProver, FRI_FINAL_LEN};
use crate::merkle::{sha256, sha256_of, MerkleTree};
use crate::multivariate::{mv_eval, Multivariate};
use crate::poly::{interpolate, poly_eval, poly_wf, Poly};
use crate::transcript::{felt_draw, Transcript};
use crate::utils::{fes_bytes, fes_to_bytes, is_pow2, is_power_of_two, u64_to_bytes, Matrix};

verus! {

/// Protocol options: the blow-up factor between trace and LDE domain, the
/// number of FRI queries, and the proof-of-work difficulty in bits.
pub struct ProofOptions {
    pub blowup_factor: u64,
    pub num_queries: u64,
    pub grinding_bits: u64,
}

/// Errors that can occur during the proving stage.
#[derive(Debug)]
pub enum ProvingError {
    Fail,
}

/// The shape of a trace: its row count and base column count.
pub struct TraceInfo {
    pub length: usize,
    pub base_column_count: usize,
}

/// An execution trace: the base columns, column-major.
pub struct Trace {
    pub base: Matrix,
}

impl Trace {
    pub open spec fn wf(self) -> bool {
        self.base.wf()
    }

    pub fn info(&self) -> (r: TraceInfo)
        ensures
            r.length == self.base.spec_num_rows(),
            r.base_column_count == self.base.cols@.len(),
    {
        TraceInfo { length: self.base.num_rows(), base_column_count: self.base.num_cols() }
    }
}

/// The algebraic intermediate representation consumed by the prover: the
/// trace shape, the public inputs seeding the transcript, the options, and
/// the constraints with their degree-adjustment exponents.
///
/// Extension columns are declared as per-column recurrences over the base
/// row and the drawn challenges: `extension_inits[e]` gives the column's
/// value at the first row from `row[0] ++ challenges`, and
/// `extension_steps[e]` gives each next value from
/// `row[i] ++ [acc] ++ challenges` (a running permutation product is the
/// typical instance).  The extension constraint classes and the terminal
/// constraints take the challenges as trailing variables of their
/// assignment, so one declared polynomial serves every challenge draw.
pub struct Air {
    pub trace_len: usize,
    pub num_base_columns: usize,
    pub num_extension_columns: usize,
    pub public_inputs: Vec<Fe>,
    pub options: ProofOptions,
    pub num_challenges: usize,
    pub extension_inits: Vec<Multivariate>,
    pub extension_steps: Vec<Multivariate>,
    pub boundary_constraints: Vec<Multivariate>,
    pub boundary_adjustments: Vec<u64>,
    pub transition_constraints: Vec<Multivariate>,
    pub transition_adjustments: Vec<u64>,
    pub extension_boundary_constraints: Vec<Multivariate>,
    pub extension_boundary_adjustments: Vec<u64>,
    pub extension_transition_constraints: Vec<Multivariate>,
    pub extension_transition_adjustments: Vec<u64>,
    pub terminal_constraints: Vec<Multivariate>,
    pub terminal_adjustments: Vec<u64>,
    pub composition_degree_bound: usize,
}

impl Air {
    /// Consistency of the declared shape: power-of-two domains that fit the
    /// field's `2^30`-smooth multiplicative group, constraints with the right
    /// arity, and counts small enough for the transcript's draw counter.
    /// The full execution-trace width: base plus extension columns.
    pub open spec fn spec_width(self) -> int {
        self.num_base_columns + self.num_extension_columns
    }

    pub open spec fn wf(self) -> bool {
        &&& self.trace_len >= 2
        &&& is_pow2(self.trace_len as nat)
        &&& 1 <= self.num_base_columns <= 1024
        &&& self.num_extension_columns <= 1024
        &&& 2 <= self.options.blowup_factor <= 1024
        &&& is_pow2(self.options.blowup_factor as nat)
        &&& self.trace_len * self.options.blowup_factor <= 0x40000000
        &&& 1 <= self.options.num_queries <= 1024
        &&& self.options.grinding_bits <= 32
        &&& self.num_challenges <= 1024
        &&& self.boundary_constraints@.len() <= 1024
        &&& self.transition_constraints@.len() <= 1024
        &&& self.extension_boundary_constraints@.len() <= 1024
        &&& self.extension_transition_constraints@.len() <= 1024
        &&& self.terminal_constraints@.len() <= 1024
        &&& self.boundary_adjustments@.len() == self.boundary_constraints@.len()
        &&& self.transition_adjustments@.len() == self.transition_constraints@.len()
        &&& self.extension_boundary_adjustments@.len()
            == self.extension_boundary_constraints@.len()
        &&& self.extension_transition_adjustments@.len()
            == self.extension_transition_constraints@.len()
        &&& self.terminal_adjustments@.len() == self.terminal_constraints@.len()
        &&& self.extension_inits@.len() == self.num_extension_columns
        &&& self.extension_steps@.len() == self.num_extension_columns
        &&& poly_wf(self.public_inputs@)
        &&& self.composition_degree_bound <= self.trace_len * self.options.blowup_factor
        &&& forall|c: int|
            0 <= c < self.boundary_constraints@.len() ==> (
            #[trigger] self.boundary_constraints@[c]).wf()
                && self.boundary_constraints@[c].vars == self.num_base_columns
        &&& forall|c: int|
            0 <= c < self.transition_constraints@.len() ==> (
            #[trigger] self.transition_constraints@[c]).wf()
                && self.transition_constraints@[c].vars == 2 * self.num_base_columns
        &&& forall|e: int|
            0 <= e < self.extension_inits@.len() ==> (#[trigger] self.extension_inits@[e]).wf()
                && self.extension_inits@[e].vars == self.num_base_columns + self.num_challenges
        &&& forall|e: int|
            0 <= e < self.extension_steps@.len() ==> (#[trigger] self.extension_steps@[e]).wf()
                && self.extension_steps@[e].vars == self.num_base_columns + 1
                + self.num_challenges
        &&& forall|c: int|
            0 <= c < self.extension_boundary_constraints@.len() ==> (
            #[trigger] self.extension_boundary_constraints@[c]).wf()
                && self.extension_boundary_constraints@[c].vars == self.spec_width()
                + self.num_challenges
        &&& forall|c: int|
            0 <= c < self.extension_transition_constraints@.len() ==> (
            #[trigger] self.extension_transition_constraints@[c]).wf()
                && self.extension_transition_constraints@[c].vars == 2 * self.spec_width()
                + self.num_challenges
        &&& forall|c: int|
            0 <= c < self.terminal_constraints@.len() ==> (
            #[trigger] self.terminal_constraints@[c]).wf()
                && self.terminal_constraints@[c].vars == self.spec_width() + self.num_challenges
    }

    /// Checks the declared shape; proof generation refuses an AIR whose
    /// declaration is inconsistent.
    pub fn validate(&self) -> (r: bool)
        ensures
            r == self.wf(),
    {
        if !(self.trace_len >= 2 && is_power_of_two(self.trace_len)) {
            return false;
        }
        if !(1 <= self.num_base_columns && self.num_base_columns <= 1024) {
            return false;
        }
        if !(2 <= self.options.blowup_factor && self.options.blowup_factor <= 1024
            && is_power_of_two(self.options.blowup_factor as usize)) {
            return false;
        }
        if self.trace_len > 0x40000000 {
            proof {
                assert(self.trace_len * self.options.blowup_factor > 0x40000000)
                    by (nonlinear_arith)
                    requires
                        self.options.blowup_factor >= 2,
                        self.trace_len > 0x40000000,
                ;
            }
            return false;
        }
        proof {
            assert((self.trace_len as int) * (self.options.blowup_factor as int) <= 0x40000000
                * 1024)
                by (nonlinear_arith)
                requires
                    self.trace_len <= 0x40000000,
                    self.options.blowup_factor <= 1024,
            ;
        }
        let ok = (self.trace_len as u64) * self.options.blowup_factor <= 0x40000000
            && 1 <= self.options.num_queries && self.options.num_queries <= 1024
            && self.options.grinding_bits <= 32 && self.num_challenges <= 1024
            && self.num_extension_columns <= 1024
            && self.boundary_constraints.len() <= 1024
            && self.transition_constraints.len() <= 1024
            && self.extension_boundary_constraints.len() <= 1024
            && self.extension_transition_constraints.len() <= 1024
            && self.terminal_constraints.len() <= 1024
            && self.boundary_adjustments.len() == self.boundary_constraints.len()
            && self.transition_adjustments.len() == self.transition_constraints.len()
            && self.extension_boundary_adjustments.len()
                == self.extension_boundary_constraints.len()
            && self.extension_transition_adjustments.len()
                == self.extension_transition_constraints.len()
            && self.terminal_adjustments.len() == self.terminal_constraints.len()
            && self.extension_inits.len() == self.num_extension_columns
            && self.extension_steps.len() == self.num_extension_columns
            && self.composition_degree_bound <= self.trace_len * (self.options.blowup_factor
                as usize);
        if !ok {
            return false;
        }
        let mut i: usize = 0;
        while i < self.public_inputs.len()
            invariant
                i <= self.public_inputs@.len(),
                forall|j: int| 0 <= j < i ==> (#[trigger] self.public_inputs@[j]).wf(),
            decreases self.public_inputs@.len() - i,
        {
            if self.public_inputs[i].v >= P {
                return false;
            }
            i = i + 1;
        }
        let width = self.num_base_columns + self.num_extension_columns;
        check_constraints_vec(&self.boundary_constraints, self.num_base_columns)
            && check_constraints_vec(&self.transition_constraints, 2 * self.num_base_columns)
            && check_constraints_vec(
            &self.extension_inits,
            self.num_base_columns + self.num_challenges,
        ) && check_constraints_vec(
            &self.extension_steps,
            self.num_base_columns + 1 + self.num_challenges,
        ) && check_constraints_vec(
            &self.extension_boundary_constraints,
            width + self.num_challenges,
        ) && check_constraints_vec(
            &self.extension_transition_constraints,
            2 * width + self.num_challenges,
        ) && check_constraints_vec(&self.terminal_constraints, width + self.num_challenges)
    }

    /// Draws the AIR's challenges, one per declared role, in protocol order.
    pub fn get_challenges(&self, transcript: &mut Transcript) -> (r: Vec<Fe>)
        requires
            old(transcript).counter + self.num_challenges <= u64::MAX,
        ensures
            r@.len() == self.num_challenges,
            poly_wf(r@),
            final(transcript).state@ == old(transcript).state@,
            final(transcript).counter == old(transcript).counter + self.num_challenges,
            forall|i: int|
                0 <= i < r@.len() ==> (#[trigger] r@[i]).v as int == felt_draw(
                    old(transcript).state@,
                    (old(transcript).counter + i) as u64,
                ),
    {
        draw_felts(transcript, self.num_challenges)
    }

    /// Draws two composition coefficients per constraint, in class order:
    /// boundary, transition, extension boundary, extension transition,
    /// terminal.
    pub fn get_constraint_composition_coeffs(&self, transcript: &mut Transcript) -> (r: Vec<Fe>)
        requires
            self.wf(),
            old(transcript).counter + 2 * total_constraints(*self) <= u64::MAX,
        ensures
            r@.len() == 2 * total_constraints(*self),
            poly_wf(r@),
            final(transcript).state@ == old(transcript).state@,
            final(transcript).counter == old(transcript).counter + r@.len(),
            forall|i: int|
                0 <= i < r@.len() ==> (#[trigger] r@[i]).v as int == felt_draw(
                    old(transcript).state@,
                    (old(transcript).counter + i) as u64,
                ),
    {
        draw_felts(
            transcript,
            2 * (self.boundary_constraints.len() + self.transition_constraints.len()
                + self.extension_boundary_constraints.len()
                + self.extension_transition_constraints.len() + self.terminal_constraints.len()),
        )
    }

    /// Draws two DEEP coefficients per execution-trace column plus one for
    /// the composition polynomial.
    pub fn get_deep_composition_coeffs(&self, transcript: &mut Transcript) -> (r: Vec<Fe>)
        requires
            self.wf(),
            old(transcript).counter + 2 * (self.num_base_columns + self.num_extension_columns) + 1
                <= u64::MAX,
        ensures
            r@.len() == 2 * (self.num_base_columns + self.num_extension_columns) + 1,
            poly_wf(r@),
            final(transcript).state@ == old(transcript).state@,
            final(transcript).counter == old(transcript).counter + r@.len(),
            forall|i: int|
                0 <= i < r@.len() ==> (#[trigger] r@[i]).v as int == felt_draw(
                    old(transcript).state@,
                    (old(transcript).counter + i) as u64,
                ),
    {
        draw_felts(transcript, 2 * (self.num_base_columns + self.num_extension_columns) + 1)
    }
}

/// How many constraints the AIR declares over all five classes.
pub open spec fn total_constraints(air: Air) -> int {
    air.boundary_constraints@.len() + air.transition_constraints@.len()
        + air.extension_boundary_constraints@.len()
        + air.extension_transition_constraints@.len() + air.terminal_constraints@.len() as int
}

/// Whether every constraint of a class is well formed over the given arity.
fn check_constraints_vec(cs: &Vec<Multivariate>, vars: usize) -> (r: bool)
    ensures
        r == (forall|j: int|
            0 <= j < cs@.len() ==> (#[trigger] cs@[j]).wf() && cs@[j].vars == vars),
{
    let mut c: usize = 0;
    while c < cs.len()
        invariant
            c <= cs@.len(),
            forall|j: int| 0 <= j < c ==> (#[trigger] cs@[j]).wf() && cs@[j].vars == vars,
        decreases cs@.len() - c,
    {
        if !check_constraint(&cs[c], vars) {
            return false;
        }
        c = c + 1;
    }
    true
}

/// Whether one constraint is well formed over the given arity.
fn check_constraint(c: &Multivariate, vars: usize) -> (r: bool)
    ensures
        r == (c.wf() && c.vars == vars),
{
    if c.vars != vars {
        return false;
    }
    let mut i: usize = 0;
    while i < c.terms.len()
        invariant
            i <= c.terms@.len(),
            forall|j: int|
                0 <= j < i ==> crate::multivariate::term_wf(#[trigger] c.terms@[j], c.vars as nat),
        decreases c.terms@.len() - i,
    {
        if c.terms[i].coeff.v >= P || c.terms[i].exps.len() != c.vars {
            return false;
        }
        i = i + 1;
    }
    true
}

/// Draws `n` field elements in order, each the squeeze of the state at the
/// running counter.
pub fn draw_felts(transcript: &mut Transcript, n: usize) -> (r: Vec<Fe>)
    requires
        old(transcript).counter + n <= u64::MAX,
    ensures
        r@.len() == n,
        poly_wf(r@),
        final(transcript).state@ == old(transcript).state@,
        final(transcript).counter == old(transcript).counter + n,
        forall|i: int|
            0 <= i < n ==> (#[trigger] r@[i]).v as int == felt_draw(
                old(transcript).state@,
                (old(transcript).counter + i) as u64,
            ),
{
    let mut out: Vec<Fe> = Vec::new();
    let mut i: usize = 0;
    while i < n
        invariant
            i <= n,
            out@.len() == i,
            poly_wf(out@),
            old(transcript).counter + n <= u64::MAX,
            transcript.state@ == old(transcript).state@,
            transcript.counter == old(transcript).counter + i,
            forall|j: int|
                0 <= j < i ==> (#[trigger] out@[j]).v as int == felt_draw(
                    old(transcript).state@,
                    (old(transcript).counter + j) as u64,
                ),
        decreases n - i,
    {
        out.push(transcript.draw_felt());
        i = i + 1;
    }
    out
}

/// The row of a column-major matrix at index `i`, as a variable assignment.
pub open spec fn row_assignment(m: Matrix, i: int) -> Seq<Fe> {
    Seq::new(m.cols@.len(), |j: int| m.cols@[j]@[i])
}

/// The current and next row of a matrix, laid end to end: the assignment of
/// a transition constraint.
pub open spec fn pair_assignment(m: Matrix, i: int) -> Seq<Fe> {
    row_assignment(m, i) + row_assignment(m, i + 1)
}

/// The trace satisfies the AIR: every transition constraint vanishes on
/// every adjacent row pair, and every boundary constraint vanishes on the
/// first row.
pub open spec fn constraints_satisfied(air: Air, trace: Trace) -> bool {
    &&& forall|c: int|
        0 <= c < air.boundary_constraints@.len() ==> mv_eval(
            (#[trigger] air.boundary_constraints@[c]).terms@,
            row_assignment(trace.base, 0),
        ) == 0
    &&& forall|c: int, i: int|
        #![trigger air.transition_constraints@[c], pair_assignment(trace.base, i)]
        0 <= c < air.transition_constraints@.len() && 0 <= i < trace.base.spec_num_rows() - 1
            ==> mv_eval(air.transition_constraints@[c].terms@, pair_assignment(trace.base, i))
            == 0
}

/// The value of declared extension column `e` at row `i`: the init
/// polynomial at the first base row, then the step polynomial driven by the
/// previous base row and the previous accumulator, with the challenges as
/// trailing variables throughout.
pub open spec fn ext_value_at(air: Air, base: Matrix, ch: Seq<Fe>, e: int, i: int) -> int
    decreases i,
{
    if i <= 0 {
        mv_eval(air.extension_inits@[e].terms@, row_assignment(base, 0) + ch)
    } else {
        mv_eval(
            air.extension_steps@[e].terms@,
            row_assignment(base, i - 1) + seq![
                Fe { v: ext_value_at(air, base, ch, e, i - 1) as u64 },
            ] + ch,
        )
    }
}

/// Row `i` of the full execution trace: the base row followed by every
/// declared extension column's value at that row.
pub open spec fn exec_row_of(air: Air, base: Matrix, ch: Seq<Fe>, i: int) -> Seq<Fe> {
    row_assignment(base, i) + Seq::new(
        air.num_extension_columns as nat,
        |e: int| Fe { v: ext_value_at(air, base, ch, e, i) as u64 },
    )
}

/// The execution trace satisfies the challenge-dependent constraint classes:
/// every extension boundary constraint vanishes on the first execution row,
/// every extension transition constraint on every adjacent row pair, and
/// every terminal constraint on the last row, each with the challenges
/// appended to its assignment.
pub open spec fn extension_constraints_satisfied(air: Air, base: Matrix, ch: Seq<Fe>) -> bool {
    let n = base.spec_num_rows() as int;
    &&& forall|c: int|
        0 <= c < air.extension_boundary_constraints@.len() ==> mv_eval(
            (#[trigger] air.extension_boundary_constraints@[c]).terms@,
            exec_row_of(air, base, ch, 0) + ch,
        ) == 0
    &&& forall|c: int, i: int|
        #![trigger air.extension_transition_constraints@[c], exec_row_of(air, base, ch, i)]
        0 <= c < air.extension_transition_constraints@.len() && 0 <= i < n - 1 ==> mv_eval(
            air.extension_transition_constraints@[c].terms@,
            exec_row_of(air, base, ch, i) + exec_row_of(air, base, ch, i + 1) + ch,
        ) == 0
    &&& forall|c: int|
        0 <= c < air.terminal_constraints@.len() ==> mv_eval(
            (#[trigger] air.terminal_constraints@[c]).terms@,
            exec_row_of(air, base, ch, n - 1) + ch,
        ) == 0
}

/// The challenge sequence squeezed from a transcript state, in draw order:
/// what [`Air::get_challenges`] returns when the transcript stands at that
/// state with a fresh draw counter.
pub open spec fn challenges_of(air: Air, state: Seq<u8>) -> Seq<Fe> {
    Seq::new(air.num_challenges as nat, |i: int| Fe { v: felt_draw(state, i as u64) as u64 })
}

/// A fresh vector holding `a` followed by `b`.
fn concat_fes(a: &Vec<Fe>, b: &Vec<Fe>) -> (r: Vec<Fe>)
    ensures
        r@ == a@ + b@,
{
    let mut out = crate::fri::copy_fes(a);
    let mut i: usize = 0;
    while i < b.len()
        invariant
            i <= b@.len(),
            out@ == a@ + b@.subrange(0, i as int),
        decreases b@.len() - i,
    {
        out.push(b[i]);
        proof {
            assert(out@ =~= a@ + b@.subrange(0, i as int + 1));
        }
        i = i + 1;
    }
    proof {
        assert(a@ + b@.subrange(0, b@.len() as int) =~= a@ + b@);
    }
    out
}

/// Derives the declared extension columns from the base trace and the drawn
/// challenges, one recurrence per column; `None` exactly when the AIR
/// declares no extension columns.  Every produced value is pinned to the
/// declared recurrence.
pub fn build_extension_trace(air: &Air, trace: &Trace, challenges: &Vec<Fe>) -> (r: Option<
    Matrix,
>)
    requires
        air.wf(),
        trace.wf(),
        trace.base.cols@.len() == air.num_base_columns,
        trace.base.spec_num_rows() == air.trace_len,
        challenges@.len() == air.num_challenges,
        poly_wf(challenges@),
    ensures
        (r is Some) <==> air.num_extension_columns > 0,
        r is Some ==> {
            let m = r.unwrap();
            &&& m.wf()
            &&& m.cols@.len() == air.num_extension_columns
            &&& m.spec_num_rows() == air.trace_len
            &&& forall|e: int, i: int|
                #![trigger m.cols@[e]@[i]]
                0 <= e < m.cols@.len() && 0 <= i < air.trace_len ==> m.cols@[e]@[i].v as int
                    == ext_value_at(*air, trace.base, challenges@, e, i)
        },
{
    if air.num_extension_columns == 0 {
        return None;
    }
    let n = air.trace_len;
    let mut cols: Vec<Vec<Fe>> = Vec::new();
    let mut e: usize = 0;
    while e < air.num_extension_columns
        invariant
            e <= air.num_extension_columns,
            air.wf(),
            trace.wf(),
            trace.base.cols@.len() == air.num_base_columns,
            trace.base.spec_num_rows() == air.trace_len,
            challenges@.len() == air.num_challenges,
            poly_wf(challenges@),
            n == air.trace_len,
            cols@.len() == e,
            forall|e2: int|
                0 <= e2 < e ==> (#[trigger] cols@[e2])@.len() == n && poly_wf(cols@[e2]@),
            forall|e2: int, i: int|
                #![trigger cols@[e2]@[i]]
                0 <= e2 < e && 0 <= i < n ==> cols@[e2]@[i].v as int == ext_value_at(
                    *air,
                    trace.base,
                    challenges@,
                    e2,
                    i,
                ),
        decreases air.num_extension_columns - e,
    {
        let mut col: Vec<Fe> = Vec::new();
        let row0 = matrix_row(&trace.base, 0);
        let init_assignment = concat_fes(&row0, challenges);
        let mut acc = air.extension_inits[e].evaluate(&init_assignment);
        col.push(acc);
        let mut i: usize = 1;
        while i < n
            invariant
                1 <= i <= n,
                air.wf(),
                trace.wf(),
                trace.base.cols@.len() == air.num_base_columns,
                trace.base.spec_num_rows() == air.trace_len,
                challenges@.len() == air.num_challenges,
                poly_wf(challenges@),
                n == air.trace_len,
                e < air.num_extension_columns,
                col@.len() == i,
                poly_wf(col@),
                acc == col@[i - 1],
                forall|i2: int|
                    0 <= i2 < i ==> (#[trigger] col@[i2]).v as int == ext_value_at(
                        *air,
                        trace.base,
                        challenges@,
                        e as int,
                        i2,
                    ),
            decreases n - i,
        {
            let prev_row = matrix_row(&trace.base, i - 1);
            let mut mid: Vec<Fe> = Vec::new();
            mid.push(acc);
            let head = concat_fes(&prev_row, &mid);
            let assignment = concat_fes(&head, challenges);
            proof {
                assert(assignment@ =~= row_assignment(trace.base, i as int - 1) + seq![acc]
                    + challenges@);
            }
            acc = air.extension_steps[e].evaluate(&assignment);
            col.push(acc);
            i = i + 1;
        }
        cols.push(col);
        e = e + 1;
    }
    Some(Matrix { cols })
}

/// Extracts row `i` of a column-major matrix.
fn matrix_row(m: &Matrix, i: usize) -> (r: Vec<Fe>)
    requires
        m.wf(),
        i < m.spec_num_rows(),
    ensures
        r@ == row_assignment(*m, i as int),
        poly_wf(r@),
{
    let mut out: Vec<Fe> = Vec::new();
    let mut j: usize = 0;
    while j < m.cols.len()
        invariant
            j <= m.cols@.len(),
            m.wf(),
            i < m.spec_num_rows(),
            out@.len() == j,
            forall|t: int| 0 <= t < j ==> out@[t] == m.cols@[t]@[i as int],
            poly_wf(out@),
        decreases m.cols@.len() - j,
    {
        out.push(m.cols[j][i]);
        j = j + 1;
    }
    proof {
        assert(out@ =~= row_assignment(*m, i as int));
    }
    out
}

/// Checks that the trace satisfies every constraint of the AIR; the
/// debug-validation step that catches a tampered trace before anything is
/// committed.
pub fn validate_constraints(air: &Air, trace: &Trace) -> (r: bool)
    requires
        air.wf(),
        trace.wf(),
        trace.base.cols@.len() == air.num_base_columns,
        trace.base.spec_num_rows() == air.trace_len,
    ensures
        r == constraints_satisfied(*air, *trace),
{
    let n = trace.base.num_rows();
    let row0 = matrix_row(&trace.base, 0);
    let mut c: usize = 0;
    while c < air.boundary_constraints.len()
        invariant
            c <= air.boundary_constraints@.len(),
            air.wf(),
            trace.wf(),
            trace.base.cols@.len() == air.num_base_columns,
            trace.base.spec_num_rows() == air.trace_len,
            row0@ == row_assignment(trace.base, 0),
            poly_wf(row0@),
            forall|j: int|
                0 <= j < c ==> mv_eval(
                    (#[trigger] air.boundary_constraints@[j]).terms@,
                    row_assignment(trace.base, 0),
                ) == 0,
        decreases air.boundary_constraints@.len() - c,
    {
        if !air.boundary_constraints[c].evaluate(&row0).is_zero() {
            proof {
                assert(mv_eval(
                    air.boundary_constraints@[c as int].terms@,
                    row_assignment(trace.base, 0),
                ) != 0);
            }
            return false;
        }
        c = c + 1;
    }
    let mut i: usize = 0;
    while i + 1 < n
        invariant
            i <= n,
            n == air.trace_len,
            air.wf(),
            trace.wf(),
            trace.base.cols@.len() == air.num_base_columns,
            trace.base.spec_num_rows() == air.trace_len,
            forall|j: int|
                0 <= j < air.boundary_constraints@.len() ==> mv_eval(
                    (#[trigger] air.boundary_constraints@[j]).terms@,
                    row_assignment(trace.base, 0),
                ) == 0,
            forall|c2: int, i2: int|
                #![trigger air.transition_constraints@[c2], pair_assignment(trace.base, i2)]
                0 <= c2 < air.transition_constraints@.len() && 0 <= i2 < i ==> mv_eval(
                    air.transition_constraints@[c2].terms@,
                    pair_assignment(trace.base, i2),
                ) == 0,
        decreases n - i,
    {
        let cur = matrix_row(&trace.base, i);
        let nxt = matrix_row(&trace.base, i + 1);
        let mut pair = cur;
        let mut k: usize = 0;
        let ghost nxt_view = nxt@;
        while k < nxt.len()
            invariant
                k <= nxt@.len(),
                nxt@ == nxt_view,
                pair@ == row_assignment(trace.base, i as int) + nxt_view.subrange(0, k as int),
                poly_wf(nxt_view),
                poly_wf(row_assignment(trace.base, i as int)),
            decreases nxt@.len() - k,
        {
            pair.push(nxt[k]);
            proof {
                assert(pair@ =~= row_assignment(trace.base, i as int) + nxt_view.subrange(
                    0,
                    k as int + 1,
                ));
            }
            k = k + 1;
        }
        proof {
            assert(nxt_view.subrange(0, nxt_view.len() as int) =~= nxt_view);
            assert(pair@ =~= pair_assignment(trace.base, i as int));
            assert(poly_wf(pair@));
        }
        let mut c2: usize = 0;
        while c2 < air.transition_constraints.len()
            invariant
                c2 <= air.transition_constraints@.len(),
                air.wf(),
                trace.base.cols@.len() == air.num_base_columns,
                i + 1 < n,
                n == trace.base.spec_num_rows(),
                pair@ == pair_assignment(trace.base, i as int),
                poly_wf(pair@),
                pair@.len() == 2 * air.num_base_columns,
                forall|j: int|
                    0 <= j < c2 ==> mv_eval(
                        (#[trigger] air.transition_constraints@[j]).terms@,
                        pair_assignment(trace.base, i as int),
                    ) == 0,
            decreases air.transition_constraints@.len() - c2,
        {
            if !air.transition_constraints[c2].evaluate(&pair).is_zero() {
                proof {
                    assert(mv_eval(
                        air.transition_constraints@[c2 as int].terms@,
                        pair_assignment(trace.base, i as int),
                    ) != 0);
                }
                return false;
            }
            c2 = c2 + 1;
        }
        i = i + 1;
    }
    true
}


/// Materializes row `i` of the full execution trace: the base row followed
/// by the built extension values at that row.
fn exec_row_at(air: &Air, trace: &Trace, ext: &Matrix, challenges: &Vec<Fe>, i: usize) -> (r: Vec<
    Fe,
>)
    requires
        air.wf(),
        trace.wf(),
        trace.base.cols@.len() == air.num_base_columns,
        trace.base.spec_num_rows() == air.trace_len,
        i < air.trace_len,
        ext.wf(),
        ext.cols@.len() == air.num_extension_columns,
        air.num_extension_columns > 0 ==> ext.spec_num_rows() == air.trace_len,
        forall|e: int, i2: int|
            #![trigger ext.cols@[e]@[i2]]
            0 <= e < ext.cols@.len() && 0 <= i2 < air.trace_len ==> ext.cols@[e]@[i2].v as int
                == ext_value_at(*air, trace.base, challenges@, e, i2),
    ensures
        r@ == exec_row_of(*air, trace.base, challenges@, i as int),
        poly_wf(r@),
        r@.len() == air.spec_width(),
{
    let mut row = matrix_row(&trace.base, i);
    let mut e: usize = 0;
    while e < ext.cols.len()
        invariant
            e <= ext.cols@.len(),
            air.wf(),
            trace.wf(),
            trace.base.cols@.len() == air.num_base_columns,
            trace.base.spec_num_rows() == air.trace_len,
            i < air.trace_len,
            ext.wf(),
            ext.cols@.len() == air.num_extension_columns,
            air.num_extension_columns > 0 ==> ext.spec_num_rows() == air.trace_len,
            forall|e2: int, i2: int|
                #![trigger ext.cols@[e2]@[i2]]
                0 <= e2 < ext.cols@.len() && 0 <= i2 < air.trace_len ==> ext.cols@[e2]@[i2].v as int
                    == ext_value_at(*air, trace.base, challenges@, e2, i2),
            row@.len() == air.num_base_columns + e,
            poly_wf(row@),
            row@.subrange(0, air.num_base_columns as int) == row_assignment(
                trace.base,
                i as int,
            ),
            forall|e2: int|
                0 <= e2 < e ==> (#[trigger] row@[air.num_base_columns + e2]).v as int
                    == ext_value_at(*air, trace.base, challenges@, e2, i as int),
        decreases ext.cols@.len() - e,
    {
        let ghost before = row@;
        row.push(ext.cols[e][i]);
        proof {
            assert(row@.subrange(0, air.num_base_columns as int) =~= before.subrange(
                0,
                air.num_base_columns as int,
            ));
        }
        e = e + 1;
    }
    proof {
        let spec_row = exec_row_of(*air, trace.base, challenges@, i as int);
        assert forall|j: int| 0 <= j < row@.len() implies row@[j] == spec_row[j] by {
            if j < air.num_base_columns {
                assert(row@.subrange(0, air.num_base_columns as int)[j] == row@[j]);
            } else {
                let e2 = j - air.num_base_columns;
                assert(row@[air.num_base_columns + e2].v as int == ext_value_at(
                    *air,
                    trace.base,
                    challenges@,
                    e2,
                    i as int,
                ));
                assert(spec_row[j].v as int == ext_value_at(
                    *air,
                    trace.base,
                    challenges@,
                    e2,
                    i as int,
                ));
            }
        }
        assert(row@ =~= spec_row);
    }
    row
}

/// Checks the challenge-dependent constraint classes against the built
/// execution trace: extension boundary constraints on the first row,
/// extension transition constraints on every adjacent pair, terminal
/// constraints on the last row.
pub fn validate_extension_constraints(
    air: &Air,
    trace: &Trace,
    ext: &Matrix,
    challenges: &Vec<Fe>,
) -> (r: bool)
    requires
        air.wf(),
        trace.wf(),
        trace.base.cols@.len() == air.num_base_columns,
        trace.base.spec_num_rows() == air.trace_len,
        challenges@.len() == air.num_challenges,
        poly_wf(challenges@),
        ext.wf(),
        ext.cols@.len() == air.num_extension_columns,
        air.num_extension_columns > 0 ==> ext.spec_num_rows() == air.trace_len,
        forall|e: int, i2: int|
            #![trigger ext.cols@[e]@[i2]]
            0 <= e < ext.cols@.len() && 0 <= i2 < air.trace_len ==> ext.cols@[e]@[i2].v as int
                == ext_value_at(*air, trace.base, challenges@, e, i2),
    ensures
        r == extension_constraints_satisfied(*air, trace.base, challenges@),
{
    let n = air.trace_len;
    let row0 = exec_row_at(air, trace, ext, challenges, 0);
    let a0 = concat_fes(&row0, challenges);
    let mut c: usize = 0;
    while c < air.extension_boundary_constraints.len()
        invariant
            c <= air.extension_boundary_constraints@.len(),
            air.wf(),
            a0@ == exec_row_of(*air, trace.base, challenges@, 0) + challenges@,
            poly_wf(a0@),
            a0@.len() == air.spec_width() + air.num_challenges,
            forall|j: int|
                0 <= j < c ==> mv_eval(
                    (#[trigger] air.extension_boundary_constraints@[j]).terms@,
                    exec_row_of(*air, trace.base, challenges@, 0) + challenges@,
                ) == 0,
        decreases air.extension_boundary_constraints@.len() - c,
    {
        if !air.extension_boundary_constraints[c].evaluate(&a0).is_zero() {
            proof {
                assert(mv_eval(
                    air.extension_boundary_constraints@[c as int].terms@,
                    exec_row_of(*air, trace.base, challenges@, 0) + challenges@,
                ) != 0);
            }
            return false;
        }
        c = c + 1;
    }
    let last = exec_row_at(air, trace, ext, challenges, n - 1);
    let alast = concat_fes(&last, challenges);
    let mut c2: usize = 0;
    while c2 < air.terminal_constraints.len()
        invariant
            c2 <= air.terminal_constraints@.len(),
            air.wf(),
            n == air.trace_len,
            trace.base.spec_num_rows() == air.trace_len,
            alast@ == exec_row_of(*air, trace.base, challenges@, n - 1) + challenges@,
            poly_wf(alast@),
            alast@.len() == air.spec_width() + air.num_challenges,
            forall|j: int|
                0 <= j < c2 ==> mv_eval(
                    (#[trigger] air.terminal_constraints@[j]).terms@,
                    exec_row_of(*air, trace.base, challenges@, n - 1) + challenges@,
                ) == 0,
        decreases air.terminal_constraints@.len() - c2,
    {
        if !air.terminal_constraints[c2].evaluate(&alast).is_zero() {
            proof {
                assert(mv_eval(
                    air.terminal_constraints@[c2 as int].terms@,
                    exec_row_of(*air, trace.base, challenges@, n - 1) + challenges@,
                ) != 0);
            }
            return false;
        }
        c2 = c2 + 1;
    }
    let mut i: usize = 0;
    while i + 1 < n
        invariant
            i <= n,
            air.wf(),
            trace.wf(),
            trace.base.cols@.len() == air.num_base_columns,
            trace.base.spec_num_rows() == air.trace_len,
            challenges@.len() == air.num_challenges,
            poly_wf(challenges@),
            ext.wf(),
            ext.cols@.len() == air.num_extension_columns,
            air.num_extension_columns > 0 ==> ext.spec_num_rows() == air.trace_len,
            forall|e: int, i2: int|
                #![trigger ext.cols@[e]@[i2]]
                0 <= e < ext.cols@.len() && 0 <= i2 < air.trace_len ==> ext.cols@[e]@[i2].v as int
                    == ext_value_at(*air, trace.base, challenges@, e, i2),
            n == air.trace_len,
            forall|j: int|
                0 <= j < air.extension_boundary_constraints@.len() ==> mv_eval(
                    (#[trigger] air.extension_boundary_constraints@[j]).terms@,
                    exec_row_of(*air, trace.base, challenges@, 0) + challenges@,
                ) == 0,
            forall|j: int|
                0 <= j < air.terminal_constraints@.len() ==> mv_eval(
                    (#[trigger] air.terminal_constraints@[j]).terms@,
                    exec_row_of(*air, trace.base, challenges@, n - 1) + challenges@,
                ) == 0,
            forall|c3: int, i2: int|
                #![trigger air.extension_transition_constraints@[c3], exec_row_of(*air, trace.base, challenges@, i2)]
                0 <= c3 < air.extension_transition_constraints@.len() && 0 <= i2 < i ==> mv_eval(
                    air.extension_transition_constraints@[c3].terms@,
                    exec_row_of(*air, trace.base, challenges@, i2) + exec_row_of(
                        *air,
                        trace.base,
                        challenges@,
                        i2 + 1,
                    ) + challenges@,
                ) == 0,
        decreases n - i,
    {
        let cur = exec_row_at(air, trace, ext, challenges, i);
        let nxt = exec_row_at(air, trace, ext, challenges, i + 1);
        let head = concat_fes(&cur, &nxt);
        let pair = concat_fes(&head, challenges);
        proof {
            assert(pair@ =~= exec_row_of(*air, trace.base, challenges@, i as int) + exec_row_of(
                *air,
                trace.base,
                challenges@,
                i as int + 1,
            ) + challenges@);
        }
        let mut c3: usize = 0;
        while c3 < air.extension_transition_constraints.len()
            invariant
                c3 <= air.extension_transition_constraints@.len(),
                air.wf(),
                i + 1 < n,
                n == air.trace_len,
                trace.base.spec_num_rows() == air.trace_len,
                pair@ == exec_row_of(*air, trace.base, challenges@, i as int) + exec_row_of(
                    *air,
                    trace.base,
                    challenges@,
                    i as int + 1,
                ) + challenges@,
                poly_wf(pair@),
                pair@.len() == 2 * air.spec_width() + air.num_challenges,
                forall|j: int|
                    0 <= j < c3 ==> mv_eval(
                        (#[trigger] air.extension_transition_constraints@[j]).terms@,
                        exec_row_of(*air, trace.base, challenges@, i as int) + exec_row_of(
                            *air,
                            trace.base,
                            challenges@,
                            i as int + 1,
                        ) + challenges@,
                    ) == 0,
            decreases air.extension_transition_constraints@.len() - c3,
        {
            if !air.extension_transition_constraints[c3].evaluate(&pair).is_zero() {
                proof {
                    assert(mv_eval(
                        air.extension_transition_constraints@[c3 as int].terms@,
                        exec_row_of(*air, trace.base, challenges@, i as int) + exec_row_of(
                            *air,
                            trace.base,
                            challenges@,
                            i as int + 1,
                        ) + challenges@,
                    ) != 0);
                }
                return false;
            }
            c3 = c3 + 1;
        }
        i = i + 1;
    }
    true
}

/// The transcript seed: the declared shape, the options, and the public
/// inputs, serialized in a fixed order.
pub open spec fn seed_of(air: Air) -> Seq<u8> {
    crate::utils::u64_be_bytes(air.trace_len as u64) + crate::utils::u64_be_bytes(
        air.num_base_columns as u64,
    ) + crate::utils::u64_be_bytes(air.options.blowup_factor) + crate::utils::u64_be_bytes(
        air.options.num_queries,
    ) + crate::utils::u64_be_bytes(air.options.grinding_bits) + fes_bytes(air.public_inputs@)
}

/// Serializes the transcript seed.
fn seed_bytes(air: &Air) -> (r: Vec<u8>)
    ensures
        r@ == seed_of(*air),
{
    let mut out = u64_to_bytes(air.trace_len as u64);
    let part2 = u64_to_bytes(air.num_base_columns as u64);
    let part3 = u64_to_bytes(air.options.blowup_factor);
    let part4 = u64_to_bytes(air.options.num_queries);
    let part5 = u64_to_bytes(air.options.grinding_bits);
    let part6 = fes_to_bytes(&air.public_inputs);
    let mut r = crate::utils::concat_bytes(&out, &part2);
    r = crate::utils::concat_bytes(&r, &part3);
    r = crate::utils::concat_bytes(&r, &part4);
    r = crate::utils::concat_bytes(&r, &part5);
    r = crate::utils::concat_bytes(&r, &part6);
    proof {
        assert(r@ =~= seed_of(*air));
    }
    r
}

/// Commits the rows of a matrix: leaf `i` is the digest of row `i`
/// serialized, the tree binds them to one root.
fn commit_matrix_rows(m: &Matrix) -> (r: MerkleTree)
    requires
        m.wf(),
        m.spec_num_rows() >= 1,
        is_pow2(m.spec_num_rows()),
    ensures
        r.wf(),
        r.spec_num_leaves() == m.spec_num_rows(),
        forall|i: int|
            0 <= i < m.spec_num_rows() ==> (#[trigger] r.levels@[0]@[i])@ == sha256_of(
                fes_bytes(row_assignment(*m, i)),
            ),
{
    let n = m.num_rows();
    let mut leaves: Vec<Vec<u8>> = Vec::new();
    let mut i: usize = 0;
    while i < n
        invariant
            i <= n,
            m.wf(),
            n == m.spec_num_rows(),
            leaves@.len() == i,
            forall|j: int|
                0 <= j < i ==> (#[trigger] leaves@[j])@ == sha256_of(
                    fes_bytes(row_assignment(*m, j)),
                ),
        decreases n - i,
    {
        let row = matrix_row(m, i);
        let bytes = fes_to_bytes(&row);
        leaves.push(sha256(&bytes));
        i = i + 1;
    }
    MerkleTree::new(leaves)
}

/// Interpolates every column of a matrix over the given points; a fatal
/// internal error if any column fails its re-evaluation check.
fn interpolate_columns(m: &Matrix, points: &Vec<Fe>) -> (r: Result<Vec<Poly>, ProvingError>)
    requires
        m.wf(),
        poly_wf(points@),
        points@.len() == m.spec_num_rows(),
        points@.len() < usize::MAX,
    ensures
        r is Ok ==> {
            let polys = r.unwrap()@;
            &&& polys.len() == m.cols@.len()
            &&& forall|j: int|
                0 <= j < polys.len() ==> (#[trigger] polys[j]).wf() && polys[j].coeffs@.len()
                    <= points@.len() && (forall|t: int|
                    0 <= t < points@.len() ==> poly_eval(polys[j].coeffs@, #[trigger] points@[t].v as int)
                        == m.cols@[j]@[t].v as int)
        },
{
    let mut out: Vec<Poly> = Vec::new();
    let mut j: usize = 0;
    while j < m.cols.len()
        invariant
            j <= m.cols@.len(),
            m.wf(),
            poly_wf(points@),
            points@.len() == m.spec_num_rows(),
            points@.len() < usize::MAX,
            out@.len() == j,
            forall|j2: int|
                0 <= j2 < j ==> (#[trigger] out@[j2]).wf() && out@[j2].coeffs@.len()
                    <= points@.len() && (forall|t: int|
                    0 <= t < points@.len() ==> poly_eval(out@[j2].coeffs@, #[trigger] points@[t].v as int)
                        == m.cols@[j2]@[t].v as int),
        decreases m.cols@.len() - j,
    {
        match interpolate(points, &m.cols[j]) {
            Some(p) => {
                out.push(p);
            },
            None => {
                return Err(ProvingError::Fail);
            },
        }
        j = j + 1;
    }
    Ok(out)
}

/// Evaluates every polynomial over the given points, as the columns of a new
/// matrix.
fn evaluate_columns(polys: &Vec<Poly>, points: &Vec<Fe>) -> (r: Matrix)
    requires
        forall|j: int| 0 <= j < polys@.len() ==> (#[trigger] polys@[j]).wf(),
        poly_wf(points@),
        points@.len() >= 1,
    ensures
        r.wf(),
        r.cols@.len() == polys@.len(),
        r.cols@.len() >= 1 ==> r.spec_num_rows() == points@.len(),
        forall|j: int, t: int|
            #![trigger r.cols@[j]@[t]]
            0 <= j < polys@.len() && 0 <= t < points@.len() ==> r.cols@[j]@[t].v as int
                == poly_eval(polys@[j].coeffs@, points@[t].v as int),
{
    let mut cols: Vec<Vec<Fe>> = Vec::new();
    let mut j: usize = 0;
    while j < polys.len()
        invariant
            j <= polys@.len(),
            forall|j2: int| 0 <= j2 < polys@.len() ==> (#[trigger] polys@[j2]).wf(),
            poly_wf(points@),
            points@.len() >= 1,
            cols@.len() == j,
            forall|j2: int|
                0 <= j2 < j ==> (#[trigger] cols@[j2])@.len() == points@.len() && poly_wf(
                    cols@[j2]@,
                ),
            forall|j2: int, t: int|
                #![trigger cols@[j2]@[t]]
                0 <= j2 < j && 0 <= t < points@.len() ==> cols@[j2]@[t].v as int == poly_eval(
                    polys@[j2].coeffs@,
                    points@[t].v as int,
                ),
        decreases polys@.len() - j,
    {
        cols.push(polys[j].evaluate_on(points));
        j = j + 1;
    }
    Matrix { cols }
}

/// Coefficient `i` of the synthetic-division quotient of `p` by `X - z`:
/// the top-down recurrence `q[i] = p[i+1] + z * q[i+1]`, zero at and above
/// the quotient's length.  Subtracting a constant from `p` changes only the
/// remainder, so the quotient of `p - claimed` is this same sequence.
pub open spec fn quotient_coeff(p: Seq<Fe>, z: int, i: int) -> int
    decreases p.len() - i,
{
    if i < 0 || i >= p.len() - 1 {
        0int
    } else {
        fadd(p[i + 1].v as int, fmul(z, quotient_coeff(p, z, i + 1)))
    }
}

/// A sequence meeting the division recurrence is the quotient, coefficient
/// by coefficient.
proof fn lemma_quotient_coeffs(p: Seq<Fe>, q: Seq<Fe>, z: int, i: int)
    requires
        p.len() >= 1,
        q.len() == p.len() - 1,
        forall|j: int|
            0 <= j < q.len() ==> (#[trigger] q[j]).v as int == fadd(
                p[j + 1].v as int,
                fmul(z, crate::poly::coeff_at(q, j + 1)),
            ),
        0 <= i <= q.len(),
    ensures
        forall|j: int| i <= j < q.len() ==> (#[trigger] q[j]).v as int == quotient_coeff(p, z, j),
    decreases q.len() - i,
{
    if i < q.len() {
        lemma_quotient_coeffs(p, q, z, i + 1);
        assert(q[i].v as int == fadd(p[i + 1].v as int, fmul(z, crate::poly::coeff_at(q, i + 1))));
        if i + 1 < q.len() {
            assert(crate::poly::coeff_at(q, i + 1) == quotient_coeff(p, z, i + 1));
        } else {
            assert(crate::poly::coeff_at(q, i + 1) == 0);
            assert(quotient_coeff(p, z, i + 1) == 0);
        }
    }
}

/// The quotient `(p - p(z)) / (X - z)`, computed by synthetic division after
/// subtracting the claimed value; a fatal internal error if a remainder is
/// left, which a correct claimed value never does.  On success the quotient's
/// coefficients are pinned by the division recurrence, and the vanished
/// remainder ties the claimed value to the quotient's constant term.
fn point_quotient(p: &Poly, z: Fe, claimed: Fe) -> (r: Result<Poly, ProvingError>)
    requires
        p.wf(),
        z.wf(),
        claimed.wf(),
        p.coeffs@.len() >= 1,
    ensures
        r is Ok ==> {
            let q = r.unwrap().coeffs@;
            &&& r.unwrap().wf()
            &&& q.len() == p.coeffs@.len() - 1
            &&& (forall|i: int|
                0 <= i < q.len() ==> (#[trigger] q[i]).v as int == crate::field::fadd(
                    p.coeffs@[i + 1].v as int,
                    crate::field::fmul(z.v as int, crate::poly::coeff_at(q, i + 1)),
                ))
            &&& (forall|i: int|
                0 <= i < q.len() ==> (#[trigger] q[i]).v as int == quotient_coeff(
                    p.coeffs@,
                    z.v as int,
                    i,
                ))
            &&& crate::field::fadd(
                crate::field::fsub(p.coeffs@[0].v as int, claimed.v as int),
                crate::field::fmul(z.v as int, crate::poly::coeff_at(q, 0)),
            ) == 0
        },
{
    let mut shifted: Vec<Fe> = Vec::new();
    shifted.push(p.coeffs[0].sub(claimed));
    let mut i: usize = 1;
    while i < p.coeffs.len()
        invariant
            1 <= i <= p.coeffs@.len(),
            p.wf(),
            claimed.wf(),
            shifted@.len() == i,
            poly_wf(shifted@),
            shifted@[0].v as int == crate::field::fsub(p.coeffs@[0].v as int, claimed.v as int),
            forall|j: int| 1 <= j < i ==> #[trigger] shifted@[j] == p.coeffs@[j],
        decreases p.coeffs@.len() - i,
    {
        shifted.push(p.coeffs[i]);
        i = i + 1;
    }
    let sp = Poly { coeffs: shifted };
    let (q, rem) = sp.divide_out_point(z);
    if rem.v != 0 {
        return Err(ProvingError::Fail);
    }
    proof {
        lemma_quotient_coeffs(p.coeffs@, q.coeffs@, z.v as int, 0);
    }
    Ok(q)
}

/// One opened trace position: the row values of every committed segment
/// (base, extension when present, composition) and the paths binding each to
/// its root.
pub struct QueryOpening {
    pub position: u64,
    pub trace_row: Vec<Fe>,
    pub trace_path: Vec<Vec<u8>>,
    pub extension_row: Vec<Fe>,
    pub extension_path: Vec<Vec<u8>>,
    pub composition_value: Fe,
    pub composition_path: Vec<Vec<u8>>,
}

/// The proof object: all roots (the extension root when the AIR declares
/// extension columns), the out-of-domain evaluations, the FRI proof, the
/// proof-of-work nonce, and the query openings.
pub struct Proof {
    pub base_trace_root: Vec<u8>,
    pub extension_trace_root: Option<Vec<u8>>,
    pub composition_trace_root: Vec<u8>,
    pub ood_trace_evals: Vec<Fe>,
    pub ood_trace_evals_next: Vec<Fe>,
    pub ood_composition_eval: Fe,
    pub fri: FriProof,
    pub pow_nonce: u64,
    pub openings: Vec<QueryOpening>,
}

/// The prover: holds the protocol options and runs the pipeline.
pub struct Prover {
    pub options: ProofOptions,
}

impl Prover {
    pub fn new(options: ProofOptions) -> (r: Prover)
        ensures
            r.options == options,
    {
        Prover { options }
    }

    pub fn options(&self) -> (r: &ProofOptions)
        ensures
            r == self.options,
    {
        &self.options
    }

    /// The end-to-end pipeline, in strict transcript order: commit the base
    /// trace, draw challenges, build and commit the extension trace derived
    /// from them (when the AIR declares extension columns), draw composition
    /// coefficients, build and commit the composition polynomial, draw the
    /// out-of-domain point, send the out-of-domain evaluations, draw the
    /// DEEP coefficients, fold the DEEP polynomial through FRI, grind, and
    /// open the queried positions.  A proof is returned only for a
    /// consistent AIR whose constraints — the base classes and the
    /// challenge-dependent extension and terminal classes — the trace
    /// satisfies; every algebraic step is re-checked inside the verified
    /// code and any failure is fatal.  The grind clause pins the transcript
    /// order: the proof-of-work digest is taken over the state recomputed
    /// from the proof's own roots and out-of-domain values, absorbed in
    /// exactly the protocol sequence.
    #[verifier::rlimit(100)]
    pub fn generate_proof(&self, air: &Air, trace: &Trace) -> (r: Result<Proof, ProvingError>)
        ensures
            r is Ok ==> {
                let p = r.unwrap();
                let s1 = sha256_of(seed_of(*air) + p.base_trace_root@);
                let s2 = if p.extension_trace_root is Some {
                    sha256_of(s1 + p.extension_trace_root.unwrap()@)
                } else {
                    s1
                };
                let s3 = sha256_of(s2 + p.composition_trace_root@);
                &&& air.wf()
                &&& trace.wf()
                &&& trace.base.cols@.len() == air.num_base_columns
                &&& trace.base.spec_num_rows() == air.trace_len
                &&& constraints_satisfied(*air, *trace)
                &&& extension_constraints_satisfied(*air, trace.base, challenges_of(*air, s1))
                &&& (p.extension_trace_root is Some <==> air.num_extension_columns > 0)
                &&& p.openings@.len() == air.options.num_queries
                &&& p.fri.queries@.len() == air.options.num_queries
                &&& p.ood_trace_evals@.len() == air.spec_width()
                &&& p.ood_trace_evals_next@.len() == air.spec_width()
                &&& p.fri.final_poly.coeffs@.len() <= FRI_FINAL_LEN
                &&& (forall|q: int|
                    0 <= q < p.openings@.len() ==> (#[trigger] p.openings@[q]).position
                        == p.fri.queries@[q].position)
                &&& (forall|q: int|
                    0 <= q < p.fri.queries@.len() ==> (
                    #[trigger] p.fri.queries@[q]).openings@.len() == p.fri.layer_roots@.len())
                &&& crate::transcript::leading_zeros_of(
                    sha256_of(grind_state_of(s3, p) + crate::utils::u64_be_bytes(p.pow_nonce)),
                ) >= air.options.grinding_bits
                &&& (forall|q: int|
                    0 <= q < p.fri.queries@.len() ==> (
                    #[trigger] p.fri.queries@[q]).position as int == crate::utils::u64_from_be(
                        sha256_of(
                            sha256_of(
                                grind_state_of(s3, p) + crate::utils::u64_be_bytes(p.pow_nonce),
                            ) + crate::utils::u64_be_bytes(q as u64),
                        ),
                    ) % (air.trace_len * air.options.blowup_factor))
            },
    {
        if !air.validate() {
            return Err(ProvingError::Fail);
        }
        if trace.base.num_cols() != air.num_base_columns || trace.base.num_rows()
            != air.trace_len {
            return Err(ProvingError::Fail);
        }
        if !check_matrix(&trace.base) {
            return Err(ProvingError::Fail);
        }
        // The debug-validation step: refuse a trace that violates any
        // constraint before anything is committed.
        if !validate_constraints(air, trace) {
            return Err(ProvingError::Fail);
        }
        let n = air.trace_len;
        let blowup = air.options.blowup_factor as usize;
        proof {
            crate::utils::lemma_pow2_mul(air.trace_len as nat, blowup as nat);
            assert(n <= n * blowup && 2 * blowup <= n * blowup) by (nonlinear_arith)
                requires
                    n >= 2,
                    blowup >= 1,
            ;
        }
        let lde_n = n * blowup;
        let g = subgroup_generator(n as u64);
        let lde_g = subgroup_generator(lde_n as u64);
        let offset = Fe::new(GENERATOR);
        let trace_points = domain_points(g, Fe::one(), n);
        let lde_points = domain_points(lde_g, offset, lde_n);
        let mut transcript = Transcript::new(seed_bytes(air));
        // Commit the base trace.
        let base_polys = match interpolate_columns(&trace.base, &trace_points) {
            Ok(p) => p,
            Err(e) => {
                return Err(e);
            },
        };
        let base_lde = evaluate_columns(&base_polys, &lde_points);
        let base_tree = commit_matrix_rows(&base_lde);
        let base_root = base_tree.root();
        transcript.absorb(&base_root);
        let ghost s1 = transcript.state@;
        // Draw the AIR's challenges and build the declared extension columns
        // from them.
        let challenges = air.get_challenges(&mut transcript);
        proof {
            assert(s1 == sha256_of(seed_of(*air) + base_root@));
            assert(challenges@ =~= challenges_of(*air, s1));
        }
        let (ext_matrix, has_ext) = match build_extension_trace(air, trace, &challenges) {
            Some(m) => (m, true),
            None => (Matrix::empty(), false),
        };
        // The debug-validation step for the challenge-dependent classes.
        if !validate_extension_constraints(air, trace, &ext_matrix, &challenges) {
            return Err(ProvingError::Fail);
        }
        // Commit the extension trace, when there is one, before any later
        // draw.
        let mut exec_polys = base_polys;
        let mut ext_lde = Matrix::empty();
        let mut ext_tree: Option<MerkleTree> = None;
        let mut ext_root: Option<Vec<u8>> = None;
        if has_ext {
            let ext_polys = match interpolate_columns(&ext_matrix, &trace_points) {
                Ok(p) => p,
                Err(e) => {
                    return Err(e);
                },
            };
            ext_lde = evaluate_columns(&ext_polys, &lde_points);
            let tree = commit_matrix_rows(&ext_lde);
            let root = tree.root();
            transcript.absorb(&root);
            ext_tree = Some(tree);
            ext_root = Some(root);
            append_polys(&mut exec_polys, ext_polys);
        }
        let ghost s2 = transcript.state@;
        // Draw the composition coefficients and build the composition
        // polynomial from the constraint quotients of all five classes.
        let comp_coeffs = air.get_constraint_composition_coeffs(&mut transcript);
        let comp = match build_composition(
            air,
            &comp_coeffs,
            &base_lde,
            &ext_lde,
            &challenges,
            &lde_points,
            &trace_points,
            blowup,
        ) {
            Ok(c) => c,
            Err(e) => {
                return Err(e);
            },
        };
        let (comp_evals, comp_poly) = comp;
        let comp_matrix = Matrix { cols: single_col(comp_evals) };
        let comp_tree = commit_matrix_rows(&comp_matrix);
        let comp_root = comp_tree.root();
        transcript.absorb(&comp_root);
        // Out-of-domain point, redrawn while it collides with a domain.
        let z = match draw_ood_point(&mut transcript, n as u64, lde_n as u64, offset) {
            Ok(z) => z,
            Err(e) => {
                return Err(e);
            },
        };
        let r = finish_proof(
            air,
            &mut transcript,
            &exec_polys,
            &comp_poly,
            &base_lde,
            &base_tree,
            base_root,
            &ext_lde,
            &ext_tree,
            ext_root,
            &comp_matrix,
            &comp_tree,
            comp_root,
            z,
            g,
            &lde_points,
            n,
            lde_n,
        );
        proof {
            if r is Ok {
                let p = r.unwrap();
                assert(p.extension_trace_root is Some ==> s2 == sha256_of(
                    s1 + p.extension_trace_root.unwrap()@,
                ));
                assert(p.extension_trace_root is None ==> s2 == s1);
            }
        }
        r
    }
}

/// Moves every polynomial of `src` onto the end of `dst`, in order.
fn append_polys(dst: &mut Vec<Poly>, src: Vec<Poly>)
    ensures
        final(dst)@ == old(dst)@ + src@,
{
    let mut rest = src;
    let ghost more = rest@;
    let ghost orig = old(dst)@;
    let ghost mut i: int = 0;
    while rest.len() > 0
        invariant
            0 <= i <= more.len(),
            rest@ == more.subrange(i as int, more.len() as int),
            dst@ == orig + more.subrange(0, i as int),
        decreases more.len() - i,
    {
        let p = rest.remove(0);
        proof {
            assert(p == more[i as int]);
        }
        dst.push(p);
        proof {
            i = i + 1;
            assert(rest@ =~= more.subrange(i as int, more.len() as int));
            assert(dst@ =~= orig + more.subrange(0, i as int));
        }
    }
    proof {
        assert(more.subrange(0, more.len() as int) =~= more);
    }
}

/// The transcript state after absorbing a sequence of roots, in order.
pub open spec fn state_after_roots(seed: Seq<u8>, roots: Seq<Vec<u8>>, k: int) -> Seq<u8>
    decreases k,
{
    if k <= 0 {
        seed
    } else {
        sha256_of(state_after_roots(seed, roots, k - 1) + roots[k - 1]@)
    }
}

/// The state the proof-of-work grind ran on, recomputed from the proof's own
/// fields: the three out-of-domain absorptions followed by every FRI layer
/// root, applied to the state the out-of-domain point was drawn from.
pub open spec fn grind_state_of(s: Seq<u8>, p: Proof) -> Seq<u8> {
    state_after_roots(
        sha256_of(
            sha256_of(
                sha256_of(s + fes_bytes(p.ood_trace_evals@)) + fes_bytes(
                    p.ood_trace_evals_next@,
                ),
            ) + fes_bytes(seq![p.ood_composition_eval]),
        ),
        p.fri.layer_roots@,
        p.fri.layer_roots@.len() as int,
    )
}

/// Folding roots that match a layer chain reproduces the chain's state.
proof fn lemma_state_after_roots(
    seed: Seq<u8>,
    roots: Seq<Vec<u8>>,
    layers: Seq<crate::fri::FriLayer>,
    k: int,
)
    requires
        0 <= k <= roots.len(),
        roots.len() == layers.len(),
        forall|j: int|
            0 <= j < roots.len() ==> (#[trigger] roots[j])@ == crate::fri::layer_root(layers[j]),
    ensures
        state_after_roots(seed, roots, k) == crate::fri::fri_state_after(seed, layers, k),
    decreases k,
{
    if k > 0 {
        lemma_state_after_roots(seed, roots, layers, k - 1);
    }
}

/// The back half of the pipeline, from the drawn out-of-domain point on:
/// out-of-domain evaluations, DEEP composition, FRI, grinding, query
/// positions and openings, assembled into the proof object.
#[verifier::rlimit(100)]
fn finish_proof(
    air: &Air,
    transcript: &mut Transcript,
    exec_polys: &Vec<Poly>,
    comp_poly: &Poly,
    base_lde: &Matrix,
    base_tree: &MerkleTree,
    base_root: Vec<u8>,
    ext_lde: &Matrix,
    ext_tree: &Option<MerkleTree>,
    ext_root: Option<Vec<u8>>,
    comp_matrix: &Matrix,
    comp_tree: &MerkleTree,
    comp_root: Vec<u8>,
    z: Fe,
    g: Fe,
    lde_points: &Vec<Fe>,
    n: usize,
    lde_n: usize,
) -> (r: Result<Proof, ProvingError>)
    requires
        air.wf(),
        forall|j: int| 0 <= j < exec_polys@.len() ==> (#[trigger] exec_polys@[j]).wf(),
        exec_polys@.len() == air.spec_width(),
        comp_poly.wf(),
        base_lde.wf(),
        base_lde.cols@.len() == air.num_base_columns,
        base_lde.spec_num_rows() == lde_n,
        base_tree.wf(),
        base_tree.spec_num_leaves() == lde_n,
        (ext_tree is Some) <==> (ext_root is Some),
        (ext_tree is Some) <==> air.num_extension_columns > 0,
        ext_tree is Some ==> ext_tree.unwrap().wf() && ext_tree.unwrap().spec_num_leaves()
            == lde_n && ext_lde.wf() && ext_lde.cols@.len() == air.num_extension_columns
            && ext_lde.spec_num_rows() == lde_n,
        comp_matrix.wf(),
        comp_matrix.cols@.len() == 1,
        comp_matrix.spec_num_rows() == lde_n,
        comp_tree.wf(),
        comp_tree.spec_num_leaves() == lde_n,
        z.wf(),
        g.wf(),
        poly_wf(lde_points@),
        lde_points@.len() == lde_n,
        is_pow2(lde_n as nat),
        lde_n >= 2,
        n >= 2,
        n <= lde_n,
        n == air.trace_len,
    ensures
        r is Ok ==> {
            let p = r.unwrap();
            &&& p.base_trace_root == base_root
            &&& p.extension_trace_root == ext_root
            &&& p.composition_trace_root == comp_root
            &&& p.openings@.len() == air.options.num_queries
            &&& p.fri.queries@.len() == air.options.num_queries
            &&& p.ood_trace_evals@.len() == air.spec_width()
            &&& p.ood_trace_evals_next@.len() == air.spec_width()
            &&& p.fri.final_poly.coeffs@.len() <= FRI_FINAL_LEN
            &&& (forall|q: int|
                0 <= q < p.openings@.len() ==> (#[trigger] p.openings@[q]).position
                    == p.fri.queries@[q].position)
            &&& (forall|q: int|
                0 <= q < p.fri.queries@.len() ==> (#[trigger] p.fri.queries@[q]).openings@.len()
                    == p.fri.layer_roots@.len())
            &&& crate::transcript::leading_zeros_of(
                sha256_of(
                    grind_state_of(old(transcript).state@, p) + crate::utils::u64_be_bytes(
                        p.pow_nonce,
                    ),
                ),
            ) >= air.options.grinding_bits
            &&& (forall|q: int|
                0 <= q < p.fri.queries@.len() ==> (#[trigger] p.fri.queries@[q]).position as int
                    == crate::utils::u64_from_be(
                    sha256_of(
                        sha256_of(
                            grind_state_of(old(transcript).state@, p)
                                + crate::utils::u64_be_bytes(p.pow_nonce),
                        ) + crate::utils::u64_be_bytes(q as u64),
                    ),
                ) % (lde_n as int))
        },
{
    let zg = z.mul(g);
    // Out-of-domain evaluations, absorbed before the next draw.
    let ood_trace_evals = eval_all_at(exec_polys, z);
    let ood_trace_evals_next = eval_all_at(exec_polys, zg);
    let ood_composition_eval = comp_poly.eval(z);
    transcript.absorb(&fes_to_bytes(&ood_trace_evals));
    transcript.absorb(&fes_to_bytes(&ood_trace_evals_next));
    let mut ood_comp_vec: Vec<Fe> = Vec::new();
    ood_comp_vec.push(ood_composition_eval);
    transcript.absorb(&fes_to_bytes(&ood_comp_vec));
    let ghost s5 = transcript.state@;
    proof {
        assert(ood_comp_vec@ =~= seq![ood_composition_eval]);
    }
    // DEEP composition.
    let deep_coeffs = air.get_deep_composition_coeffs(transcript);
    let deep_poly = match build_deep_poly(
        exec_polys,
        comp_poly,
        z,
        zg,
        &ood_trace_evals,
        &ood_trace_evals_next,
        ood_composition_eval,
        &deep_coeffs,
        n,
    ) {
        Ok(p) => p,
        Err(e) => {
            return Err(e);
        },
    };
    // FRI.
    let fri_prover = FriProver::build_layers(transcript, deep_poly, lde_points);
    // Grinding.
    let ghost grind_entry_state = transcript.state@;
    let nonce = match transcript.grind(air.options.grinding_bits) {
        Some(nonce) => nonce,
        None => {
            return Err(ProvingError::Fail);
        },
    };
    transcript.absorb(&u64_to_bytes(nonce));
    // Query positions.
    let num_queries = air.options.num_queries as usize;
    let positions = draw_positions(transcript, num_queries, lde_n as u64);
    // Openings.
    let openings = build_openings(
        base_lde,
        base_tree,
        ext_lde,
        ext_tree,
        comp_matrix,
        comp_tree,
        &positions,
    );
    let fri = fri_prover.into_proof(transcript, &positions);
    let p = Proof {
        base_trace_root: base_root,
        extension_trace_root: ext_root,
        composition_trace_root: comp_root,
        ood_trace_evals,
        ood_trace_evals_next,
        ood_composition_eval,
        fri,
        pow_nonce: nonce,
        openings,
    };
    proof {
        lemma_state_after_roots(
            s5,
            p.fri.layer_roots@,
            fri_prover.layers@,
            p.fri.layer_roots@.len() as int,
        );
        assert(grind_state_of(old(transcript).state@, p) == grind_entry_state);
    }
    Ok(p)
}

/// Wraps a single evaluation column.
fn single_col(evals: Vec<Fe>) -> (r: Vec<Vec<Fe>>)
    ensures
        r@.len() == 1,
        r@[0]@ == evals@,
{
    let mut out: Vec<Vec<Fe>> = Vec::new();
    out.push(evals);
    out
}

/// Draws the out-of-domain point, redrawing while it lands in the trace
/// domain or the LDE coset; fails only if every bounded retry collides.
fn draw_ood_point(transcript: &mut Transcript, n: u64, lde_n: u64, offset: Fe) -> (r: Result<
    Fe,
    ProvingError,
>)
    requires
        old(transcript).counter == 0,
        n >= 1,
        lde_n >= 1,
        offset.wf(),
    ensures
        r is Ok ==> r.unwrap().wf() && pow_mod(r.unwrap().v as int, n as nat) != 1 && pow_mod(
            r.unwrap().v as int,
            lde_n as nat,
        ) != pow_mod(offset.v as int, lde_n as nat),
        final(transcript).state@ == old(transcript).state@,
    {
    let coset_mark = offset.pow(lde_n);
    let mut tries: u64 = 0;
    while tries < 64
        invariant
            tries <= 64,
            transcript.state@ == old(transcript).state@,
            transcript.counter == tries,
            offset.wf(),
            coset_mark.v as int == pow_mod(offset.v as int, lde_n as nat),
        decreases 64 - tries,
    {
        let z = transcript.draw_felt();
        let in_trace = z.pow(n).v == 1;
        let in_coset = z.pow(lde_n).v == coset_mark.v;
        if !in_trace && !in_coset {
            return Ok(z);
        }
        tries = tries + 1;
    }
    Err(ProvingError::Fail)
}

/// The multiplicative inverse the zerofier divisions use: the Fermat power,
/// which [`Fe::checked_inv`] confirms by multiplying back.
pub open spec fn finv(a: int) -> int {
    pow_mod(a, (P - 2) as nat)
}

/// The LDE index of the row one trace step ahead of `t`.
pub open spec fn next_lde_index(t: int, blowup: int, lde_n: int) -> int {
    if t + blowup < lde_n {
        t + blowup
    } else {
        t + blowup - lde_n
    }
}

/// The weighted, zerofier-divided sum of one constraint class at one point,
/// folded onto `start` in class order: constraint `k` contributes
/// `(c_{2(off+k)} + c_{2(off+k)+1} * x^adj_k) * value_k * zinv`.
pub open spec fn class_sum(
    start: int,
    cs: Seq<Multivariate>,
    adjs: Seq<u64>,
    coeffs: Seq<Fe>,
    off: int,
    a: Seq<Fe>,
    x: int,
    zinv: int,
    k: int,
) -> int
    decreases k,
{
    if k <= 0 {
        start
    } else {
        fadd(
            class_sum(start, cs, adjs, coeffs, off, a, x, zinv, k - 1),
            fmul(
                fadd(
                    coeffs[2 * (off + k - 1)].v as int,
                    fmul(
                        coeffs[2 * (off + k - 1) + 1].v as int,
                        pow_mod(x, adjs[k - 1] as nat),
                    ),
                ),
                fmul(mv_eval(cs[k - 1].terms@, a), zinv),
            ),
        )
    }
}

/// The composition evaluation at LDE row `t`: all five constraint classes,
/// each divided by its zerofier at the point and weighted by its drawn
/// coefficient pair, summed in class order — boundary by `1/(x-1)`,
/// transition by `(x-g^(n-1))/(x^n-1)`, the extension classes likewise over
/// the full execution row with the challenges appended, and terminal by
/// `1/(x-g^(n-1))`.
pub open spec fn composition_value_at(
    air: Air,
    coeffs: Seq<Fe>,
    base_lde: Matrix,
    ext_lde: Matrix,
    ch: Seq<Fe>,
    lde_points: Seq<Fe>,
    g_last: int,
    blowup: int,
    t: int,
) -> int {
    let x = lde_points[t].v as int;
    let n = air.trace_len as int;
    let lde_n = lde_points.len() as int;
    let nx = next_lde_index(t, blowup, lde_n);
    let zb_inv = finv(crate::field::fsub(x, 1));
    let zt_inv = crate::field::fmul(
        crate::field::fsub(x, g_last),
        finv(crate::field::fsub(pow_mod(x, n as nat), 1)),
    );
    let zterm_inv = finv(crate::field::fsub(x, g_last));
    let row = row_assignment(base_lde, t);
    let nrow = row_assignment(base_lde, nx);
    let erow = row + row_assignment(ext_lde, t);
    let enrow = nrow + row_assignment(ext_lde, nx);
    let b = air.boundary_constraints@.len() as int;
    let tr = air.transition_constraints@.len() as int;
    let eb = air.extension_boundary_constraints@.len() as int;
    let et = air.extension_transition_constraints@.len() as int;
    let s1 = class_sum(
        0,
        air.boundary_constraints@,
        air.boundary_adjustments@,
        coeffs,
        0,
        row,
        x,
        zb_inv,
        b,
    );
    let s2 = class_sum(
        s1,
        air.transition_constraints@,
        air.transition_adjustments@,
        coeffs,
        b,
        row + nrow,
        x,
        zt_inv,
        tr,
    );
    let s3 = class_sum(
        s2,
        air.extension_boundary_constraints@,
        air.extension_boundary_adjustments@,
        coeffs,
        b + tr,
        erow + ch,
        x,
        zb_inv,
        eb,
    );
    let s4 = class_sum(
        s3,
        air.extension_transition_constraints@,
        air.extension_transition_adjustments@,
        coeffs,
        b + tr + eb,
        erow + enrow + ch,
        x,
        zt_inv,
        et,
    );
    class_sum(
        s4,
        air.terminal_constraints@,
        air.terminal_adjustments@,
        coeffs,
        b + tr + eb + et,
        erow + ch,
        x,
        zterm_inv,
        air.terminal_constraints@.len() as int,
    )
}

/// Row `t` over both committed trace segments: the base columns then the
/// extension columns.
fn full_lde_row(base_lde: &Matrix, ext_lde: &Matrix, t: usize) -> (r: Vec<Fe>)
    requires
        base_lde.wf(),
        ext_lde.wf(),
        t < base_lde.spec_num_rows(),
        ext_lde.cols@.len() > 0 ==> ext_lde.spec_num_rows() == base_lde.spec_num_rows(),
    ensures
        r@.len() == base_lde.cols@.len() + ext_lde.cols@.len(),
        poly_wf(r@),
        r@ == row_assignment(*base_lde, t as int) + row_assignment(*ext_lde, t as int),
{
    let mut row = matrix_row(base_lde, t);
    let mut e: usize = 0;
    while e < ext_lde.cols.len()
        invariant
            e <= ext_lde.cols@.len(),
            base_lde.wf(),
            ext_lde.wf(),
            t < base_lde.spec_num_rows(),
            ext_lde.cols@.len() > 0 ==> ext_lde.spec_num_rows() == base_lde.spec_num_rows(),
            row@.len() == base_lde.cols@.len() + e,
            poly_wf(row@),
            row@.subrange(0, base_lde.cols@.len() as int) == row_assignment(
                *base_lde,
                t as int,
            ),
            forall|e2: int|
                0 <= e2 < e ==> #[trigger] row@[base_lde.cols@.len() + e2] == ext_lde.cols@[e2]@[t as int],
        decreases ext_lde.cols@.len() - e,
    {
        let ghost before = row@;
        row.push(ext_lde.cols[e][t]);
        proof {
            assert(row@.subrange(0, base_lde.cols@.len() as int) =~= before.subrange(
                0,
                base_lde.cols@.len() as int,
            ));
        }
        e = e + 1;
    }
    proof {
        let spec_row = row_assignment(*base_lde, t as int) + row_assignment(*ext_lde, t as int);
        assert forall|j: int| 0 <= j < row@.len() implies row@[j] == spec_row[j] by {
            if j < base_lde.cols@.len() {
                assert(row@.subrange(0, base_lde.cols@.len() as int)[j] == row@[j]);
            } else {
                assert(row@[base_lde.cols@.len() + (j - base_lde.cols@.len())] == ext_lde.cols@[j
                    - base_lde.cols@.len()]@[t as int]);
            }
        }
        assert(row@ =~= spec_row);
    }
    row
}

/// Builds the composition polynomial: every constraint, evaluated over the
/// LDE rows, divided by its zerofier there, scaled by its coefficient pair
/// `(c1 + c2 * x^adj)`, all summed; the result is interpolated back and its
/// degree checked against the declared bound.  Boundary classes are
/// normalized by `X - 1` (they must hold at the first trace row), transition
/// classes by `(X^n - 1) / (X - g^(n-1))` (every adjacent pair), terminal
/// constraints by `X - g^(n-1)` (the last trace row); the
/// challenge-dependent classes read the full execution row with the
/// challenges appended.
pub fn build_composition(
    air: &Air,
    coeffs: &Vec<Fe>,
    base_lde: &Matrix,
    ext_lde: &Matrix,
    challenges: &Vec<Fe>,
    lde_points: &Vec<Fe>,
    trace_points: &Vec<Fe>,
    blowup: usize,
) -> (r: Result<(Vec<Fe>, Poly), ProvingError>)
    requires
        air.wf(),
        base_lde.wf(),
        ext_lde.wf(),
        ext_lde.cols@.len() == air.num_extension_columns,
        air.num_extension_columns > 0 ==> ext_lde.spec_num_rows() == lde_points@.len(),
        challenges@.len() == air.num_challenges,
        poly_wf(challenges@),
        poly_wf(coeffs@),
        coeffs@.len() == 2 * total_constraints(*air),
        poly_wf(lde_points@),
        poly_wf(trace_points@),
        trace_points@.len() == air.trace_len,
        lde_points@.len() == air.trace_len * blowup,
        blowup == air.options.blowup_factor,
        base_lde.cols@.len() == air.num_base_columns,
        base_lde.spec_num_rows() == lde_points@.len(),
    ensures
        r is Ok ==> {
            let evals = r.unwrap().0@;
            let poly = r.unwrap().1;
            &&& evals.len() == lde_points@.len()
            &&& poly_wf(evals)
            &&& poly.wf()
            &&& poly.coeffs@.len() <= lde_points@.len()
            &&& forall|i: int|
                air.composition_degree_bound <= i < poly.coeffs@.len()
                    ==> (#[trigger] poly.coeffs@[i]).v == 0
            &&& forall|t: int|
                0 <= t < lde_points@.len() ==> poly_eval(
                    poly.coeffs@,
                    (#[trigger] lde_points@[t]).v as int,
                ) == evals[t].v as int
            &&& forall|t: int|
                0 <= t < lde_points@.len() ==> (#[trigger] evals[t]).v as int
                    == composition_value_at(
                    *air,
                    coeffs@,
                    *base_lde,
                    *ext_lde,
                    challenges@,
                    lde_points@,
                    trace_points@[air.trace_len - 1].v as int,
                    blowup as int,
                    t,
                )
        },
{
    let n = air.trace_len;
    let lde_n = lde_points.len();
    proof {
        assert(n <= n * blowup && 2 * blowup <= n * blowup) by (nonlinear_arith)
            requires
                n >= 2,
                blowup >= 1,
        ;
    }
    let last_trace_point = trace_points[trace_points.len() - 1];
    let mut evals: Vec<Fe> = Vec::new();
    let mut t: usize = 0;
    while t < lde_n
        invariant
            t <= lde_n,
            air.wf(),
            base_lde.wf(),
            ext_lde.wf(),
            ext_lde.cols@.len() == air.num_extension_columns,
            air.num_extension_columns > 0 ==> ext_lde.spec_num_rows() == lde_n,
            challenges@.len() == air.num_challenges,
            poly_wf(challenges@),
            poly_wf(coeffs@),
            coeffs@.len() == 2 * total_constraints(*air),
            poly_wf(lde_points@),
            last_trace_point.wf(),
            n == air.trace_len,
            lde_n == lde_points@.len(),
            lde_n == air.trace_len * blowup,
            blowup == air.options.blowup_factor,
            base_lde.cols@.len() == air.num_base_columns,
            base_lde.spec_num_rows() == lde_n,
            n >= 2,
            blowup >= 1,
            lde_n <= 0x40000000,
            2 * blowup <= lde_n,
            last_trace_point == trace_points@[air.trace_len - 1],
            evals@.len() == t,
            poly_wf(evals@),
            forall|t2: int|
                0 <= t2 < t ==> (#[trigger] evals@[t2]).v as int == composition_value_at(
                    *air,
                    coeffs@,
                    *base_lde,
                    *ext_lde,
                    challenges@,
                    lde_points@,
                    trace_points@[air.trace_len - 1].v as int,
                    blowup as int,
                    t2,
                ),
        decreases lde_n - t,
    {
        let x = lde_points[t];
        // Boundary zerofier inverse: 1 / (x - 1).
        let zb = x.sub(Fe::one());
        let zb_inv = match zb.checked_inv() {
            Some(i) => i,
            None => {
                return Err(ProvingError::Fail);
            },
        };
        // Transition zerofier inverse: (x - g^(n-1)) / (x^n - 1).
        let vanishing = x.pow(n as u64).sub(Fe::one());
        let vanishing_inv = match vanishing.checked_inv() {
            Some(i) => i,
            None => {
                return Err(ProvingError::Fail);
            },
        };
        let zt_inv = x.sub(last_trace_point).mul(vanishing_inv);
        let row = matrix_row(base_lde, t);
        let next_index = if t + blowup < lde_n {
            t + blowup
        } else {
            t + blowup - lde_n
        };
        let next_row = matrix_row(base_lde, next_index);
        let mut pair = row;
        let mut k: usize = 0;
        let ghost next_view = next_row@;
        while k < next_row.len()
            invariant
                k <= next_view.len(),
                next_row@ == next_view,
                poly_wf(next_view),
                next_view == row_assignment(*base_lde, next_index as int),
                pair@ == row_assignment(*base_lde, t as int) + next_view.subrange(0, k as int),
                pair@.len() == base_lde.cols@.len() + k,
                poly_wf(pair@),
            decreases next_view.len() - k,
        {
            pair.push(next_row[k]);
            proof {
                assert(pair@ =~= row_assignment(*base_lde, t as int) + next_view.subrange(
                    0,
                    k as int + 1,
                ));
            }
            k = k + 1;
        }
        proof {
            assert(next_view.subrange(0, next_view.len() as int) =~= next_view);
        }
        let boundary_row = matrix_row(base_lde, t);
        let mut acc = Fe::zero();
        let mut c: usize = 0;
        while c < air.boundary_constraints.len()
            invariant
                c <= air.boundary_constraints@.len(),
                air.wf(),
                poly_wf(coeffs@),
                coeffs@.len() == 2 * total_constraints(*air),
                boundary_row@.len() == air.num_base_columns,
                poly_wf(boundary_row@),
                x.wf(),
                zb_inv.wf(),
                acc.wf(),
                acc.v as int == class_sum(
                    0,
                    air.boundary_constraints@,
                    air.boundary_adjustments@,
                    coeffs@,
                    0,
                    boundary_row@,
                    x.v as int,
                    zb_inv.v as int,
                    c as int,
                ),
            decreases air.boundary_constraints@.len() - c,
        {
            let val = air.boundary_constraints[c].evaluate(&boundary_row);
            let quotient = val.mul(zb_inv);
            let adj = air.boundary_adjustments[c];
            let weight = coeffs[2 * c].add(coeffs[2 * c + 1].mul(x.pow(adj)));
            acc = acc.add(weight.mul(quotient));
            c = c + 1;
        }
        let mut c2: usize = 0;
        let base = air.boundary_constraints.len();
        let ghost s1v = acc.v as int;
        while c2 < air.transition_constraints.len()
            invariant
                c2 <= air.transition_constraints@.len(),
                air.wf(),
                poly_wf(coeffs@),
                base == air.boundary_constraints@.len(),
                coeffs@.len() == 2 * total_constraints(*air),
                pair@.len() == 2 * air.num_base_columns,
                poly_wf(pair@),
                x.wf(),
                zt_inv.wf(),
                acc.wf(),
                acc.v as int == class_sum(
                    s1v,
                    air.transition_constraints@,
                    air.transition_adjustments@,
                    coeffs@,
                    base as int,
                    pair@,
                    x.v as int,
                    zt_inv.v as int,
                    c2 as int,
                ),
            decreases air.transition_constraints@.len() - c2,
        {
            let val = air.transition_constraints[c2].evaluate(&pair);
            let quotient = val.mul(zt_inv);
            let adj = air.transition_adjustments[c2];
            let weight = coeffs[2 * (base + c2)].add(coeffs[2 * (base + c2) + 1].mul(x.pow(adj)));
            acc = acc.add(weight.mul(quotient));
            c2 = c2 + 1;
        }
        // The challenge-dependent classes read the full execution row with
        // the challenges appended.
        let exec_cur = full_lde_row(base_lde, ext_lde, t);
        let exec_nxt = full_lde_row(base_lde, ext_lde, next_index);
        let ecur_ch = concat_fes(&exec_cur, challenges);
        let epair0 = concat_fes(&exec_cur, &exec_nxt);
        let epair = concat_fes(&epair0, challenges);
        let base2 = air.boundary_constraints.len() + air.transition_constraints.len();
        let mut c3: usize = 0;
        let ghost s2v = acc.v as int;
        while c3 < air.extension_boundary_constraints.len()
            invariant
                c3 <= air.extension_boundary_constraints@.len(),
                air.wf(),
                poly_wf(coeffs@),
                base2 == air.boundary_constraints@.len() + air.transition_constraints@.len(),
                coeffs@.len() == 2 * total_constraints(*air),
                ecur_ch@.len() == air.spec_width() + air.num_challenges,
                poly_wf(ecur_ch@),
                x.wf(),
                zb_inv.wf(),
                acc.wf(),
                acc.v as int == class_sum(
                    s2v,
                    air.extension_boundary_constraints@,
                    air.extension_boundary_adjustments@,
                    coeffs@,
                    base2 as int,
                    ecur_ch@,
                    x.v as int,
                    zb_inv.v as int,
                    c3 as int,
                ),
            decreases air.extension_boundary_constraints@.len() - c3,
        {
            let val = air.extension_boundary_constraints[c3].evaluate(&ecur_ch);
            let quotient = val.mul(zb_inv);
            let adj = air.extension_boundary_adjustments[c3];
            let weight = coeffs[2 * (base2 + c3)].add(
                coeffs[2 * (base2 + c3) + 1].mul(x.pow(adj)),
            );
            acc = acc.add(weight.mul(quotient));
            c3 = c3 + 1;
        }
        let base3 = base2 + air.extension_boundary_constraints.len();
        let mut c4: usize = 0;
        let ghost s3v = acc.v as int;
        while c4 < air.extension_transition_constraints.len()
            invariant
                c4 <= air.extension_transition_constraints@.len(),
                air.wf(),
                poly_wf(coeffs@),
                base3 == air.boundary_constraints@.len() + air.transition_constraints@.len()
                    + air.extension_boundary_constraints@.len(),
                coeffs@.len() == 2 * total_constraints(*air),
                epair@.len() == 2 * air.spec_width() + air.num_challenges,
                poly_wf(epair@),
                x.wf(),
                zt_inv.wf(),
                acc.wf(),
                acc.v as int == class_sum(
                    s3v,
                    air.extension_transition_constraints@,
                    air.extension_transition_adjustments@,
                    coeffs@,
                    base3 as int,
                    epair@,
                    x.v as int,
                    zt_inv.v as int,
                    c4 as int,
                ),
            decreases air.extension_transition_constraints@.len() - c4,
        {
            let val = air.extension_transition_constraints[c4].evaluate(&epair);
            let quotient = val.mul(zt_inv);
            let adj = air.extension_transition_adjustments[c4];
            let weight = coeffs[2 * (base3 + c4)].add(
                coeffs[2 * (base3 + c4) + 1].mul(x.pow(adj)),
            );
            acc = acc.add(weight.mul(quotient));
            c4 = c4 + 1;
        }
        // Terminal zerofier inverse: 1 / (x - g^(n-1)), the last trace row.
        let zterm = x.sub(last_trace_point);
        let zterm_inv = match zterm.checked_inv() {
            Some(i) => i,
            None => {
                return Err(ProvingError::Fail);
            },
        };
        let base4 = base3 + air.extension_transition_constraints.len();
        let mut c5: usize = 0;
        let ghost s4v = acc.v as int;
        while c5 < air.terminal_constraints.len()
            invariant
                c5 <= air.terminal_constraints@.len(),
                air.wf(),
                poly_wf(coeffs@),
                base4 == air.boundary_constraints@.len() + air.transition_constraints@.len()
                    + air.extension_boundary_constraints@.len()
                    + air.extension_transition_constraints@.len(),
                coeffs@.len() == 2 * total_constraints(*air),
                ecur_ch@.len() == air.spec_width() + air.num_challenges,
                poly_wf(ecur_ch@),
                x.wf(),
                zterm_inv.wf(),
                acc.wf(),
                acc.v as int == class_sum(
                    s4v,
                    air.terminal_constraints@,
                    air.terminal_adjustments@,
                    coeffs@,
                    base4 as int,
                    ecur_ch@,
                    x.v as int,
                    zterm_inv.v as int,
                    c5 as int,
                ),
            decreases air.terminal_constraints@.len() - c5,
        {
            let val = air.terminal_constraints[c5].evaluate(&ecur_ch);
            let quotient = val.mul(zterm_inv);
            let adj = air.terminal_adjustments[c5];
            let weight = coeffs[2 * (base4 + c5)].add(
                coeffs[2 * (base4 + c5) + 1].mul(x.pow(adj)),
            );
            acc = acc.add(weight.mul(quotient));
            c5 = c5 + 1;
        }
        proof {
            assert(acc.v as int == composition_value_at(
                *air,
                coeffs@,
                *base_lde,
                *ext_lde,
                challenges@,
                lde_points@,
                last_trace_point.v as int,
                blowup as int,
                t as int,
            ));
        }
        evals.push(acc);
        t = t + 1;
    }
    // Interpolate and enforce the declared degree bound.
    let poly = match interpolate(lde_points, &evals) {
        Some(p) => p,
        None => {
            return Err(ProvingError::Fail);
        },
    };
    if poly.trimmed_len() > air.composition_degree_bound {
        return Err(ProvingError::Fail);
    }
    Ok((evals, poly))
}

/// Coefficient `i` of the DEEP accumulation over the first `j` trace
/// columns: each column contributes its quotient at `z` and its quotient at
/// `z * g`, scaled by the column's drawn coefficient pair.
pub open spec fn deep_partial(polys: Seq<Poly>, dc: Seq<Fe>, z: int, zg: int, j: int, i: int) -> int
    decreases j,
{
    if j <= 0 {
        0int
    } else {
        fadd(
            fadd(
                deep_partial(polys, dc, z, zg, j - 1, i),
                fmul(dc[2 * (j - 1)].v as int, quotient_coeff(polys[j - 1].coeffs@, z, i)),
            ),
            fmul(dc[2 * (j - 1) + 1].v as int, quotient_coeff(polys[j - 1].coeffs@, zg, i)),
        )
    }
}

/// Coefficient `i` of the full DEEP polynomial: every trace column's pair of
/// quotients plus the composition polynomial's quotient at `z`, each scaled
/// by its drawn coefficient.
pub open spec fn deep_coeff_at(
    polys: Seq<Poly>,
    comp: Seq<Fe>,
    dc: Seq<Fe>,
    z: int,
    zg: int,
    i: int,
) -> int {
    fadd(
        deep_partial(polys, dc, z, zg, polys.len() as int, i),
        fmul(dc[dc.len() - 1].v as int, quotient_coeff(comp, z, i)),
    )
}

/// Builds the DEEP polynomial: for every trace column the quotients at `z`
/// and `z * g`, and for the composition polynomial the quotient at `z`, each
/// scaled by its drawn coefficient and summed.  Its degree must come out
/// strictly below the trace length; any leftover remainder or an excess
/// degree is a fatal internal error.  On success every coefficient is the
/// stated weighted sum of quotient coefficients.
pub fn build_deep_poly(
    base_polys: &Vec<Poly>,
    comp_poly: &Poly,
    z: Fe,
    zg: Fe,
    ood_evals: &Vec<Fe>,
    ood_evals_next: &Vec<Fe>,
    ood_comp: Fe,
    deep_coeffs: &Vec<Fe>,
    n: usize,
) -> (r: Result<Poly, ProvingError>)
    requires
        forall|j: int| 0 <= j < base_polys@.len() ==> (#[trigger] base_polys@[j]).wf(),
        comp_poly.wf(),
        z.wf(),
        zg.wf(),
        poly_wf(ood_evals@),
        poly_wf(ood_evals_next@),
        ood_comp.wf(),
        poly_wf(deep_coeffs@),
        ood_evals@.len() == base_polys@.len(),
        ood_evals_next@.len() == base_polys@.len(),
        deep_coeffs@.len() == 2 * base_polys@.len() + 1,
        base_polys@.len() <= 2048,
        n >= 2,
    ensures
        r is Ok ==> r.unwrap().wf() && r.unwrap().coeffs@.len() < n,
        r is Ok ==> forall|i: int|
            0 <= i ==> crate::poly::coeff_at(r.unwrap().coeffs@, i) == deep_coeff_at(
                base_polys@,
                comp_poly.coeffs@,
                deep_coeffs@,
                z.v as int,
                zg.v as int,
                i,
            ),
{
    let mut acc = Poly::zero();
    let mut j: usize = 0;
    while j < base_polys.len()
        invariant
            j <= base_polys@.len(),
            forall|j2: int| 0 <= j2 < base_polys@.len() ==> (#[trigger] base_polys@[j2]).wf(),
            z.wf(),
            zg.wf(),
            poly_wf(ood_evals@),
            poly_wf(ood_evals_next@),
            poly_wf(deep_coeffs@),
            ood_evals@.len() == base_polys@.len(),
            ood_evals_next@.len() == base_polys@.len(),
            deep_coeffs@.len() == 2 * base_polys@.len() + 1,
            base_polys@.len() <= 2048,
            acc.wf(),
            forall|i: int|
                0 <= i ==> #[trigger] crate::poly::coeff_at(acc.coeffs@, i) == deep_partial(
                    base_polys@,
                    deep_coeffs@,
                    z.v as int,
                    zg.v as int,
                    j as int,
                    i,
                ),
        decreases base_polys@.len() - j,
    {
        let p = &base_polys[j];
        if p.coeffs.len() == 0 {
            proof {
                assert forall|i: int| 0 <= i implies #[trigger] crate::poly::coeff_at(
                    acc.coeffs@,
                    i,
                ) == deep_partial(
                    base_polys@,
                    deep_coeffs@,
                    z.v as int,
                    zg.v as int,
                    j as int + 1,
                    i,
                ) by {
                    let d = crate::poly::coeff_at(acc.coeffs@, i);
                    assert(quotient_coeff(base_polys@[j as int].coeffs@, z.v as int, i) == 0);
                    assert(quotient_coeff(base_polys@[j as int].coeffs@, zg.v as int, i) == 0);
                    assert(0 <= d < P);
                    vstd::arithmetic::div_mod::lemma_small_mod(d as nat, P as nat);
                }
            }
            j = j + 1;
            continue ;
        }
        let q1 = match point_quotient(p, z, ood_evals[j]) {
            Ok(q) => q,
            Err(e) => {
                return Err(e);
            },
        };
        let q2 = match point_quotient(p, zg, ood_evals_next[j]) {
            Ok(q) => q,
            Err(e) => {
                return Err(e);
            },
        };
        let ghost acc_before = acc.coeffs@;
        let s1 = q1.scale(deep_coeffs[2 * j]);
        let s2 = q2.scale(deep_coeffs[2 * j + 1]);
        let acc1 = acc.add_poly(&s1);
        acc = acc1.add_poly(&s2);
        proof {
            assert forall|i: int| 0 <= i implies #[trigger] crate::poly::coeff_at(acc.coeffs@, i)
                == deep_partial(
                base_polys@,
                deep_coeffs@,
                z.v as int,
                zg.v as int,
                j as int + 1,
                i,
            ) by {
                assert(crate::poly::coeff_at(s1.coeffs@, i) == fmul(
                    deep_coeffs@[2 * j].v as int,
                    quotient_coeff(base_polys@[j as int].coeffs@, z.v as int, i),
                ));
                assert(crate::poly::coeff_at(s2.coeffs@, i) == fmul(
                    deep_coeffs@[2 * j + 1].v as int,
                    quotient_coeff(base_polys@[j as int].coeffs@, zg.v as int, i),
                ));
                assert(crate::poly::coeff_at(acc1.coeffs@, i) == fadd(
                    crate::poly::coeff_at(acc_before, i),
                    crate::poly::coeff_at(s1.coeffs@, i),
                ));
                assert(crate::poly::coeff_at(acc.coeffs@, i) == fadd(
                    crate::poly::coeff_at(acc1.coeffs@, i),
                    crate::poly::coeff_at(s2.coeffs@, i),
                ));
            }
        }
        j = j + 1;
    }
    if comp_poly.coeffs.len() >= 1 {
        let qc = match point_quotient(comp_poly, z, ood_comp) {
            Ok(q) => q,
            Err(e) => {
                return Err(e);
            },
        };
        let ghost acc_before = acc.coeffs@;
        let sc = qc.scale(deep_coeffs[deep_coeffs.len() - 1]);
        acc = acc.add_poly(&sc);
        proof {
            assert forall|i: int| 0 <= i implies #[trigger] crate::poly::coeff_at(acc.coeffs@, i)
                == deep_coeff_at(
                base_polys@,
                comp_poly.coeffs@,
                deep_coeffs@,
                z.v as int,
                zg.v as int,
                i,
            ) by {
                assert(crate::poly::coeff_at(sc.coeffs@, i) == fmul(
                    deep_coeffs@[deep_coeffs@.len() - 1].v as int,
                    quotient_coeff(comp_poly.coeffs@, z.v as int, i),
                ));
                assert(crate::poly::coeff_at(acc.coeffs@, i) == fadd(
                    crate::poly::coeff_at(acc_before, i),
                    crate::poly::coeff_at(sc.coeffs@, i),
                ));
            }
        }
    } else {
        proof {
            assert forall|i: int| 0 <= i implies #[trigger] crate::poly::coeff_at(acc.coeffs@, i)
                == deep_coeff_at(
                base_polys@,
                comp_poly.coeffs@,
                deep_coeffs@,
                z.v as int,
                zg.v as int,
                i,
            ) by {
                let d = crate::poly::coeff_at(acc.coeffs@, i);
                assert(quotient_coeff(comp_poly.coeffs@, z.v as int, i) == 0);
                assert(0 <= d < P);
                vstd::arithmetic::div_mod::lemma_small_mod(d as nat, P as nat);
            }
        }
    }
    // The DEEP degree bound: strictly below the trace length.
    let trimmed = acc.trimmed_len();
    if trimmed >= n {
        return Err(ProvingError::Fail);
    }
    let mut out: Vec<Fe> = Vec::new();
    let mut i: usize = 0;
    while i < trimmed
        invariant
            i <= trimmed,
            trimmed <= acc.coeffs@.len(),
            acc.wf(),
            out@.len() == i,
            poly_wf(out@),
            forall|i2: int| 0 <= i2 < i ==> #[trigger] out@[i2] == acc.coeffs@[i2],
        decreases trimmed - i,
    {
        out.push(acc.coeffs[i]);
        i = i + 1;
    }
    proof {
        assert forall|i2: int| 0 <= i2 implies #[trigger] crate::poly::coeff_at(out@, i2)
            == deep_coeff_at(
            base_polys@,
            comp_poly.coeffs@,
            deep_coeffs@,
            z.v as int,
            zg.v as int,
            i2,
        ) by {
            if i2 < out@.len() {
                assert(crate::poly::coeff_at(out@, i2) == crate::poly::coeff_at(acc.coeffs@, i2));
            } else if i2 < acc.coeffs@.len() {
                assert(acc.coeffs@[i2].v == 0);
                assert(crate::poly::coeff_at(acc.coeffs@, i2) == 0);
            } else {
                assert(crate::poly::coeff_at(acc.coeffs@, i2) == 0);
            }
        }
    }
    Ok(Poly { coeffs: out })
}

/// Checks a matrix for uniform column heights and canonical entries.
fn check_matrix(m: &Matrix) -> (r: bool)
    ensures
        r ==> m.wf(),
{
    let mut col_check: usize = 0;
    while col_check < m.cols.len()
        invariant
            col_check <= m.cols@.len(),
            forall|j: int|
                0 <= j < col_check ==> (#[trigger] m.cols@[j])@.len() == m.cols@[0]@.len()
                    && poly_wf(m.cols@[j]@),
        decreases m.cols@.len() - col_check,
    {
        let col = &m.cols[col_check];
        if col.len() != m.cols[0].len() {
            return false;
        }
        let mut t: usize = 0;
        while t < col.len()
            invariant
                t <= col@.len(),
                forall|t2: int| 0 <= t2 < t ==> (#[trigger] col@[t2]).wf(),
            decreases col@.len() - t,
        {
            if col[t].v >= P {
                return false;
            }
            t = t + 1;
        }
        col_check = col_check + 1;
    }
    true
}

/// Evaluates every polynomial at one point.
fn eval_all_at(polys: &Vec<Poly>, z: Fe) -> (r: Vec<Fe>)
    requires
        forall|j: int| 0 <= j < polys@.len() ==> (#[trigger] polys@[j]).wf(),
        z.wf(),
    ensures
        r@.len() == polys@.len(),
        poly_wf(r@),
        forall|j: int|
            0 <= j < r@.len() ==> (#[trigger] r@[j]).v as int == poly_eval(
                polys@[j].coeffs@,
                z.v as int,
            ),
{
    let mut out: Vec<Fe> = Vec::new();
    let mut j: usize = 0;
    while j < polys.len()
        invariant
            j <= polys@.len(),
            forall|j2: int| 0 <= j2 < polys@.len() ==> (#[trigger] polys@[j2]).wf(),
            z.wf(),
            out@.len() == j,
            poly_wf(out@),
            forall|j2: int|
                0 <= j2 < j ==> (#[trigger] out@[j2]).v as int == poly_eval(
                    polys@[j2].coeffs@,
                    z.v as int,
                ),
        decreases polys@.len() - j,
    {
        out.push(polys[j].eval(z));
        j = j + 1;
    }
    out
}

/// Draws the query positions, each below the LDE domain size: position `q`
/// is the `q`-th index squeezed from the post-grind transcript state.
fn draw_positions(transcript: &mut Transcript, count: usize, m: u64) -> (r: Vec<u64>)
    requires
        old(transcript).counter == 0,
        count <= 1024,
        m > 0,
    ensures
        r@.len() == count,
        forall|q: int| 0 <= q < count ==> (#[trigger] r@[q]) < m,
        final(transcript).state@ == old(transcript).state@,
        forall|q: int|
            0 <= q < count ==> (#[trigger] r@[q]) as int == crate::utils::u64_from_be(
                sha256_of(old(transcript).state@ + crate::utils::u64_be_bytes(q as u64)),
            ) % (m as int),
{
    let mut positions: Vec<u64> = Vec::new();
    let mut q: usize = 0;
    while q < count
        invariant
            q <= count,
            count <= 1024,
            m > 0,
            transcript.state@ == old(transcript).state@,
            transcript.counter == q,
            positions@.len() == q,
            forall|q2: int| 0 <= q2 < q ==> (#[trigger] positions@[q2]) < m,
            forall|q2: int|
                0 <= q2 < q ==> (#[trigger] positions@[q2]) as int == crate::utils::u64_from_be(
                    sha256_of(old(transcript).state@ + crate::utils::u64_be_bytes(q2 as u64)),
                ) % (m as int),
        decreases count - q,
    {
        positions.push(transcript.draw_index(m));
        q = q + 1;
    }
    positions
}

/// Opens the base-trace row, the extension row when an extension segment
/// was committed, and the composition value at every queried position, with
/// their Merkle paths.
fn build_openings(
    base_lde: &Matrix,
    base_tree: &MerkleTree,
    ext_lde: &Matrix,
    ext_tree: &Option<MerkleTree>,
    comp_matrix: &Matrix,
    comp_tree: &MerkleTree,
    positions: &Vec<u64>,
) -> (r: Vec<QueryOpening>)
    requires
        base_lde.wf(),
        base_tree.wf(),
        ext_tree is Some ==> ext_tree.unwrap().wf() && ext_lde.wf()
            && ext_tree.unwrap().spec_num_leaves() == base_lde.spec_num_rows()
            && ext_lde.spec_num_rows() == base_lde.spec_num_rows(),
        comp_matrix.wf(),
        comp_tree.wf(),
        base_tree.spec_num_leaves() == base_lde.spec_num_rows(),
        comp_tree.spec_num_leaves() == comp_matrix.spec_num_rows(),
        comp_matrix.cols@.len() == 1,
        comp_matrix.spec_num_rows() == base_lde.spec_num_rows(),
        forall|q: int|
            0 <= q < positions@.len() ==> (#[trigger] positions@[q]) < base_lde.spec_num_rows(),
    ensures
        r@.len() == positions@.len(),
        forall|q: int| 0 <= q < r@.len() ==> (#[trigger] r@[q]).position == positions@[q],
{
    let mut openings: Vec<QueryOpening> = Vec::new();
    let mut q2: usize = 0;
    while q2 < positions.len()
        invariant
            q2 <= positions@.len(),
            base_lde.wf(),
            base_tree.wf(),
            ext_tree is Some ==> ext_tree.unwrap().wf() && ext_lde.wf()
                && ext_tree.unwrap().spec_num_leaves() == base_lde.spec_num_rows()
                && ext_lde.spec_num_rows() == base_lde.spec_num_rows(),
            comp_matrix.wf(),
            comp_tree.wf(),
            base_tree.spec_num_leaves() == base_lde.spec_num_rows(),
            comp_tree.spec_num_leaves() == comp_matrix.spec_num_rows(),
            comp_matrix.cols@.len() == 1,
            comp_matrix.spec_num_rows() == base_lde.spec_num_rows(),
            forall|q: int|
                0 <= q < positions@.len() ==> (#[trigger] positions@[q])
                    < base_lde.spec_num_rows(),
            openings@.len() == q2,
            forall|q: int|
                0 <= q < q2 ==> (#[trigger] openings@[q]).position == positions@[q],
        decreases positions@.len() - q2,
    {
        let position = positions[q2];
        let idx = position as usize;
        let trace_row = matrix_row(base_lde, idx);
        let trace_path = base_tree.open_path(idx);
        let (extension_row, extension_path) = match ext_tree {
            Some(tree) => (matrix_row(ext_lde, idx), tree.open_path(idx)),
            None => (Vec::new(), Vec::new()),
        };
        let composition_value = comp_matrix.cols[0][idx];
        let composition_path = comp_tree.open_path(idx);
        openings.push(
            QueryOpening {
                position,
                trace_row,
                trace_path,
                extension_row,
                extension_path,
                composition_value,
                composition_path,
            },
        );
        q2 = q2 + 1;
    }
    openings
}
} // verus!
