//! The memory table of the brainfuck AIR: rows `[cycle, mp, mem_val, dummy]`
//! derived from the processor trace, sorted by memory pointer, with dummy rows
//! inserted so that on every run of equal memory pointers the cycle count
//! steps by exactly one, and padded to a power-of-two height by dummy rows
//! that satisfy every transition constraint trivially.

use vstd::prelude::*;
use crate::field::{fadd, fmul, fsub, lemma_fadd_cases, lemma_fsub_cases, Fe, P};
use crate::multivariate::{assignment_wf, exps_le, lemma_exps_le_mono, Multivariate};
use crate::poly::poly_wf;
use crate::utils::{is_pow2, is_power_of_two, lemma_next_pow2_exists, Matrix};

verus! {

/// Memory-table column indices.
pub const CYCLE: usize = 0;

pub const MP: usize = 1;

pub const MEM_VAL: usize = 2;

pub const DUMMY: usize = 3;

pub const PERMUTATION: usize = 4;

/// Processor-table column indices read by [`MemoryTable::derive_matrix`].
pub const PROCESSOR_CYCLE: usize = 0;

pub const PROCESSOR_CURR_INSTR: usize = 2;

pub const PROCESSOR_MP: usize = 4;

pub const PROCESSOR_MEM_VAL: usize = 5;

pub const PROCESSOR_WIDTH: usize = 7;

/// A memory-table row: four canonical field elements.
pub open spec fn row_wf(r: Seq<Fe>) -> bool {
    r.len() == 4 && poly_wf(r)
}

/// Every row of the table is well formed.
pub open spec fn mem_rows_wf(m: Seq<Vec<Fe>>) -> bool {
    forall|i: int| 0 <= i < m.len() ==> row_wf((#[trigger] m[i])@)
}

/// The rows as plain sequences.
pub open spec fn rows_view(m: Seq<Vec<Fe>>) -> Seq<Seq<Fe>> {
    m.map_values(|r: Vec<Fe>| r@)
}

/// Sorted by memory pointer, the canonical integer order.
pub open spec fn sorted_by_mp(m: Seq<Vec<Fe>>) -> bool {
    forall|i: int|
        0 <= i && i + 1 < m.len() ==> (#[trigger] m[i])@[MP as int].v <= m[i + 1]@[MP as int].v
}

/// On every pair of adjacent rows with equal memory pointer the cycle count
/// steps by exactly one.
pub open spec fn gap_free(m: Seq<Vec<Fe>>) -> bool {
    forall|i: int|
        0 <= i && i + 1 < m.len() && (#[trigger] m[i])@[MP as int].v == m[i + 1]@[MP as int].v
            ==> m[i + 1]@[CYCLE as int].v as int == fadd(m[i]@[CYCLE as int].v as int, 1)
}

/// Every dummy row replicates its predecessor's memory pointer and value and
/// advances the cycle by one.
pub open spec fn dummy_rows_replicate(m: Seq<Vec<Fe>>) -> bool {
    forall|i: int|
        0 <= i < m.len() && (#[trigger] m[i])@[DUMMY as int].v == 1 ==> i >= 1 && m[i]@[MP
            as int].v == m[i - 1]@[MP as int].v && m[i]@[MEM_VAL as int].v == m[i - 1]@[MEM_VAL
            as int].v && m[i]@[CYCLE as int].v as int == fadd(m[i - 1]@[CYCLE as int].v as int, 1)
}

/// Every dummy flag is zero or one.
pub open spec fn dummy_flags_boolean(m: Seq<Vec<Fe>>) -> bool {
    forall|i: int|
        0 <= i < m.len() ==> (#[trigger] m[i])@[DUMMY as int].v == 0 || m[i]@[DUMMY as int].v == 1
}

/// A processor row contributes a memory row iff its current instruction is
/// not zero (zero marks rows past the program's halt).
pub open spec fn is_real_row(r: Vec<Fe>) -> bool {
    r@[PROCESSOR_CURR_INSTR as int].v != 0
}

/// The memory-table projection of a processor row, flagged as not dummy.
pub open spec fn memory_row_of(r: Vec<Fe>) -> Seq<Fe> {
    seq![
        r@[PROCESSOR_CYCLE as int],
        r@[PROCESSOR_MP as int],
        r@[PROCESSOR_MEM_VAL as int],
        Fe { v: 0 },
    ]
}

/// The memory rows selected from a processor matrix, in trace order.
pub open spec fn selected_memory_rows(m: Seq<Vec<Fe>>) -> Seq<Seq<Fe>> {
    m.filter(|r: Vec<Fe>| is_real_row(r)).map_values(|r: Vec<Fe>| memory_row_of(r))
}

/// The rows of the table that are not dummy, in order.
pub open spec fn real_rows(m: Seq<Vec<Fe>>) -> Seq<Seq<Fe>> {
    rows_view(m).filter(|r: Seq<Fe>| r[DUMMY as int].v == 0)
}

/// The padding row that extends a table ending in `c`: cycle advanced by one,
/// memory pointer and value carried over, flagged dummy.
pub open spec fn padding_row_of(c: Seq<Fe>) -> Seq<Fe> {
    seq![
        Fe { v: fadd(c[CYCLE as int].v as int, 1) as u64 },
        c[MP as int],
        c[MEM_VAL as int],
        Fe { v: 1 },
    ]
}

/// The seven transition constraints of the memory table, as field equations
/// on an adjacent pair of rows (`c` current, `n` next): the memory pointer
/// increases by one or stays; on an increase the memory value is reset; the
/// dummy flag is boolean; under a dummy flag neither memory pointer nor value
/// changes; and on an unchanged memory pointer the cycle steps by one.
pub open spec fn transition_constraints_hold(c: Seq<Fe>, n: Seq<Fe>) -> bool {
    let dmp = fsub(n[MP as int].v as int, c[MP as int].v as int);
    let dmv = fsub(n[MEM_VAL as int].v as int, c[MEM_VAL as int].v as int);
    let dcy = fsub(n[CYCLE as int].v as int, c[CYCLE as int].v as int);
    &&& fmul(fsub(dmp, 1), dmp) == 0
    &&& fmul(dmp, n[MEM_VAL as int].v as int) == 0
    &&& fmul(fsub(n[DUMMY as int].v as int, 1), n[DUMMY as int].v as int) == 0
    &&& fmul(dmp, c[DUMMY as int].v as int) == 0
    &&& fmul(dmv, c[DUMMY as int].v as int) == 0
    &&& fmul(fsub(dmp, 1), fsub(dcy, 1)) == 0
}

/// A padding row satisfies every transition constraint against the row it
/// extends.
pub proof fn lemma_padding_satisfies_transitions(c: Seq<Fe>)
    requires
        row_wf(c),
    ensures
        transition_constraints_hold(c, padding_row_of(c)),
{
    let n = padding_row_of(c);
    let p = P as int;
    lemma_fadd_cases(c[CYCLE as int].v as int, 1);
    lemma_fsub_cases(n[CYCLE as int].v as int, c[CYCLE as int].v as int);
    lemma_fsub_cases(n[MP as int].v as int, c[MP as int].v as int);
    lemma_fsub_cases(n[MEM_VAL as int].v as int, c[MEM_VAL as int].v as int);
    assert(fsub(n[MP as int].v as int, c[MP as int].v as int) == 0);
    assert(fsub(n[MEM_VAL as int].v as int, c[MEM_VAL as int].v as int) == 0);
    assert(fsub(n[CYCLE as int].v as int, c[CYCLE as int].v as int) == 1);
    assert(fsub(1, 1) == 0) by {
        lemma_fsub_cases(1, 1);
    }
    assert(fmul(fsub(0, 1), 0) == 0) by {
        vstd::arithmetic::div_mod::lemma_small_mod(0nat, P as nat);
    }
    assert(fmul(0, n[MEM_VAL as int].v as int) == 0) by {
        vstd::arithmetic::div_mod::lemma_small_mod(0nat, P as nat);
    }
    assert(fmul(0, c[DUMMY as int].v as int) == 0) by {
        vstd::arithmetic::div_mod::lemma_small_mod(0nat, P as nat);
    }
    assert(fmul(fsub(0, 1), fsub(1, 1)) == 0) by {
        vstd::arithmetic::div_mod::lemma_small_mod(0nat, P as nat);
    }
    assert(fmul(fsub(1, 1), 1) == 0) by {
        vstd::arithmetic::div_mod::lemma_small_mod(0nat, P as nat);
    }
}




/// The relational reading of the six transition constraints: the memory
/// pointer steps by zero or one; on a step the next memory value is zero;
/// the next dummy flag is boolean; under a set dummy flag neither memory
/// pointer nor value changes; and on an unchanged memory pointer the cycle
/// steps by one.
pub open spec fn transition_relation_holds(c: Seq<Fe>, n: Seq<Fe>) -> bool {
    let dmp = fsub(n[MP as int].v as int, c[MP as int].v as int);
    &&& (dmp == 0 || dmp == 1)
    &&& (dmp == 1 ==> n[MEM_VAL as int].v == 0)
    &&& (n[DUMMY as int].v == 0 || n[DUMMY as int].v == 1)
    &&& (c[DUMMY as int].v != 0 ==> dmp == 0 && n[MEM_VAL as int].v == c[MEM_VAL as int].v)
    &&& (dmp == 0 ==> fsub(n[CYCLE as int].v as int, c[CYCLE as int].v as int) == 1)
}

/// The relational reading implies the constraint equations: each product has
/// a zero factor.  (The converse direction, from a zero product to a zero
/// factor, is the field's no-zero-divisor property, equivalent to the
/// primality of `P`; see `lemma_zero_product_with_inverse` for the witness
/// form this development can discharge.)
pub proof fn lemma_relation_implies_constraints(c: Seq<Fe>, n: Seq<Fe>)
    requires
        row_wf(c),
        row_wf(n),
        transition_relation_holds(c, n),
    ensures
        transition_constraints_hold(c, n),
{
    let dmp = fsub(n[MP as int].v as int, c[MP as int].v as int);
    let dmv = fsub(n[MEM_VAL as int].v as int, c[MEM_VAL as int].v as int);
    let dcy = fsub(n[CYCLE as int].v as int, c[CYCLE as int].v as int);
    lemma_fsub_cases(n[MEM_VAL as int].v as int, c[MEM_VAL as int].v as int);
    assert(fsub(0, 1) == P - 1) by {
        lemma_fsub_cases(0, 1);
    }
    assert(fsub(1, 1) == 0) by {
        lemma_fsub_cases(1, 1);
    }
    assert forall|x: int| #[trigger] fmul(x, 0) == 0 && fmul(0, x) == 0 by {
        vstd::arithmetic::div_mod::lemma_small_mod(0nat, P as nat);
    }
    if dmp == 0 {
        assert(fmul(fsub(dmp, 1), dmp) == 0);
        assert(fmul(dmp, n[MEM_VAL as int].v as int) == 0);
        assert(fmul(dmp, c[DUMMY as int].v as int) == 0);
        assert(fmul(fsub(dmp, 1), fsub(dcy, 1)) == 0);
    } else {
        assert(fmul(fsub(dmp, 1), dmp) == 0);
        assert(fmul(dmp, n[MEM_VAL as int].v as int) == fmul(1, 0));
        assert(c[DUMMY as int].v == 0);
        assert(fmul(fsub(dmp, 1), fsub(dcy, 1)) == fmul(0, fsub(dcy, 1)));
    }
    if c[DUMMY as int].v != 0 {
        assert(dmv == 0);
    } else {
        assert(fmul(dmv, 0) == 0);
    }
    if n[DUMMY as int].v == 0 {
        assert(fmul(fsub(n[DUMMY as int].v as int, 1), n[DUMMY as int].v as int) == 0);
    } else {
        assert(fmul(fsub(n[DUMMY as int].v as int, 1), n[DUMMY as int].v as int) == fmul(0, 1));
    }
}

/// One step of the memory permutation running product: a dummy row carries
/// the accumulator over, a real row multiplies in its permutation factor.
pub open spec fn perm_step(acc: int, row: Seq<Fe>, ch: Seq<Fe>) -> int {
    if row[DUMMY as int].v == 1 {
        acc
    } else {
        fmul(acc, permutation_factor(row, ch))
    }
}

/// The running product after `i` rows, starting from one.
pub open spec fn perm_column_at(rows: Seq<Vec<Fe>>, ch: Seq<Fe>, i: int) -> int
    decreases i,
{
    if i <= 0 {
        1int
    } else {
        perm_step(perm_column_at(rows, ch, i - 1), rows[i - 1]@, ch)
    }
}

/// The symbolic transition constraints mean exactly the row equations: on
/// the assignment laying a row and its successor end to end, every one of
/// the six constraint polynomials vanishes precisely when
/// [`transition_constraints_hold`] does.  The hypotheses are what
/// [`MemoryTable::base_transition_constraints`] ensures of its result.
pub proof fn lemma_constraints_mean_row_equations(cs: Seq<Multivariate>, c: Seq<Fe>, n: Seq<Fe>)
    requires
        row_wf(c),
        row_wf(n),
        cs.len() == 6,
        forall|a: Seq<Fe>|
            assignment_wf(a, 8nat) ==> {
                let dmp = col_delta(a, 4, MP as int);
                &&& (#[trigger] cs[0].value_at(a)) == fmul(fsub(dmp, 1), dmp)
                &&& cs[1].value_at(a) == fmul(dmp, a[4 + MEM_VAL].v as int)
                &&& cs[2].value_at(a) == fmul(
                    fsub(a[4 + DUMMY].v as int, 1),
                    a[4 + DUMMY].v as int,
                )
                &&& cs[3].value_at(a) == fmul(dmp, a[DUMMY as int].v as int)
                &&& cs[4].value_at(a) == fmul(
                    col_delta(a, 4, MEM_VAL as int),
                    a[DUMMY as int].v as int,
                )
                &&& cs[5].value_at(a) == fmul(fsub(dmp, 1), fsub(col_delta(a, 4, CYCLE as int), 1))
            },
    ensures
        (forall|j: int| 0 <= j < 6 ==> (#[trigger] cs[j]).value_at(c + n) == 0)
            <==> transition_constraints_hold(c, n),
{
    let a = c + n;
    assert(assignment_wf(a, 8nat));
    assert(a[CYCLE as int] == c[CYCLE as int]);
    assert(a[MP as int] == c[MP as int]);
    assert(a[MEM_VAL as int] == c[MEM_VAL as int]);
    assert(a[DUMMY as int] == c[DUMMY as int]);
    assert(a[4 + CYCLE] == n[CYCLE as int]);
    assert(a[4 + MP] == n[MP as int]);
    assert(a[4 + MEM_VAL] == n[MEM_VAL as int]);
    assert(a[4 + DUMMY] == n[DUMMY as int]);
    assert(cs[0].value_at(a) == fmul(
        fsub(col_delta(a, 4, MP as int), 1),
        col_delta(a, 4, MP as int),
    ));
    if transition_constraints_hold(c, n) {
        assert forall|j: int| 0 <= j < 6 implies (#[trigger] cs[j]).value_at(c + n) == 0 by {
        }
    }
}

/// `filter` looks at a pushed element last.
proof fn lemma_filter_push<A>(s: Seq<A>, pred: spec_fn(A) -> bool, x: A)
    ensures
        (s.push(x)).filter(pred) == if pred(x) {
            s.filter(pred).push(x)
        } else {
            s.filter(pred)
        },
{
    reveal(Seq::filter);
    assert(s.push(x).drop_last() =~= s);
    assert(s.push(x).last() == x);
    assert((s.push(x)).filter(pred) == if pred(x) {
        s.filter(pred).push(x)
    } else {
        s.filter(pred)
    });
}

/// Filtering the empty sequence yields the empty sequence.
proof fn lemma_filter_empty<A>(pred: spec_fn(A) -> bool)
    ensures
        Seq::<A>::empty().filter(pred) == Seq::<A>::empty(),
{
    reveal(Seq::filter);
}

/// `map_values` distributes over `push`.
proof fn lemma_map_values_push<A, B>(s: Seq<A>, f: spec_fn(A) -> B, x: A)
    ensures
        (s.push(x)).map_values(f) == s.map_values(f).push(f(x)),
{
    assert((s.push(x)).map_values(f) =~= s.map_values(f).push(f(x)));
}

/// Moving one step closer: appending a dummy row shrinks the cycle gap to the
/// next row by exactly one.
proof fn lemma_gap_step(next: int, cur: int)
    requires
        0 <= next < P,
        0 <= cur < P,
        fsub(next, fadd(cur, 1)) != 0,
    ensures
        fsub(next, fadd(fadd(cur, 1), 1)) == fsub(next, fadd(cur, 1)) - 1,
        fsub(next, fadd(cur, 1)) >= 1,
{
    lemma_fadd_cases(cur, 1);
    let c1 = fadd(cur, 1);
    lemma_fadd_cases(c1, 1);
    lemma_fsub_cases(next, c1);
    lemma_fsub_cases(next, fadd(c1, 1));
}

/// The brainfuck memory table: a matrix of `[cycle, mp, mem_val, dummy]`
/// rows.
pub struct MemoryTable {
    pub matrix: Vec<Vec<Fe>>,
}

impl MemoryTable {
    pub open spec fn wf(self) -> bool {
        mem_rows_wf(self.matrix@)
    }

    /// Wraps an already-derived matrix.
    pub fn new(matrix: Vec<Vec<Fe>>) -> (r: MemoryTable)
        requires
            mem_rows_wf(matrix@),
        ensures
            r.wf(),
            r.matrix@ == matrix@,
    {
        MemoryTable { matrix }
    }

    /// Outputs an unpadded but interweaved matrix: the rows of the processor
    /// trace that executed an instruction, projected to memory columns,
    /// sorted by memory pointer, with dummy rows inserted so that the cycle
    /// count steps by one along every run of equal memory pointers.
    pub fn derive_matrix(processor_matrix: &Vec<Vec<Fe>>) -> (r: Vec<Vec<Fe>>)
        requires
            forall|i: int|
                0 <= i < processor_matrix@.len() ==> (#[trigger] processor_matrix@[i])@.len()
                    == PROCESSOR_WIDTH && poly_wf(processor_matrix@[i]@),
        ensures
            mem_rows_wf(r@),
            sorted_by_mp(r@),
            gap_free(r@),
            dummy_flags_boolean(r@),
            dummy_rows_replicate(r@),
            real_rows(r@).to_multiset() == selected_memory_rows(processor_matrix@).to_multiset(),
    {
        let filtered = select_memory_rows(processor_matrix);
        let sorted = sort_rows_by_mp(filtered);
        fill_cycle_gaps(sorted)
    }

    /// Pads the table with dummy rows until the row count is a power of two;
    /// each padding row extends the last with the cycle advanced by one, so
    /// every transition constraint keeps holding across the padding.
    pub fn pad(&mut self)
        requires
            old(self).wf(),
            old(self).matrix@.len() >= 1,
            old(self).matrix@.len() <= 0x40000000usize,
        ensures
            final(self).wf(),
            is_pow2(final(self).matrix@.len() as nat),
            old(self).matrix@.len() <= final(self).matrix@.len() < 2 * old(self).matrix@.len(),
            final(self).matrix@.subrange(0, old(self).matrix@.len() as int) == old(self).matrix@,
            forall|i: int|
                old(self).matrix@.len() <= i < final(self).matrix@.len() ==> (
                #[trigger] final(self).matrix@[i])@ == padding_row_of(
                    final(self).matrix@[i - 1]@,
                ),
    {
        let ghost orig = self.matrix@;
        let ghost n = self.matrix@.len();
        proof {
            lemma_next_pow2_exists(n);
        }
        let ghost target = choose|m: nat| is_pow2(m) && n <= m < 2 * n;
        while !is_power_of_two(self.matrix.len())
            invariant
                mem_rows_wf(self.matrix@),
                n >= 1,
                is_pow2(target),
                n <= target < 2 * n,
                n <= self.matrix@.len() <= target,
                self.matrix@.subrange(0, n as int) == orig,
                forall|i: int|
                    n <= i < self.matrix@.len() ==> (#[trigger] self.matrix@[i])@
                        == padding_row_of(self.matrix@[i - 1]@),
            decreases target - self.matrix@.len(),
        {
            proof {
                if self.matrix@.len() == target {
                    assert(is_pow2(self.matrix@.len() as nat));
                }
            }
            let last = &self.matrix[self.matrix.len() - 1];
            let cycle = last[CYCLE];
            let mp = last[MP];
            let mem_val = last[MEM_VAL];
            let mut row: Vec<Fe> = Vec::new();
            row.push(cycle.add(Fe::one()));
            row.push(mp);
            row.push(mem_val);
            row.push(Fe { v: 1 });
            proof {
                assert(row@ =~= padding_row_of(self.matrix@[self.matrix@.len() - 1]@));
            }
            self.matrix.push(row);
            proof {
                assert(self.matrix@.subrange(0, n as int) =~= orig);
            }
        }
    }
}

/// The rows of the processor trace that executed an instruction, projected to
/// `[cycle, mp, mem_val, 0]`, in trace order.
fn select_memory_rows(processor_matrix: &Vec<Vec<Fe>>) -> (r: Vec<Vec<Fe>>)
    requires
        forall|i: int|
            0 <= i < processor_matrix@.len() ==> (#[trigger] processor_matrix@[i])@.len()
                == PROCESSOR_WIDTH && poly_wf(processor_matrix@[i]@),
    ensures
        mem_rows_wf(r@),
        rows_view(r@) == selected_memory_rows(processor_matrix@),
        forall|i: int| 0 <= i < r@.len() ==> (#[trigger] r@[i])@[DUMMY as int].v == 0,
{
    let mut out: Vec<Vec<Fe>> = Vec::new();
    let mut i: usize = 0;
    while i < processor_matrix.len()
        invariant
            i <= processor_matrix@.len(),
            forall|k: int|
                0 <= k < processor_matrix@.len() ==> (#[trigger] processor_matrix@[k])@.len()
                    == PROCESSOR_WIDTH && poly_wf(processor_matrix@[k]@),
            mem_rows_wf(out@),
            rows_view(out@) == selected_memory_rows(processor_matrix@.subrange(0, i as int)),
            forall|k: int| 0 <= k < out@.len() ==> (#[trigger] out@[k])@[DUMMY as int].v == 0,
        decreases processor_matrix@.len() - i,
    {
        let ghost pre = processor_matrix@.subrange(0, i as int);
        let ghost post = processor_matrix@.subrange(0, i as int + 1);
        let ghost el = processor_matrix@[i as int];
        let ghost pred = |r: Vec<Fe>| is_real_row(r);
        let ghost f = |r: Vec<Fe>| memory_row_of(r);
        proof {
            assert(post =~= pre.push(el));
            lemma_filter_push(pre, pred, el);
            lemma_map_values_push(pre.filter(pred), f, el);
        }
        let row = &processor_matrix[i];
        if row[PROCESSOR_CURR_INSTR].v != 0 {
            let mut nr: Vec<Fe> = Vec::new();
            nr.push(row[PROCESSOR_CYCLE]);
            nr.push(row[PROCESSOR_MP]);
            nr.push(row[PROCESSOR_MEM_VAL]);
            nr.push(Fe { v: 0 });
            proof {
                assert(nr@ =~= memory_row_of(el));
            }
            let ghost out_pre = out@;
            out.push(nr);
            proof {
                lemma_map_values_push(out_pre, |r: Vec<Fe>| r@, nr);
                assert(rows_view(out@) == rows_view(out_pre).push(nr@));
                assert(selected_memory_rows(post) == selected_memory_rows(pre).push(
                    memory_row_of(el),
                ));
                assert(rows_view(out@) == selected_memory_rows(post));
            }
        } else {
            proof {
                assert(!pred(el));
                assert(selected_memory_rows(post) == selected_memory_rows(pre));
                assert(rows_view(out@) == selected_memory_rows(post));
            }
        }
        i = i + 1;
    }
    proof {
        assert(processor_matrix@.subrange(0, processor_matrix@.len() as int)
            =~= processor_matrix@);
    }
    out
}

/// Stable insertion sort of memory rows by the memory-pointer column.
#[verifier::rlimit(100)]
fn sort_rows_by_mp(rows: Vec<Vec<Fe>>) -> (r: Vec<Vec<Fe>>)
    requires
        mem_rows_wf(rows@),
        forall|i: int| 0 <= i < rows@.len() ==> (#[trigger] rows@[i])@[DUMMY as int].v == 0,
    ensures
        mem_rows_wf(r@),
        sorted_by_mp(r@),
        r@.len() == rows@.len(),
        rows_view(r@).to_multiset() == rows_view(rows@).to_multiset(),
        forall|i: int| 0 <= i < r@.len() ==> (#[trigger] r@[i])@[DUMMY as int].v == 0,
{
    broadcast use vstd::multiset::group_multiset_axioms;

    let mut v = rows;
    let ghost all = rows@;
    let mut i: usize = 1;
    while i < v.len()
        invariant
            1 <= i,
            v@.len() == all.len(),
            mem_rows_wf(v@),
            forall|k: int| 0 <= k < v@.len() ==> (#[trigger] v@[k])@[DUMMY as int].v == 0,
            sorted_by_mp(v@.subrange(0, if i <= v@.len() { i as int } else { v@.len() as int })),
            rows_view(v@).to_multiset() == rows_view(all).to_multiset(),
        decreases v@.len() - i,
    {
        let ghost before = v@;
        let x = v.remove(i);
        proof {
            vstd::seq_lib::to_multiset_remove(rows_view(before), i as int);
            assert(rows_view(v@) =~= rows_view(before).remove(i as int));
        }
        // Find the first position among the sorted prefix whose memory
        // pointer exceeds the removed row's: inserting there keeps equal keys
        // in their original order.
        let mut j: usize = 0;
        while j < i && v[j][MP].v <= x[MP].v
            invariant
                j <= i,
                i < before.len(),
                v@.len() == before.len() - 1,
                mem_rows_wf(v@),
                row_wf(x@),
                forall|k: int| 0 <= k < j ==> (#[trigger] v@[k])@[MP as int].v <= x@[MP as int].v,
            decreases i - j,
        {
            j = j + 1;
        }
        let ghost mid = v@;
        v.insert(j, x);
        proof {
            vstd::seq_lib::to_multiset_insert(rows_view(mid), j as int, x@);
            assert(rows_view(v@) =~= rows_view(mid).insert(j as int, x@));
            assert(rows_view(before)[i as int] == x@);
            assert(rows_view(before).contains(x@)) by {
                assert(rows_view(before)[i as int] == x@);
            }
            vstd::seq_lib::to_multiset_contains(rows_view(before), x@);
            assert(rows_view(before).to_multiset().count(x@) > 0);
            assert(rows_view(v@).to_multiset() =~= rows_view(before).to_multiset());
            // The sorted prefix grew by one.
            let post = v@.subrange(0, i as int + 1);
            assert forall|a: int| 0 <= a && a + 1 < post.len() implies (#[trigger] post[a])@[MP
                as int].v <= post[a + 1]@[MP as int].v by {
                let prefix = before.subrange(0, i as int);
                assert(forall|b: int|
                    0 <= b && b + 1 < prefix.len() ==> (#[trigger] prefix[b])@[MP as int].v
                        <= prefix[b + 1]@[MP as int].v);
                if a + 1 < j {
                } else if a + 1 == j {
                } else if a == j {
                    assert(j < i ==> mid[j as int]@[MP as int].v > x@[MP as int].v);
                } else {
                }
            }
        }
        i = i + 1;
    }
    proof {
        if v@.len() > 0 {
            assert(v@.subrange(0, v@.len() as int) =~= v@);
        }
        vstd::seq_lib::to_multiset_len(rows_view(all));
        vstd::seq_lib::to_multiset_len(rows_view(v@));
    }
    v
}

/// Inserts dummy rows after any row whose successor has the same memory
/// pointer but a cycle jump of more than one, so that the cycle steps by
/// exactly one along every run of equal memory pointers.
#[verifier::rlimit(100)]
fn fill_cycle_gaps(rows: Vec<Vec<Fe>>) -> (r: Vec<Vec<Fe>>)
    requires
        mem_rows_wf(rows@),
        sorted_by_mp(rows@),
        forall|i: int| 0 <= i < rows@.len() ==> (#[trigger] rows@[i])@[DUMMY as int].v == 0,
    ensures
        mem_rows_wf(r@),
        sorted_by_mp(r@),
        gap_free(r@),
        dummy_flags_boolean(r@),
        dummy_rows_replicate(r@),
        real_rows(r@) == rows_view(rows@),
{
    let mut input = rows;
    let ghost all = input@;
    let mut out: Vec<Vec<Fe>> = Vec::new();
    if input.len() == 0 {
        proof {
            assert(real_rows(out@) =~= rows_view(all));
        }
        return out;
    }
    let first = input.remove(0);
    out.push(first);
    proof {
        assert(input@ =~= all.subrange(1, all.len() as int));
        let ghost pred = |r: Seq<Fe>| r[DUMMY as int].v == 0;
        assert(out@ =~= Seq::<Vec<Fe>>::empty().push(first));
        lemma_map_values_push(Seq::<Vec<Fe>>::empty(), |r: Vec<Fe>| r@, first);
        assert(rows_view(Seq::<Vec<Fe>>::empty()) =~= Seq::<Seq<Fe>>::empty());
        assert(rows_view(out@) == Seq::<Seq<Fe>>::empty().push(first@));
        lemma_filter_push(Seq::<Seq<Fe>>::empty(), pred, first@);
        lemma_filter_empty::<Seq<Fe>>(pred);
        assert(first == all[0]);
        assert(pred(first@));
        assert(real_rows(out@) == Seq::<Seq<Fe>>::empty().push(first@));
        assert(all.subrange(0, 1) =~= Seq::<Vec<Fe>>::empty().push(all[0]));
        lemma_map_values_push(Seq::<Vec<Fe>>::empty(), |r: Vec<Fe>| r@, all[0]);
        assert(real_rows(out@) == rows_view(all.subrange(0, 1)));
    }
    let ghost mut k: int = 1;
    while input.len() > 0
        invariant
            1 <= k <= all.len(),
            input@ =~= all.subrange(k, all.len() as int),
            mem_rows_wf(all),
            sorted_by_mp(all),
            forall|i: int| 0 <= i < all.len() ==> (#[trigger] all[i])@[DUMMY as int].v == 0,
            out@.len() >= 1,
            mem_rows_wf(out@),
            sorted_by_mp(out@),
            gap_free(out@),
            dummy_flags_boolean(out@),
            dummy_rows_replicate(out@),
            real_rows(out@) == rows_view(all.subrange(0, k)),
            out@[out@.len() - 1]@[MP as int] == all[k - 1]@[MP as int],
        decreases all.len() - k,
    {
        let next = input.remove(0);
        proof {
            assert(all.subrange(k, all.len() as int)[0] == all[k]);
            assert(input@ =~= all.subrange(k + 1, all.len() as int));
        }
        loop
            invariant
                1 <= k < all.len(),
                next == all[k as int],
                mem_rows_wf(all),
                sorted_by_mp(all),
                forall|i: int| 0 <= i < all.len() ==> (#[trigger] all[i])@[DUMMY as int].v == 0,
                out@.len() >= 1,
                mem_rows_wf(out@),
                sorted_by_mp(out@),
                gap_free(out@),
                dummy_flags_boolean(out@),
                dummy_rows_replicate(out@),
                real_rows(out@) == rows_view(all.subrange(0, k)),
                out@[out@.len() - 1]@[MP as int] == all[k - 1]@[MP as int],
            ensures
                out@.len() >= 1,
                mem_rows_wf(out@),
                sorted_by_mp(out@),
                gap_free(out@),
                dummy_flags_boolean(out@),
                dummy_rows_replicate(out@),
                real_rows(out@) == rows_view(all.subrange(0, k)),
                out@[out@.len() - 1]@[MP as int] == all[k - 1]@[MP as int],
                out@[out@.len() - 1]@[MP as int].v == next@[MP as int].v ==> next@[CYCLE
                    as int].v as int == fadd(out@[out@.len() - 1]@[CYCLE as int].v as int, 1),
            decreases fsub(
                next@[CYCLE as int].v as int,
                fadd(out@[out@.len() - 1]@[CYCLE as int].v as int, 1),
            ),
        {
            let last_idx = out.len() - 1;
            let same_mp = out[last_idx][MP].v == next[MP].v;
            let stepped = out[last_idx][CYCLE].add(Fe::one()).v == next[CYCLE].v;
            if !same_mp || stepped {
                break ;
            }
            let cycle = out[last_idx][CYCLE];
            let mp = out[last_idx][MP];
            let mem_val = out[last_idx][MEM_VAL];
            let mut dummy_row: Vec<Fe> = Vec::new();
            dummy_row.push(cycle.add(Fe::one()));
            dummy_row.push(mp);
            dummy_row.push(mem_val);
            dummy_row.push(Fe { v: 1 });
            proof {
                assert(dummy_row@ =~= padding_row_of(out@[out@.len() - 1]@));
                lemma_gap_step(
                    next@[CYCLE as int].v as int,
                    out@[out@.len() - 1]@[CYCLE as int].v as int,
                );
            }
            let ghost prev = out@;
            out.push(dummy_row);
            proof {
                lemma_map_values_push(prev, |r: Vec<Fe>| r@, dummy_row);
                assert(rows_view(out@) == rows_view(prev).push(dummy_row@));
                lemma_filter_push(rows_view(prev), |r: Seq<Fe>| r[DUMMY as int].v == 0, dummy_row@);
                assert(real_rows(out@) == real_rows(prev));
            }
        }
        let ghost prev = out@;
        out.push(next);
        proof {
            lemma_map_values_push(prev, |r: Vec<Fe>| r@, next);
            assert(rows_view(out@) == rows_view(prev).push(next@));
            lemma_filter_push(rows_view(prev), |r: Seq<Fe>| r[DUMMY as int].v == 0, next@);
            assert((|r: Seq<Fe>| r[DUMMY as int].v == 0)(next@));
            assert(real_rows(out@) == real_rows(prev).push(all[k as int]@));
            assert(all.subrange(0, k + 1) =~= all.subrange(0, k).push(all[k as int]));
            lemma_map_values_push(all.subrange(0, k), |r: Vec<Fe>| r@, all[k as int]);
            assert(real_rows(out@) == rows_view(all.subrange(0, k + 1)));
            k = k + 1;
        }
    }
    proof {
        assert(all.subrange(0, all.len() as int) =~= all);
    }
    out
}


/// The change of column `c` from the current row to the next, `off` columns
/// later in the assignment.
pub open spec fn col_delta(a: Seq<Fe>, off: int, c: int) -> int {
    fsub(a[off + c].v as int, a[c].v as int)
}

/// The running-product factor of the memory permutation argument:
/// `beta - d * cycle - e * mp - f * mem_val`, with the challenges at their
/// protocol positions.
pub open spec fn permutation_factor(a: Seq<Fe>, ch: Seq<Fe>) -> int {
    fsub(
        fsub(
            fsub(ch[7].v as int, fmul(ch[3].v as int, a[CYCLE as int].v as int)),
            fmul(ch[4].v as int, a[MP as int].v as int),
        ),
        fmul(ch[5].v as int, a[MEM_VAL as int].v as int),
    )
}

/// The polynomial `a[off + c] - a[c]`.
fn col_delta_poly(vars: usize, off: usize, c: usize) -> (r: Multivariate)
    requires
        off + c < vars,
        c < vars,
    ensures
        r.wf(),
        r.vars == vars,
        exps_le(r.terms@, 1),
        forall|a: Seq<Fe>|
            assignment_wf(a, vars as nat) ==> #[trigger] r.value_at(a) == col_delta(
                a,
                off as int,
                c as int,
            ),
{
    let hi = Multivariate::variable(off + c, vars);
    let lo = Multivariate::variable(c, vars);
    hi.sub_mv(lo)
}

/// The polynomial `a[i] - 1`.
fn var_minus_one(i: usize, vars: usize) -> (r: Multivariate)
    requires
        i < vars,
    ensures
        r.wf(),
        r.vars == vars,
        exps_le(r.terms@, 1),
        forall|a: Seq<Fe>|
            assignment_wf(a, vars as nat) ==> #[trigger] r.value_at(a) == fsub(
                a[i as int].v as int,
                1,
            ),
{
    let v = Multivariate::variable(i, vars);
    let one = Multivariate::constant_over(Fe::one(), vars);
    proof {
        lemma_exps_le_mono(one.terms@, 0, 1);
    }
    v.sub_mv(one)
}

impl MemoryTable {

    /// Derives the extension column of the memory permutation argument: the
    /// running product `acc[i+1] = acc[i] * (beta - d*cycle - e*mp -
    /// f*mem_val)` over the real rows, carried over unchanged across dummy
    /// rows, starting from one.
    pub fn build_extension_columns(&self, challenges: &Vec<Fe>) -> (r: Option<Matrix>)
        requires
            self.wf(),
            challenges@.len() >= 11,
            poly_wf(challenges@),
        ensures
            r is Some,
            r is Some ==> {
                let m = r.unwrap();
                &&& m.wf()
                &&& m.cols@.len() == 1
                &&& m.cols@[0]@.len() == self.matrix@.len()
                &&& forall|i: int|
                    0 <= i < self.matrix@.len() ==> (#[trigger] m.cols@[0]@[i]).v as int
                        == perm_column_at(self.matrix@, challenges@, i)
            },
    {
        let n = self.matrix.len();
        let mut col: Vec<Fe> = Vec::new();
        let mut acc = Fe::one();
        let mut i: usize = 0;
        while i < n
            invariant
                i <= n,
                n == self.matrix@.len(),
                self.wf(),
                challenges@.len() >= 11,
                poly_wf(challenges@),
                acc.wf(),
                acc.v as int == perm_column_at(self.matrix@, challenges@, i as int),
                col@.len() == i,
                poly_wf(col@),
                forall|j: int|
                    0 <= j < i ==> (#[trigger] col@[j]).v as int == perm_column_at(
                        self.matrix@,
                        challenges@,
                        j,
                    ),
            decreases n - i,
        {
            col.push(acc);
            let row = &self.matrix[i];
            if row[DUMMY].v != 1 {
                let factor = challenges[7].sub(challenges[3].mul(row[CYCLE])).sub(
                    challenges[4].mul(row[MP]),
                ).sub(challenges[5].mul(row[MEM_VAL]));
                proof {
                    assert(factor.v as int == permutation_factor(
                        self.matrix@[i as int]@,
                        challenges@,
                    ));
                }
                acc = acc.mul(factor);
            }
            i = i + 1;
        }
        let mut cols: Vec<Vec<Fe>> = Vec::new();
        cols.push(col);
        Some(Matrix { cols })
    }

    /// The six transition constraints over `vars` formal variables, the next
    /// row starting at column `off`: the memory pointer increases by one or
    /// stays; on an increase the next memory value is zero; the next dummy
    /// flag is boolean; under a set dummy flag neither memory pointer nor
    /// value changes; and on an unchanged memory pointer the cycle steps by
    /// one.
    pub fn transition_constraints(vars: usize, off: usize) -> (r: Vec<Multivariate>)
        requires
            off + DUMMY < vars,
            DUMMY < off,
        ensures
            r@.len() == 6,
            forall|j: int|
                0 <= j < 6 ==> (#[trigger] r@[j]).wf() && r@[j].vars == vars && exps_le(
                    r@[j].terms@,
                    2,
                ),
            forall|a: Seq<Fe>|
                assignment_wf(a, vars as nat) ==> {
                    let dmp = col_delta(a, off as int, MP as int);
                    &&& (#[trigger] r@[0].value_at(a)) == fmul(fsub(dmp, 1), dmp)
                    &&& r@[1].value_at(a) == fmul(dmp, a[off + MEM_VAL].v as int)
                    &&& r@[2].value_at(a) == fmul(
                        fsub(a[off + DUMMY].v as int, 1),
                        a[off + DUMMY].v as int,
                    )
                    &&& r@[3].value_at(a) == fmul(dmp, a[DUMMY as int].v as int)
                    &&& r@[4].value_at(a) == fmul(
                        col_delta(a, off as int, MEM_VAL as int),
                        a[DUMMY as int].v as int,
                    )
                    &&& r@[5].value_at(a) == fmul(
                        fsub(dmp, 1),
                        fsub(col_delta(a, off as int, CYCLE as int), 1),
                    )
                },
    {
        let big: u64 = 0x100000000;
        let mut out: Vec<Multivariate> = Vec::new();
        // 1. memory pointer increases by one or zero
        let f1 = {
            let d = col_delta_poly(vars, off, MP);
            let one = Multivariate::constant_over(Fe::one(), vars);
            proof {
                lemma_exps_le_mono(one.terms@, 0, 1);
            }
            d.sub_mv(one)
        };
        let f2 = col_delta_poly(vars, off, MP);
        proof {
            lemma_exps_le_mono(f1.terms@, 1, big as int);
            lemma_exps_le_mono(f2.terms@, 1, big as int);
        }
        out.push(f1.mul_mv(&f2));
        // 3. on a memory pointer increase the next memory value is zero
        let g1 = col_delta_poly(vars, off, MP);
        let g2 = Multivariate::variable(off + MEM_VAL, vars);
        proof {
            lemma_exps_le_mono(g1.terms@, 1, big as int);
            lemma_exps_le_mono(g2.terms@, 1, big as int);
        }
        out.push(g1.mul_mv(&g2));
        // 4. the dummy flag is zero or one
        let h1 = var_minus_one(off + DUMMY, vars);
        let h2 = Multivariate::variable(off + DUMMY, vars);
        proof {
            lemma_exps_le_mono(h1.terms@, 1, big as int);
            lemma_exps_le_mono(h2.terms@, 1, big as int);
        }
        out.push(h1.mul_mv(&h2));
        // 5. under a dummy flag the memory pointer cannot change
        let i1 = col_delta_poly(vars, off, MP);
        let i2 = Multivariate::variable(DUMMY, vars);
        proof {
            lemma_exps_le_mono(i1.terms@, 1, big as int);
            lemma_exps_le_mono(i2.terms@, 1, big as int);
        }
        out.push(i1.mul_mv(&i2));
        // 6. under a dummy flag the memory value cannot change
        let j1 = col_delta_poly(vars, off, MEM_VAL);
        let j2 = Multivariate::variable(DUMMY, vars);
        proof {
            lemma_exps_le_mono(j1.terms@, 1, big as int);
            lemma_exps_le_mono(j2.terms@, 1, big as int);
        }
        out.push(j1.mul_mv(&j2));
        // 7. on an unchanged memory pointer the cycle steps by one
        let k1 = {
            let d = col_delta_poly(vars, off, MP);
            let one = Multivariate::constant_over(Fe::one(), vars);
            proof {
                lemma_exps_le_mono(one.terms@, 0, 1);
            }
            d.sub_mv(one)
        };
        let k2 = {
            let d = col_delta_poly(vars, off, CYCLE);
            let one = Multivariate::constant_over(Fe::one(), vars);
            proof {
                lemma_exps_le_mono(one.terms@, 0, 1);
            }
            d.sub_mv(one)
        };
        proof {
            lemma_exps_le_mono(k1.terms@, 1, big as int);
            lemma_exps_le_mono(k2.terms@, 1, big as int);
        }
        out.push(k1.mul_mv(&k2));
        out
    }

    /// The boundary constraints of the base columns: cycle, memory pointer
    /// and memory value all start at zero.
    pub fn base_boundary_constraints() -> (r: Vec<Multivariate>)
        ensures
            r@.len() == 3,
            forall|j: int| 0 <= j < 3 ==> (#[trigger] r@[j]).wf() && r@[j].vars == 5,
            forall|a: Seq<Fe>|
                assignment_wf(a, 5nat) ==> {
                    &&& (#[trigger] r@[0].value_at(a)) == a[CYCLE as int].v
                    &&& r@[1].value_at(a) == a[MP as int].v
                    &&& r@[2].value_at(a) == a[MEM_VAL as int].v
                },
    {
        let mut out: Vec<Multivariate> = Vec::new();
        out.push(Multivariate::variable(CYCLE, 5));
        out.push(Multivariate::variable(MP, 5));
        out.push(Multivariate::variable(MEM_VAL, 5));
        out
    }

    /// The boundary constraints of the extended table; the challenges do not
    /// enter them, the permutation column's start is left unconstrained.
    pub fn extension_boundary_constraints(challenges: &Vec<Fe>) -> (r: Vec<Multivariate>)
        ensures
            r@.len() == 3,
            forall|j: int| 0 <= j < 3 ==> (#[trigger] r@[j]).wf() && r@[j].vars == 5,
            forall|a: Seq<Fe>|
                assignment_wf(a, 5nat) ==> {
                    &&& (#[trigger] r@[0].value_at(a)) == a[CYCLE as int].v
                    &&& r@[1].value_at(a) == a[MP as int].v
                    &&& r@[2].value_at(a) == a[MEM_VAL as int].v
                },
    {
        Self::base_boundary_constraints()
    }

    /// The transition constraints of the base columns: eight formal
    /// variables, the next row at offset four.
    pub fn base_transition_constraints() -> (r: Vec<Multivariate>)
        ensures
            r@.len() == 6,
            forall|j: int|
                0 <= j < 6 ==> (#[trigger] r@[j]).wf() && r@[j].vars == 8 && exps_le(
                    r@[j].terms@,
                    2,
                ),
            forall|a: Seq<Fe>|
                assignment_wf(a, 8nat) ==> {
                    let dmp = col_delta(a, 4, MP as int);
                    &&& (#[trigger] r@[0].value_at(a)) == fmul(fsub(dmp, 1), dmp)
                    &&& r@[1].value_at(a) == fmul(dmp, a[4 + MEM_VAL].v as int)
                    &&& r@[2].value_at(a) == fmul(
                        fsub(a[4 + DUMMY].v as int, 1),
                        a[4 + DUMMY].v as int,
                    )
                    &&& r@[3].value_at(a) == fmul(dmp, a[DUMMY as int].v as int)
                    &&& r@[4].value_at(a) == fmul(
                        col_delta(a, 4, MEM_VAL as int),
                        a[DUMMY as int].v as int,
                    )
                    &&& r@[5].value_at(a) == fmul(fsub(dmp, 1), fsub(col_delta(a, 4, CYCLE as int), 1))
                },
    {
        Self::transition_constraints(8, 4)
    }

    /// The transition constraints of the extended table: the six base
    /// constraints over ten variables plus the running-product constraint of
    /// the memory permutation argument.
    pub fn extension_transition_constraints(challenges: &Vec<Fe>) -> (r: Vec<Multivariate>)
        requires
            challenges@.len() >= 11,
            poly_wf(challenges@),
        ensures
            r@.len() == 7,
            forall|j: int| 0 <= j < 7 ==> (#[trigger] r@[j]).wf() && r@[j].vars == 10,
            forall|a: Seq<Fe>|
                assignment_wf(a, 10nat) ==> {
                    let dmp = col_delta(a, 5, MP as int);
                    &&& (#[trigger] r@[0].value_at(a)) == fmul(fsub(dmp, 1), dmp)
                    &&& r@[1].value_at(a) == fmul(dmp, a[5 + MEM_VAL].v as int)
                    &&& r@[2].value_at(a) == fmul(
                        fsub(a[5 + DUMMY].v as int, 1),
                        a[5 + DUMMY].v as int,
                    )
                    &&& r@[3].value_at(a) == fmul(dmp, a[DUMMY as int].v as int)
                    &&& r@[4].value_at(a) == fmul(
                        col_delta(a, 5, MEM_VAL as int),
                        a[DUMMY as int].v as int,
                    )
                    &&& r@[5].value_at(a) == fmul(
                        fsub(dmp, 1),
                        fsub(col_delta(a, 5, CYCLE as int), 1),
                    )
                },
            forall|a: Seq<Fe>|
                assignment_wf(a, 10nat) ==> #[trigger] r@[6].value_at(a) == fadd(
                    fmul(
                        fsub(
                            a[5 + PERMUTATION].v as int,
                            fmul(a[PERMUTATION as int].v as int, permutation_factor(a, challenges@)),
                        ),
                        fsub(a[DUMMY as int].v as int, 1),
                    ),
                    fmul(
                        fsub(a[5 + PERMUTATION].v as int, a[PERMUTATION as int].v as int),
                        a[DUMMY as int].v as int,
                    ),
                ),
    {
        let big: u64 = 0x100000000;
        let mut out = Self::transition_constraints(10, 5);
        let d = challenges[3];
        let e = challenges[4];
        let f = challenges[5];
        let beta = challenges[7];
        // beta - d * cycle - e * mp - f * mem_val
        let factor = {
            let c_beta = Multivariate::constant_over(beta, 10);
            let t_d = Multivariate::variable(CYCLE, 10).scale_mv(d);
            let t_e = Multivariate::variable(MP, 10).scale_mv(e);
            let t_f = Multivariate::variable(MEM_VAL, 10).scale_mv(f);
            proof {
                lemma_exps_le_mono(c_beta.terms@, 0, 1);
            }
            c_beta.sub_mv(t_d).sub_mv(t_e).sub_mv(t_f)
        };
        let perm = Multivariate::variable(PERMUTATION, 10);
        let perm_next = Multivariate::variable(5 + PERMUTATION, 10);
        proof {
            lemma_exps_le_mono(perm.terms@, 1, big as int);
            lemma_exps_le_mono(factor.terms@, 1, big as int);
        }
        let prod = perm.mul_mv(&factor);
        let t1 = perm_next.sub_mv(prod);
        let dummy_m1 = var_minus_one(DUMMY, 10);
        proof {
            lemma_exps_le_mono(t1.terms@, 2, big as int);
            lemma_exps_le_mono(dummy_m1.terms@, 1, big as int);
        }
        let t1d = t1.mul_mv(&dummy_m1);
        let p_delta = Multivariate::variable(5 + PERMUTATION, 10).sub_mv(
            Multivariate::variable(PERMUTATION, 10),
        );
        let v_dummy = Multivariate::variable(DUMMY, 10);
        proof {
            lemma_exps_le_mono(p_delta.terms@, 1, big as int);
            lemma_exps_le_mono(v_dummy.terms@, 1, big as int);
        }
        let t2 = p_delta.mul_mv(&v_dummy);
        out.push(t1d.add_mv(t2));
        out
    }

    /// The terminal constraint of the extended table: at the last row the
    /// running permutation product, advanced once more on a real row, meets
    /// the processor's memory permutation terminal.
    pub fn extension_terminal_constraints(challenges: &Vec<Fe>, terminals: &Vec<Fe>) -> (r: Vec<
        Multivariate,
    >)
        requires
            challenges@.len() >= 11,
            poly_wf(challenges@),
            terminals@.len() >= 5,
            poly_wf(terminals@),
        ensures
            r@.len() == 1,
            r@[0].wf(),
            r@[0].vars == 5,
            forall|a: Seq<Fe>|
                assignment_wf(a, 5nat) ==> #[trigger] r@[0].value_at(a) == fadd(
                    fmul(
                        fsub(
                            fmul(a[PERMUTATION as int].v as int, permutation_factor(a, challenges@)),
                            terminals@[1].v as int,
                        ),
                        fsub(a[DUMMY as int].v as int, 1),
                    ),
                    fmul(
                        fsub(a[PERMUTATION as int].v as int, terminals@[1].v as int),
                        a[DUMMY as int].v as int,
                    ),
                ),
    {
        let big: u64 = 0x100000000;
        let d = challenges[3];
        let e = challenges[4];
        let f = challenges[5];
        let beta = challenges[7];
        let terminal = terminals[1];
        let factor = {
            let c_beta = Multivariate::constant_over(beta, 5);
            let t_d = Multivariate::variable(CYCLE, 5).scale_mv(d);
            let t_e = Multivariate::variable(MP, 5).scale_mv(e);
            let t_f = Multivariate::variable(MEM_VAL, 5).scale_mv(f);
            proof {
                lemma_exps_le_mono(c_beta.terms@, 0, 1);
            }
            c_beta.sub_mv(t_d).sub_mv(t_e).sub_mv(t_f)
        };
        let perm = Multivariate::variable(PERMUTATION, 5);
        proof {
            lemma_exps_le_mono(perm.terms@, 1, big as int);
            lemma_exps_le_mono(factor.terms@, 1, big as int);
        }
        let prod = perm.mul_mv(&factor);
        let c_term = Multivariate::constant_over(terminal, 5);
        proof {
            lemma_exps_le_mono(c_term.terms@, 0, 2);
        }
        let t1 = prod.sub_mv(c_term);
        let dummy_m1 = var_minus_one(DUMMY, 5);
        proof {
            lemma_exps_le_mono(t1.terms@, 2, big as int);
            lemma_exps_le_mono(dummy_m1.terms@, 1, big as int);
        }
        let t1d = t1.mul_mv(&dummy_m1);
        let c_term2 = Multivariate::constant_over(terminal, 5);
        let perm2 = Multivariate::variable(PERMUTATION, 5);
        proof {
            lemma_exps_le_mono(c_term2.terms@, 0, 1);
        }
        let p_delta = perm2.sub_mv(c_term2);
        let v_dummy = Multivariate::variable(DUMMY, 5);
        proof {
            lemma_exps_le_mono(p_delta.terms@, 1, big as int);
            lemma_exps_le_mono(v_dummy.terms@, 1, big as int);
        }
        let t2 = p_delta.mul_mv(&v_dummy);
        let mut out: Vec<Multivariate> = Vec::new();
        out.push(t1d.add_mv(t2));
        out
    }
}

} // verus!
