//! The canonical compress/merge pass over one line of four cells, sliding
//! toward index 0.  All four move directions are reduced to this one pass by
//! the geometric transforms in `board`.
//!
//! The pass is specified as a mathematical function: `step` is one
//! slide-or-merge at a single index, `sweep_line` is one left-to-right sweep
//! of the three indices, and `compress_line` repeats sweeps until the line is
//! stable.  A measure (occupied cells weighted by position) decreases with
//! every productive sweep, which bounds the iteration.

use vstd::prelude::*;
use vstd::arithmetic::power2::pow2;

use crate::piece::pow2_u32;

verus! {

/// Cap on the total tile value of a board.  This is a machine limit, far
/// beyond anything reachable in play: it keeps every rank small enough that
/// merge arithmetic and score deltas fit their machine types.
pub const VALUE_CAP: u64 = 16777216;

/// The value of one cell: `2^rank` for an occupied cell, 0 for an empty one.
pub open spec fn cell_value(r: u8) -> nat {
    if r == 0 {
        0
    } else {
        pow2(r as nat)
    }
}

/// 1 for an occupied cell, 0 for an empty one.
pub open spec fn occ1(r: u8) -> int {
    if r == 0 {
        0
    } else {
        1
    }
}

/// A line in canonical form: exactly four cells.
pub open spec fn is_line(row: Seq<u8>) -> bool {
    row.len() == 4
}

/// Total tile value of a line.
pub open spec fn line_value(row: Seq<u8>) -> nat {
    cell_value(row[0]) + cell_value(row[1]) + cell_value(row[2]) + cell_value(row[3])
}

/// Number of occupied cells of a line.
pub open spec fn line_occupied(row: Seq<u8>) -> int {
    occ1(row[0]) + occ1(row[1]) + occ1(row[2]) + occ1(row[3])
}

/// Whether the cell at index `i` can still slide or merge toward index 0:
/// it is occupied and its predecessor is empty or of equal rank.
pub open spec fn step_enabled(row: Seq<u8>, i: int) -> bool {
    row[i] != 0 && (row[i - 1] == 0 || row[i - 1] == row[i])
}

/// Whether a line still contains at least one eligible slide or merge.
pub open spec fn line_compressible(row: Seq<u8>) -> bool {
    step_enabled(row, 1) || step_enabled(row, 2) || step_enabled(row, 3)
}

/// One step of a sweep, at index `i`: slide the tile onto an empty
/// predecessor, or merge it with an equal predecessor.  Returns the new line
/// and the score gained: a merge of two tiles of rank `r` scores the value of
/// the merged tile, `2^(r+1)`.
pub open spec fn step(row: Seq<u8>, i: int) -> (Seq<u8>, nat) {
    if !step_enabled(row, i) {
        (row, 0)
    } else if row[i - 1] == 0 {
        (row.update(i - 1, row[i]).update(i, 0u8), 0)
    } else {
        (
            row.update(i - 1, (row[i - 1] + 1) as u8).update(i, 0u8),
            pow2((row[i - 1] + 1) as nat),
        )
    }
}

/// One full sweep over the line, indices 1 to 3 in order.
pub open spec fn sweep_line(row: Seq<u8>) -> (Seq<u8>, nat) {
    let s1 = step(row, 1);
    let s2 = step(s1.0, 2);
    let s3 = step(s2.0, 3);
    (s3.0, s1.1 + s2.1 + s3.1)
}

/// Occupied cells weighted by how far they sit from index 0.  Every slide and
/// every merge strictly decreases this, so it bounds the number of sweeps.
pub open spec fn line_measure(row: Seq<u8>) -> nat {
    (4 * line_occupied(row) + occ1(row[1]) + 2 * occ1(row[2]) + 3 * occ1(row[3])) as nat
}

/// Sweeps repeated until the line is stable or the fuel runs out.  Opaque:
/// everything callers need of it is stated by `lemma_compress_fuel_props`.
#[verifier::opaque]
pub open spec fn compress_fuel(row: Seq<u8>, fuel: nat) -> (Seq<u8>, nat)
    decreases fuel,
{
    if fuel == 0 || !line_compressible(row) {
        (row, 0)
    } else {
        let s = sweep_line(row);
        let rest = compress_fuel(s.0, (fuel - 1) as nat);
        (rest.0, s.1 + rest.1)
    }
}

/// The canonical pass: sweep until no slide or merge is left.  The measure
/// bounds the number of productive sweeps, so this much fuel always reaches
/// the fixed point (`lemma_compress_props`).
pub open spec fn compress_line(row: Seq<u8>) -> (Seq<u8>, nat) {
    compress_fuel(row, line_measure(row))
}

/// Every rank of a line whose value is within the cap fits in 24 bits of
/// exponent.
pub proof fn lemma_line_ranks(row: Seq<u8>)
    requires
        is_line(row),
        line_value(row) <= VALUE_CAP,
    ensures
        forall|i: int| 0 <= i < 4 ==> (#[trigger] row[i]) <= 24,
{
    assert forall|i: int| 0 <= i < 4 implies (#[trigger] row[i]) <= 24 by {
        if row[i] > 24 {
            vstd::arithmetic::power2::lemma2_to64();
            vstd::arithmetic::power2::lemma_pow2_strictly_increases(24, row[i] as nat);
            assert(cell_value(row[i]) > VALUE_CAP);
            assert(line_value(row) >= cell_value(row[i]));
        }
    }
}

/// What one step does to the line's aggregates: the total value is conserved,
/// the occupied count never grows, the measure never grows and strictly
/// shrinks when the step acts, and the score gained is within the cap.
pub proof fn lemma_step_props(row: Seq<u8>, i: int)
    requires
        is_line(row),
        1 <= i < 4,
        line_value(row) <= VALUE_CAP,
    ensures
        is_line(step(row, i).0),
        line_value(step(row, i).0) == line_value(row),
        line_occupied(step(row, i).0) <= line_occupied(row),
        line_measure(step(row, i).0) <= line_measure(row),
        step_enabled(row, i) ==> line_measure(step(row, i).0) < line_measure(row),
        !step_enabled(row, i) ==> step(row, i).0 == row,
        step(row, i).1 <= line_value(row),
        step_enabled(row, i) && line_occupied(row) == 4 ==> line_occupied(step(row, i).0) == 3,
{
    lemma_line_ranks(row);
    if step_enabled(row, i) && row[i - 1] != 0 {
        // a merge: 2^(r+1) == 2 * 2^r
        vstd::arithmetic::power2::lemma_pow2_unfold((row[i - 1] + 1) as nat);
    }
}

/// What one sweep does to the line's aggregates, and that a sweep over a
/// compressible line always acts.
pub proof fn lemma_sweep_props(row: Seq<u8>)
    requires
        is_line(row),
        line_value(row) <= VALUE_CAP,
    ensures
        is_line(sweep_line(row).0),
        line_value(sweep_line(row).0) == line_value(row),
        line_occupied(sweep_line(row).0) <= line_occupied(row),
        line_measure(sweep_line(row).0) <= line_measure(row),
        line_compressible(row) ==> line_measure(sweep_line(row).0) < line_measure(row),
        !line_compressible(row) ==> sweep_line(row).0 == row && sweep_line(row).1 == 0,
        sweep_line(row).1 <= 3 * VALUE_CAP,
        line_compressible(row) && line_occupied(row) == 4 ==> line_occupied(sweep_line(row).0)
            <= 3,
{
    let s1 = step(row, 1);
    let s2 = step(s1.0, 2);
    lemma_step_props(row, 1);
    lemma_step_props(s1.0, 2);
    lemma_step_props(s2.0, 3);
}

/// The compress pass reaches a stable line, conserves the total value, never
/// increases the occupied count, leaves a compressible line strictly changed,
/// frees a cell whenever it changes a full line, and gains a bounded score.
/// The result does not depend on the exact fuel once the fuel covers the
/// measure.
pub proof fn lemma_compress_fuel_props(row: Seq<u8>, fuel: nat)
    requires
        is_line(row),
        line_value(row) <= VALUE_CAP,
        fuel >= line_measure(row),
    ensures
        compress_fuel(row, fuel) == compress_line(row),
        is_line(compress_line(row).0),
        !line_compressible(compress_line(row).0),
        line_value(compress_line(row).0) == line_value(row),
        line_occupied(compress_line(row).0) <= line_occupied(row),
        line_measure(compress_line(row).0) <= line_measure(row),
        line_compressible(row) ==> line_measure(compress_line(row).0) < line_measure(row),
        !line_compressible(row) ==> compress_line(row).0 == row && compress_line(row).1 == 0,
        line_compressible(row) ==> line_occupied(compress_line(row).0) <= 3,
        compress_line(row).1 <= 3 * VALUE_CAP * line_measure(row),
    decreases fuel,
{
    reveal_with_fuel(compress_fuel, 2);
    lemma_sweep_props(row);
    if !line_compressible(row) {
        assert(compress_fuel(row, fuel) == (row, 0nat));
        assert(compress_line(row) == (row, 0nat));
    } else {
        let s = sweep_line(row);
        let m = line_measure(row);
        assert(m >= 1);
        assert(fuel > 0);
        lemma_compress_fuel_props(s.0, (fuel - 1) as nat);
        lemma_compress_fuel_props(s.0, (m - 1) as nat);
        assert(compress_fuel(row, fuel) == (
            compress_fuel(s.0, (fuel - 1) as nat).0,
            s.1 + compress_fuel(s.0, (fuel - 1) as nat).1,
        ));
        assert(compress_fuel(row, m) == (
            compress_fuel(s.0, (m - 1) as nat).0,
            s.1 + compress_fuel(s.0, (m - 1) as nat).1,
        ));
        if line_occupied(row) == 4 {
            assert(line_occupied(compress_line(row).0) <= 3);
        }
    }
}

/// Whether a line still contains at least one eligible slide or merge.
pub fn line_is_compressible(row: &Vec<u8>) -> (b: bool)
    requires
        row@.len() == 4,
    ensures
        b == line_compressible(row@),
{
    (row[1] != 0 && (row[0] == 0 || row[0] == row[1])) || (row[2] != 0 && (row[1] == 0 || row[1]
        == row[2])) || (row[3] != 0 && (row[2] == 0 || row[2] == row[3]))
}

/// One step of a sweep at index `i`, mutating the line in place.
fn step_exec(row: &mut Vec<u8>, i: usize) -> (d: u32)
    requires
        old(row)@.len() == 4,
        1 <= i < 4,
        line_value(old(row)@) <= VALUE_CAP,
    ensures
        final(row)@ == step(old(row)@, i as int).0,
        d as nat == step(old(row)@, i as int).1,
        line_value(final(row)@) == line_value(old(row)@),
{
    proof {
        lemma_line_ranks(row@);
        lemma_step_props(row@, i as int);
    }
    let a = row[i - 1];
    let b = row[i];
    if b != 0 && a == 0 {
        row.set(i - 1, b);
        row.set(i, 0);
        0
    } else if b != 0 && a == b {
        row.set(i - 1, a + 1);
        row.set(i, 0);
        pow2_u32(a + 1)
    } else {
        0
    }
}

/// One full sweep over the line, mutating it in place.
fn sweep_exec(row: &mut Vec<u8>) -> (d: u32)
    requires
        old(row)@.len() == 4,
        line_value(old(row)@) <= VALUE_CAP,
    ensures
        final(row)@ == sweep_line(old(row)@).0,
        d as nat == sweep_line(old(row)@).1,
        line_value(final(row)@) == line_value(old(row)@),
{
    proof {
        lemma_step_props(row@, 1);
    }
    let d1 = step_exec(row, 1);
    proof {
        lemma_step_props(row@, 2);
    }
    let d2 = step_exec(row, 2);
    proof {
        lemma_step_props(row@, 3);
    }
    let d3 = step_exec(row, 3);
    d1 + d2 + d3
}

/// The compress/merge pass over one line, mutating it in place and returning
/// the total score gained.
pub fn compress_line_exec(row: &mut Vec<u8>) -> (d: u32)
    requires
        old(row)@.len() == 4,
        line_value(old(row)@) <= VALUE_CAP,
    ensures
        final(row)@ == compress_line(old(row)@).0,
        d as nat == compress_line(old(row)@).1,
        line_value(final(row)@) == line_value(old(row)@),
{
    let ghost orig = old(row)@;
    let mut d: u32 = 0;
    proof {
        lemma_compress_fuel_props(orig, line_measure(orig));
        assert(line_measure(orig) <= 22);
        assert(compress_line(orig).1 <= 3 * VALUE_CAP * line_measure(orig));
        assert(3 * VALUE_CAP * line_measure(orig) <= 3 * VALUE_CAP * 22) by (nonlinear_arith)
            requires
                line_measure(orig) <= 22,
        ;
    }
    while line_is_compressible(row)
        invariant
            row@.len() == 4,
            line_value(row@) == line_value(orig),
            line_value(orig) <= VALUE_CAP,
            compress_line(orig).0 == compress_fuel(row@, line_measure(row@)).0,
            compress_line(orig).1 == d + compress_fuel(row@, line_measure(row@)).1,
            d <= compress_line(orig).1,
            compress_line(orig).1 <= 3 * VALUE_CAP * 22,
        decreases line_measure(row@),
    {
        let ghost cur = row@;
        proof {
            lemma_sweep_props(cur);
        }
        let sd = sweep_exec(row);
        proof {
            reveal_with_fuel(compress_fuel, 2);
            let m = line_measure(cur);
            assert(m >= 1);
            assert(compress_fuel(cur, m) == (
                compress_fuel(sweep_line(cur).0, (m - 1) as nat).0,
                sweep_line(cur).1 + compress_fuel(sweep_line(cur).0, (m - 1) as nat).1,
            ));
            lemma_compress_fuel_props(row@, (m - 1) as nat);
        }
        d = d + sd;
    }
    proof {
        reveal_with_fuel(compress_fuel, 2);
        assert(compress_fuel(row@, line_measure(row@)) == (row@, 0nat));
    }
    d
}

/// After the compress/merge pass a line is stable (no slide or merge is
/// left) and the number of occupied cells has not increased.
pub proof fn lemma_pass_fixed_point(row: Seq<u8>)
    requires
        is_line(row),
        line_value(row) <= VALUE_CAP,
    ensures
        !line_compressible(compress_line(row).0),
        line_occupied(compress_line(row).0) <= line_occupied(row),
{
    lemma_compress_fuel_props(row, line_measure(row));
}

} // verus!
