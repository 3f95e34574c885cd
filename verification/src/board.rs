//! The 4x4 board and its geometry.
//!
//! The board is a flat sequence of 16 pieces, cell `(x, y)` at index
//! `4 * x + y`.  Every piece stores its own coordinates; `board_geom` is the
//! invariant that they agree with the piece's position.  Two self-inverse
//! transforms — the vertical mirror and the diagonal transpose — reduce the
//! four move directions to the single canonical pass of `rowpass`.

use vstd::prelude::*;

use crate::piece::Piece;
use crate::rowpass::{
    cell_value, compress_line, line_compressible, line_occupied, line_value, occ1, VALUE_CAP,
};

verus! {

/// The piece of rank `s` that belongs at cell `(x, y)`.
pub open spec fn pc(s: u8, x: int, y: int) -> Piece {
    Piece { scale: s, x: x as u8, y: y as u8 }
}

/// A well-formed board: 16 cells, and every piece's stored coordinates agree
/// with its position in the sequence.
pub open spec fn board_geom(b: Seq<Piece>) -> bool {
    &&& b.len() == 16
    &&& forall|i: int| 0 <= i < 16 ==> (#[trigger] b[i]).x as int == i / 4 && b[i].y as int == i
        % 4
}

/// Line `x` of the board, as the sequence of its four ranks.
pub open spec fn line_of(b: Seq<Piece>, x: int) -> Seq<u8> {
    Seq::new(4, |y: int| b[4 * x + y].scale)
}

/// Total tile value of the board.
pub open spec fn board_value(b: Seq<Piece>) -> nat {
    line_value(line_of(b, 0)) + line_value(line_of(b, 1)) + line_value(line_of(b, 2))
        + line_value(line_of(b, 3))
}

/// Number of occupied cells of the board.
pub open spec fn board_occupied(b: Seq<Piece>) -> int {
    line_occupied(line_of(b, 0)) + line_occupied(line_of(b, 1)) + line_occupied(line_of(b, 2))
        + line_occupied(line_of(b, 3))
}

/// Whether any line of the board still has an eligible slide or merge.
pub open spec fn board_compressible(b: Seq<Piece>) -> bool {
    ||| line_compressible(line_of(b, 0))
    ||| line_compressible(line_of(b, 1))
    ||| line_compressible(line_of(b, 2))
    ||| line_compressible(line_of(b, 3))
}

/// The vertical mirror: reverses the cells within every line
/// (`y' == 3 - y`), restoring every piece's stored coordinates.
pub open spec fn vflip_spec(b: Seq<Piece>) -> Seq<Piece> {
    Seq::new(16, |i: int| pc(b[(i / 4) * 4 + 3 - (i % 4)].scale, i / 4, i % 4))
}

/// The diagonal transpose: swaps cell `(x, y)` with cell `(y, x)`, restoring
/// every piece's stored coordinates.
pub open spec fn dflip_spec(b: Seq<Piece>) -> Seq<Piece> {
    Seq::new(16, |i: int| pc(b[(i % 4) * 4 + i / 4].scale, i / 4, i % 4))
}

/// The canonical pass applied to every line of the board.  Opaque:
/// everything callers need of it is stated by `lemma_pass_board_props` and
/// `lemma_line_of_pass`.
#[verifier::opaque]
pub open spec fn pass_board(b: Seq<Piece>) -> Seq<Piece> {
    Seq::new(16, |i: int| pc(compress_line(line_of(b, i / 4)).0[i % 4], i / 4, i % 4))
}

/// The total score gained by the canonical pass over the whole board.
/// Opaque, like `pass_board`.
#[verifier::opaque]
pub open spec fn pass_delta(b: Seq<Piece>) -> nat {
    compress_line(line_of(b, 0)).1 + compress_line(line_of(b, 1)).1 + compress_line(
        line_of(b, 2),
    ).1 + compress_line(line_of(b, 3)).1
}

/// The board after the given tile ranks are slid and merged in direction `d`
/// (0 = up, 1 = right, 2 = down, 3 = left): the direction's transforms around
/// the canonical pass.
pub open spec fn move_board(d: int, b: Seq<Piece>) -> Seq<Piece> {
    if d == 0 {
        pass_board(b)
    } else if d == 1 {
        dflip_spec(vflip_spec(pass_board(vflip_spec(dflip_spec(b)))))
    } else if d == 2 {
        vflip_spec(pass_board(vflip_spec(b)))
    } else {
        dflip_spec(pass_board(dflip_spec(b)))
    }
}

/// The score gained by a move in direction `d`.
pub open spec fn move_delta(d: int, b: Seq<Piece>) -> nat {
    if d == 0 {
        pass_delta(b)
    } else if d == 1 {
        pass_delta(vflip_spec(dflip_spec(b)))
    } else if d == 2 {
        pass_delta(vflip_spec(b))
    } else {
        pass_delta(dflip_spec(b))
    }
}

/// Whether a move in direction `d` would change the board.
pub open spec fn move_enabled(d: int, b: Seq<Piece>) -> bool {
    if d == 0 {
        board_compressible(b)
    } else if d == 1 {
        board_compressible(vflip_spec(dflip_spec(b)))
    } else if d == 2 {
        board_compressible(vflip_spec(b))
    } else {
        board_compressible(dflip_spec(b))
    }
}

/// The vertical mirror is an involution: applied twice, it restores the
/// board, stored coordinates included.
pub proof fn lemma_vflip_involution(b: Seq<Piece>)
    requires
        board_geom(b),
    ensures
        vflip_spec(vflip_spec(b)) == b,
{
    assert(vflip_spec(vflip_spec(b)) =~= b);
}

/// The diagonal transpose is an involution: applied twice, it restores the
/// board, stored coordinates included.
pub proof fn lemma_dflip_involution(b: Seq<Piece>)
    requires
        board_geom(b),
    ensures
        dflip_spec(dflip_spec(b)) == b,
{
    assert(dflip_spec(dflip_spec(b)) =~= b);
}

/// The transforms keep the board well formed and permute its cells, so they
/// conserve the total value and the occupied count.
pub proof fn lemma_flip_aggregates(b: Seq<Piece>)
    requires
        b.len() == 16,
    ensures
        board_geom(vflip_spec(b)),
        board_geom(dflip_spec(b)),
        board_value(vflip_spec(b)) == board_value(b),
        board_value(dflip_spec(b)) == board_value(b),
        board_occupied(vflip_spec(b)) == board_occupied(b),
        board_occupied(dflip_spec(b)) == board_occupied(b),
{
}

/// A line's value never exceeds the board's.
pub proof fn lemma_line_le_board(b: Seq<Piece>, x: int)
    requires
        b.len() == 16,
        0 <= x < 4,
    ensures
        crate::rowpass::is_line(line_of(b, x)),
        line_value(line_of(b, x)) <= board_value(b),
{
    if x == 0 {
        assert(line_value(line_of(b, 0)) <= board_value(b));
    } else if x == 1 {
        assert(line_value(line_of(b, 1)) <= board_value(b));
    } else if x == 2 {
        assert(line_value(line_of(b, 2)) <= board_value(b));
    } else {
        assert(line_value(line_of(b, 3)) <= board_value(b));
    }
}

/// A cell's value never exceeds the board's.
pub proof fn lemma_cell_le_board(b: Seq<Piece>, i: int)
    requires
        b.len() == 16,
        0 <= i < 16,
    ensures
        cell_value(b[i].scale) <= board_value(b),
{
    let x = i / 4;
    let y = i % 4;
    assert(0 <= x < 4 && 0 <= y < 4);
    assert(4 * x + y == i);
    assert(line_of(b, x)[y] == b[i].scale);
    let row = line_of(b, x);
    if y == 0 {
        assert(cell_value(row[0]) <= line_value(row));
    } else if y == 1 {
        assert(cell_value(row[1]) <= line_value(row));
    } else if y == 2 {
        assert(cell_value(row[2]) <= line_value(row));
    } else {
        assert(cell_value(row[3]) <= line_value(row));
    }
    lemma_line_le_board(b, x);
}

/// Every line of a board within the value cap is itself within the cap.
pub proof fn lemma_line_within(b: Seq<Piece>, x: int)
    requires
        b.len() == 16,
        board_value(b) <= VALUE_CAP,
        0 <= x < 4,
    ensures
        crate::rowpass::is_line(line_of(b, x)),
        line_value(line_of(b, x)) <= VALUE_CAP,
{
    lemma_line_le_board(b, x);
}

/// The total value of the first `k` cells of the board.
pub open spec fn prefix_value(b: Seq<Piece>, k: int) -> nat
    decreases k,
{
    if k <= 0 {
        0
    } else {
        prefix_value(b, k - 1) + cell_value(b[k - 1].scale)
    }
}

/// Whether the first `k` cells carry their own position as coordinates.
pub open spec fn prefix_geom(b: Seq<Piece>, k: int) -> bool {
    forall|i: int| 0 <= i < k ==> (#[trigger] b[i]).x as int == i / 4 && b[i].y as int == i % 4
}

/// Over all 16 cells the prefix aggregates are the board aggregates.
pub proof fn lemma_prefix_totals(b: Seq<Piece>)
    requires
        b.len() == 16,
    ensures
        prefix_value(b, 16) == board_value(b),
        board_geom(b) <==> prefix_geom(b, 16),
{
    reveal_with_fuel(prefix_value, 17);
    assert forall|x: int, y: int| 0 <= x < 4 && 0 <= y < 4 implies line_of(b, x)[y] == b[4 * x
        + y].scale by {}
    assert(prefix_value(b, 16) == board_value(b));
}

/// Line `x` of the passed board is the passed line `x` of the board.
pub proof fn lemma_line_of_pass(b: Seq<Piece>, x: int)
    requires
        b.len() == 16,
        board_value(b) <= VALUE_CAP,
        0 <= x < 4,
    ensures
        line_of(pass_board(b), x) == compress_line(line_of(b, x)).0,
{
    reveal(pass_board);
    lemma_line_within(b, x);
    crate::rowpass::lemma_compress_fuel_props(
        line_of(b, x),
        crate::rowpass::line_measure(line_of(b, x)),
    );
    assert forall|y: int| 0 <= y < 4 implies line_of(pass_board(b), x)[y] == compress_line(
        line_of(b, x),
    ).0[y] by {
        assert((4 * x + y) / 4 == x && (4 * x + y) % 4 == y);
    }
    assert(line_of(pass_board(b), x) =~= compress_line(line_of(b, x)).0);
}

/// What the canonical pass does to the whole board: it keeps the board well
/// formed, conserves the total value, never increases the occupied count,
/// is the identity (with zero score) exactly when no line is compressible,
/// and frees at least one cell whenever some line is compressible.
#[verifier::rlimit(50)]
pub proof fn lemma_pass_board_props(b: Seq<Piece>)
    requires
        board_geom(b),
        board_value(b) <= VALUE_CAP,
    ensures
        board_geom(pass_board(b)),
        board_value(pass_board(b)) == board_value(b),
        board_occupied(pass_board(b)) <= board_occupied(b),
        !board_compressible(b) ==> pass_board(b) == b && pass_delta(b) == 0,
        board_compressible(b) ==> board_occupied(pass_board(b)) <= 15,
        pass_delta(b) <= 4 * (3 * VALUE_CAP * 22),
{
    reveal(pass_board);
    reveal(pass_delta);
    let p = pass_board(b);
    lemma_line_of_pass(b, 0);
    lemma_line_of_pass(b, 1);
    lemma_line_of_pass(b, 2);
    lemma_line_of_pass(b, 3);
    lemma_line_within(b, 0);
    lemma_line_within(b, 1);
    lemma_line_within(b, 2);
    lemma_line_within(b, 3);
    crate::rowpass::lemma_compress_fuel_props(line_of(b, 0), crate::rowpass::line_measure(line_of(b, 0)));
    crate::rowpass::lemma_compress_fuel_props(line_of(b, 1), crate::rowpass::line_measure(line_of(b, 1)));
    crate::rowpass::lemma_compress_fuel_props(line_of(b, 2), crate::rowpass::line_measure(line_of(b, 2)));
    crate::rowpass::lemma_compress_fuel_props(line_of(b, 3), crate::rowpass::line_measure(line_of(b, 3)));
    assert(crate::rowpass::line_measure(line_of(b, 0)) <= 22);
    assert(crate::rowpass::line_measure(line_of(b, 1)) <= 22);
    assert(crate::rowpass::line_measure(line_of(b, 2)) <= 22);
    assert(crate::rowpass::line_measure(line_of(b, 3)) <= 22);
    if !board_compressible(b) {
        assert(pass_board(b) =~= b);
    }
    if board_compressible(b) {
        if line_compressible(line_of(b, 0)) {
            assert(line_occupied(line_of(p, 0)) <= 3);
        } else if line_compressible(line_of(b, 1)) {
            assert(line_occupied(line_of(p, 1)) <= 3);
        } else if line_compressible(line_of(b, 2)) {
            assert(line_occupied(line_of(p, 2)) <= 3);
        } else {
            assert(line_occupied(line_of(p, 3)) <= 3);
        }
    }
}

/// A pass that returns the board unchanged gained no score: an unchanged
/// board has no compressible line, and a stable line scores nothing.
pub proof fn lemma_pass_identity_delta(b: Seq<Piece>)
    requires
        board_geom(b),
        board_value(b) <= VALUE_CAP,
        pass_board(b) == b,
    ensures
        pass_delta(b) == 0,
        !board_compressible(b),
{
    reveal(pass_delta);
    lemma_line_of_pass(b, 0);
    lemma_line_of_pass(b, 1);
    lemma_line_of_pass(b, 2);
    lemma_line_of_pass(b, 3);
    lemma_line_within(b, 0);
    lemma_line_within(b, 1);
    lemma_line_within(b, 2);
    lemma_line_within(b, 3);
    crate::rowpass::lemma_compress_fuel_props(line_of(b, 0), crate::rowpass::line_measure(line_of(b, 0)));
    crate::rowpass::lemma_compress_fuel_props(line_of(b, 1), crate::rowpass::line_measure(line_of(b, 1)));
    crate::rowpass::lemma_compress_fuel_props(line_of(b, 2), crate::rowpass::line_measure(line_of(b, 2)));
    crate::rowpass::lemma_compress_fuel_props(line_of(b, 3), crate::rowpass::line_measure(line_of(b, 3)));
}

/// If two boards agree on every line but `x`, where the total value is
/// conserved and the occupied count does not grow, the same holds of the
/// whole boards.
pub proof fn lemma_board_from_lines(b: Seq<Piece>, c: Seq<Piece>, x: int)
    requires
        0 <= x < 4,
        forall|x2: int| 0 <= x2 < 4 && x2 != x ==> line_of(c, x2) == line_of(b, x2),
        line_value(line_of(c, x)) == line_value(line_of(b, x)),
        line_occupied(line_of(c, x)) <= line_occupied(line_of(b, x)),
    ensures
        board_value(c) == board_value(b),
        board_occupied(c) <= board_occupied(b),
{
    if x == 0 {
        assert(line_of(c, 1) == line_of(b, 1) && line_of(c, 2) == line_of(b, 2) && line_of(c, 3)
            == line_of(b, 3));
    } else if x == 1 {
        assert(line_of(c, 0) == line_of(b, 0) && line_of(c, 2) == line_of(b, 2) && line_of(c, 3)
            == line_of(b, 3));
    } else if x == 2 {
        assert(line_of(c, 0) == line_of(b, 0) && line_of(c, 1) == line_of(b, 1) && line_of(c, 3)
            == line_of(b, 3));
    } else {
        assert(line_of(c, 0) == line_of(b, 0) && line_of(c, 1) == line_of(b, 1) && line_of(c, 2)
            == line_of(b, 2));
    }
}

/// Number of empty cells among the first `k`.
pub open spec fn prefix_empties(b: Seq<Piece>, k: int) -> int
    decreases k,
{
    if k <= 0 {
        0
    } else {
        prefix_empties(b, k - 1) + (if b[k - 1].scale == 0 {
            1int
        } else {
            0int
        })
    }
}

/// Number of occupied cells among the first `k`.
pub open spec fn prefix_occupied(b: Seq<Piece>, k: int) -> int
    decreases k,
{
    if k <= 0 {
        0
    } else {
        prefix_occupied(b, k - 1) + occ1(b[k - 1].scale)
    }
}

/// Among the first `k` cells, empty and occupied ones add up to `k`.
pub proof fn lemma_prefix_split(b: Seq<Piece>, k: int)
    requires
        0 <= k,
    ensures
        prefix_empties(b, k) + prefix_occupied(b, k) == k,
    decreases k,
{
    if k > 0 {
        lemma_prefix_split(b, k - 1);
    }
}

/// Over all 16 cells, empty and occupied cells add up to the board.
#[verifier::rlimit(50)]
pub proof fn lemma_empties_total(b: Seq<Piece>)
    requires
        b.len() == 16,
    ensures
        prefix_empties(b, 16) + board_occupied(b) == 16,
{
    lemma_prefix_split(b, 16);
    reveal_with_fuel(prefix_occupied, 17);
    assert forall|x: int, y: int| 0 <= x < 4 && 0 <= y < 4 implies line_of(b, x)[y] == b[4 * x
        + y].scale by {}
    assert(prefix_occupied(b, 16) == board_occupied(b));
}

/// A longer prefix holds at least as many empties, and at most one more per
/// extra cell.
pub proof fn lemma_empties_window(b: Seq<Piece>, i: int, j: int)
    requires
        0 <= i <= j,
    ensures
        prefix_empties(b, i) <= prefix_empties(b, j) <= prefix_empties(b, i) + (j - i),
    decreases j,
{
    if i < j {
        lemma_empties_window(b, i, j - 1);
    }
}

/// Like `lemma_board_from_lines`, with exact deltas: if the boards agree on
/// every line but `x`, the difference of line `x` is the difference of the
/// boards.
pub proof fn lemma_board_from_lines_delta(b: Seq<Piece>, c: Seq<Piece>, x: int, dv: nat, docc: int)
    requires
        0 <= x < 4,
        forall|x2: int| 0 <= x2 < 4 && x2 != x ==> line_of(c, x2) == line_of(b, x2),
        line_value(line_of(c, x)) == line_value(line_of(b, x)) + dv,
        line_occupied(line_of(c, x)) == line_occupied(line_of(b, x)) + docc,
    ensures
        board_value(c) == board_value(b) + dv,
        board_occupied(c) == board_occupied(b) + docc,
{
    if x == 0 {
        assert(line_of(c, 1) == line_of(b, 1) && line_of(c, 2) == line_of(b, 2) && line_of(c, 3)
            == line_of(b, 3));
    } else if x == 1 {
        assert(line_of(c, 0) == line_of(b, 0) && line_of(c, 2) == line_of(b, 2) && line_of(c, 3)
            == line_of(b, 3));
    } else if x == 2 {
        assert(line_of(c, 0) == line_of(b, 0) && line_of(c, 1) == line_of(b, 1) && line_of(c, 3)
            == line_of(b, 3));
    } else {
        assert(line_of(c, 0) == line_of(b, 0) && line_of(c, 1) == line_of(b, 1) && line_of(c, 2)
            == line_of(b, 2));
    }
}

/// Setting a fresh tile of rank `s` onto the empty cell `i` raises the
/// board's value by the tile's value, occupies exactly one more cell, and
/// keeps the board well formed.
pub proof fn lemma_spawn_update(b: Seq<Piece>, i: int, s: u8)
    requires
        b.len() == 16,
        0 <= i < 16,
        b[i].scale == 0,
        s != 0,
    ensures
        board_value(b.update(i, pc(s, i / 4, i % 4))) == board_value(b) + cell_value(s),
        board_occupied(b.update(i, pc(s, i / 4, i % 4))) == board_occupied(b) + 1,
        board_geom(b) ==> board_geom(b.update(i, pc(s, i / 4, i % 4))),
{
    let c = b.update(i, pc(s, i / 4, i % 4));
    let x = i / 4;
    let y = i % 4;
    assert(0 <= x < 4 && 0 <= y < 4);
    assert(4 * x + y == i);
    assert forall|x2: int, y2: int| 0 <= x2 < 4 && 0 <= y2 < 4 && 4 * x2 + y2 != i implies line_of(
        c,
        x2,
    )[y2] == line_of(b, x2)[y2] by {}
    assert forall|x2: int| 0 <= x2 < 4 && x2 != x implies line_of(c, x2) == line_of(b, x2) by {
        assert forall|y2: int| 0 <= y2 < 4 implies line_of(c, x2)[y2] == line_of(b, x2)[y2] by {
            assert(4 * x2 + y2 != i);
        }
        assert(line_of(c, x2) =~= line_of(b, x2));
    }
    assert(line_of(c, x) =~= line_of(b, x).update(y, s));
    let rb = line_of(b, x);
    let rc = line_of(c, x);
    assert(rb[y] == 0u8);
    if y == 0 {
        assert(line_value(rc) == line_value(rb) + cell_value(s));
        assert(line_occupied(rc) == line_occupied(rb) + 1);
    } else if y == 1 {
        assert(line_value(rc) == line_value(rb) + cell_value(s));
        assert(line_occupied(rc) == line_occupied(rb) + 1);
    } else if y == 2 {
        assert(line_value(rc) == line_value(rb) + cell_value(s));
        assert(line_occupied(rc) == line_occupied(rb) + 1);
    } else {
        assert(line_value(rc) == line_value(rb) + cell_value(s));
        assert(line_occupied(rc) == line_occupied(rb) + 1);
    }
    lemma_board_from_lines_delta(b, c, x, cell_value(s), 1);
}

/// On well-formed boards the vertical mirror is injective.
pub proof fn lemma_vflip_injective(a: Seq<Piece>, c: Seq<Piece>)
    requires
        board_geom(a),
        board_geom(c),
        vflip_spec(a) == vflip_spec(c),
    ensures
        a == c,
{
    lemma_vflip_involution(a);
    lemma_vflip_involution(c);
}

/// On well-formed boards the diagonal transpose is injective.
pub proof fn lemma_dflip_injective(a: Seq<Piece>, c: Seq<Piece>)
    requires
        board_geom(a),
        board_geom(c),
        dflip_spec(a) == dflip_spec(c),
    ensures
        a == c,
{
    lemma_dflip_involution(a);
    lemma_dflip_involution(c);
}

/// A move that returns the board unchanged gained no score, whatever its
/// direction.
pub proof fn lemma_move_identity_delta(d: int, b: Seq<Piece>)
    requires
        board_geom(b),
        board_value(b) <= VALUE_CAP,
        0 <= d < 4,
        move_board(d, b) == b,
    ensures
        move_delta(d, b) == 0,
        !move_enabled(d, b),
{
    lemma_flip_aggregates(b);
    if d == 0 {
        lemma_pass_identity_delta(b);
    } else if d == 1 {
        let t = vflip_spec(dflip_spec(b));
        lemma_flip_aggregates(dflip_spec(b));
        lemma_flip_aggregates(t);
        lemma_pass_board_props(t);
        lemma_flip_aggregates(pass_board(t));
        lemma_flip_aggregates(vflip_spec(pass_board(t)));
        // peel the two outer transforms off `move_board(1, b) == b`
        lemma_vflip_involution(dflip_spec(b));
        lemma_dflip_involution(b);
        assert(dflip_spec(vflip_spec(t)) == b);
        lemma_dflip_injective(vflip_spec(pass_board(t)), vflip_spec(t));
        lemma_vflip_injective(pass_board(t), t);
        lemma_pass_identity_delta(t);
    } else if d == 2 {
        let t = vflip_spec(b);
        lemma_flip_aggregates(t);
        lemma_pass_board_props(t);
        lemma_vflip_involution(b);
        assert(vflip_spec(t) == b);
        lemma_vflip_injective(pass_board(t), t);
        lemma_pass_identity_delta(t);
    } else {
        let t = dflip_spec(b);
        lemma_flip_aggregates(t);
        lemma_pass_board_props(t);
        lemma_dflip_involution(b);
        assert(dflip_spec(t) == b);
        lemma_dflip_injective(pass_board(t), t);
        lemma_pass_identity_delta(t);
    }
}

} // verus!
