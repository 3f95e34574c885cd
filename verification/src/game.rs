//! The game state and the move engine.
//!
//! A move applies a direction's geometric transforms, runs the canonical
//! compress/merge pass over every line, undoes the transforms, and — if
//! anything changed — spawns one fresh tile of rank 1 or 2 on a random empty
//! cell and counts the move.  The score grows by the value of every merged
//! tile; it is added with saturation, a machine limit.

use vstd::prelude::*;

use crate::board::{
    board_compressible, board_geom, board_occupied, board_value, dflip_spec, lemma_board_from_lines,
    lemma_dflip_involution, lemma_flip_aggregates, lemma_line_within, lemma_move_identity_delta,
    lemma_pass_board_props, lemma_vflip_involution, line_of, move_board, move_delta, move_enabled,
    pass_board, pass_delta, pc, vflip_spec,
};
use crate::clock::Time;
use crate::piece::Piece;
use crate::rng::rand_below;
use crate::rowpass::{
    compress_line, compress_line_exec, lemma_compress_fuel_props, line_compressible, line_measure,
    VALUE_CAP,
};

verus! {

/// The two play modes: normal play, and the reverse variant where the player
/// places tiles and the engine moves on its own.
#[derive(Debug, Clone, Copy, PartialEq, Eq, Structural)]
pub enum Mode {
    Normal,
    Reverse,
}

impl Mode {
    /// The mode's display name.
    pub fn to_string(&self) -> (s: String)
        ensures
            *self == Mode::Normal ==> s@ == "Normal"@,
            *self == Mode::Reverse ==> s@ == "Reverse"@,
    {
        match self {
            Mode::Normal => "Normal".to_owned(),
            Mode::Reverse => "Reverse".to_owned(),
        }
    }
}

/// The commands the presentation shell can send to the game.
#[derive(Debug, Clone, Copy)]
pub enum Message {
    Tick,
    Upgrade(Piece),
    Up,
    Down,
    Left,
    Right,
    Restart,
    Quit,
    ModeSwitch,
    Noop,
}

/// Why an upgrade was rejected.
#[derive(Debug, Clone, Copy, PartialEq, Eq, Structural)]
pub enum UpgradeError {
    OutOfBounds,
    Occupied,
}

/// The whole game: mode, board, score, move counter and clock.
#[derive(Debug, Clone)]
pub struct Game {
    pub mode: Mode,
    pub board: Vec<Piece>,
    pub score: u32,
    pub moves: u32,
    pub time: Time,
}

/// `a + d`, saturating at the largest `u32`.
pub open spec fn sat_add(a: u32, d: nat) -> u32 {
    if a + d <= u32::MAX {
        (a + d) as u32
    } else {
        u32::MAX
    }
}

/// `m + 1`, saturating at the largest `u32`.
pub open spec fn bump(m: u32) -> u32 {
    if m < u32::MAX {
        (m + 1) as u32
    } else {
        m
    }
}

/// Whether `b2` is `b` after one legal spawn: a single tile of rank 1 or 2
/// placed on a cell that was empty.
pub open spec fn spawned_from(b: Seq<Piece>, b2: Seq<Piece>) -> bool {
    exists|i: int|
        0 <= i < 16 && b[i].scale == 0 && (b2 == b.update(i, pc(1, i / 4, i % 4)) || b2 == b.update(
            i,
            pc(2, i / 4, i % 4),
        ))
}

/// Whether some cell of the board holds a freshly seeded tile: rank 1 or 2.
pub open spec fn holds_seed(b: Seq<Piece>) -> bool {
    exists|i: int| 0 <= i < 16 && ((#[trigger] b[i]).scale == 1 || b[i].scale == 2)
}

/// Saturating addition never decreases the left operand: the score never
/// goes down across any sequence of moves.
pub proof fn lemma_sat_add_monotonic(a: u32, d: nat)
    ensures
        sat_add(a, d) >= a,
{
}

/// While the counter has room, the score after a move is exactly the old
/// score plus the move's merge score — the sum, over every merge performed,
/// of the merged tile's value.
pub proof fn lemma_exact_score(a: u32, d: nat)
    requires
        a + d <= u32::MAX,
    ensures
        sat_add(a, d) == a + d,
{
}

/// Saturating additions compose.
pub proof fn lemma_sat_add_assoc(a: u32, d1: nat, d2: nat)
    ensures
        sat_add(sat_add(a, d1), d2) == sat_add(a, d1 + d2),
{
}

impl Game {
    /// A well-formed game: 16 cells whose stored coordinates agree with
    /// their positions, a total tile value within the machine cap, and a
    /// well-formed clock.
    pub open spec fn wf(&self) -> bool {
        board_geom(self.board@) && board_value(self.board@) <= VALUE_CAP && self.time.wf()
    }

    /// Whether a fresh tile can still be spawned without driving the total
    /// tile value over the machine cap.
    pub open spec fn headroom(&self) -> bool {
        board_value(self.board@) + 4 <= VALUE_CAP
    }

    /// Whether the game is well formed, decided at run time, so that an
    /// unverified caller can check before it moves.
    pub fn is_well_formed(&self) -> (r: bool)
        ensures
            r == (self.wf() && self.headroom()),
    {
        if self.board.len() != 16 {
            return false;
        }
        if !(self.time.seconds < 60 && self.time.minutes < 60) {
            return false;
        }
        let mut i: usize = 0;
        let mut value: u64 = 0;
        while i < 16
            invariant
                i <= 16,
                self.board@.len() == 16,
                self.time.wf(),
                value == crate::board::prefix_value(self.board@, i as int),
                crate::board::prefix_geom(self.board@, i as int),
                value <= i * 0x1_0000_0000,
            decreases 16 - i,
        {
            let p = self.board[i];
            if p.scale >= 32 {
                proof {
                    crate::board::lemma_cell_le_board(self.board@, i as int);
                    vstd::arithmetic::power2::lemma2_to64();
                    if p.scale > 32 {
                        vstd::arithmetic::power2::lemma_pow2_strictly_increases(32, p.scale as nat);
                    }
                }
                return false;
            }
            if !(p.x as usize == i / 4 && p.y as usize == i % 4) {
                return false;
            }
            let v: u64 = if p.scale == 0 {
                0u64
            } else {
                crate::piece::pow2_u32(p.scale) as u64
            };
            proof {
                vstd::arithmetic::power2::lemma2_to64();
                if p.scale > 0 {
                    vstd::arithmetic::power2::lemma_pow2_strictly_increases(p.scale as nat, 32);
                }
            }
            value = value + v;
            i = i + 1;
        }
        proof {
            crate::board::lemma_prefix_totals(self.board@);
        }
        value + 4 <= VALUE_CAP
    }

    /// Reverses the cells within every line (`y' == 3 - y`), keeping every
    /// piece's stored coordinates in step with its new position.
    pub fn vert_flip(&mut self)
        requires
            old(self).board@.len() == 16,
        ensures
            final(self).board@ == vflip_spec(old(self).board@),
            final(self).score == old(self).score,
            final(self).moves == old(self).moves,
            final(self).time == old(self).time,
            final(self).mode == old(self).mode,
    {
        let mut nb: Vec<Piece> = Vec::new();
        let mut i: usize = 0;
        while i < 16
            invariant
                i <= 16,
                *self == *old(self),
                self.board@.len() == 16,
                nb@.len() == i,
                forall|j: int| 0 <= j < i ==> nb@[j] == vflip_spec(old(self).board@)[j],
            decreases 16 - i,
        {
            let x = i / 4;
            let y = i % 4;
            let src = x * 4 + 3 - y;
            let s = self.board[src].scale;
            nb.push(Piece { scale: s, x: x as u8, y: y as u8 });
            i = i + 1;
        }
        proof {
            assert(nb@ =~= vflip_spec(old(self).board@));
        }
        self.board = nb;
    }

    /// Reflects the board across its main diagonal (`(x, y)` to `(y, x)`),
    /// keeping every piece's stored coordinates in step with its new
    /// position.
    pub fn diag_flip(&mut self)
        requires
            old(self).board@.len() == 16,
        ensures
            final(self).board@ == dflip_spec(old(self).board@),
            final(self).score == old(self).score,
            final(self).moves == old(self).moves,
            final(self).time == old(self).time,
            final(self).mode == old(self).mode,
    {
        let mut nb: Vec<Piece> = Vec::new();
        let mut i: usize = 0;
        while i < 16
            invariant
                i <= 16,
                *self == *old(self),
                self.board@.len() == 16,
                nb@.len() == i,
                forall|j: int| 0 <= j < i ==> nb@[j] == dflip_spec(old(self).board@)[j],
            decreases 16 - i,
        {
            let x = i / 4;
            let y = i % 4;
            let src = y * 4 + x;
            let s = self.board[src].scale;
            nb.push(Piece { scale: s, x: x as u8, y: y as u8 });
            i = i + 1;
        }
        proof {
            assert(nb@ =~= dflip_spec(old(self).board@));
        }
        self.board = nb;
    }

    /// Whether line `x` still contains at least one eligible slide or merge.
    pub fn compressible(&self, x: usize) -> (r: bool)
        requires
            x < 4,
            self.board@.len() == 16,
        ensures
            r == line_compressible(line_of(self.board@, x as int)),
    {
        let c0 = self.board[4 * x].scale;
        let c1 = self.board[4 * x + 1].scale;
        let c2 = self.board[4 * x + 2].scale;
        let c3 = self.board[4 * x + 3].scale;
        proof {
            assert(line_of(self.board@, x as int)[0] == c0);
            assert(line_of(self.board@, x as int)[1] == c1);
            assert(line_of(self.board@, x as int)[2] == c2);
            assert(line_of(self.board@, x as int)[3] == c3);
        }
        (c1 != 0 && (c0 == 0 || c0 == c1)) || (c2 != 0 && (c1 == 0 || c1 == c2)) || (c3 != 0 && (c2
            == 0 || c2 == c3))
    }

    /// Runs the compress/merge pass on line `x` and adds the score it gains,
    /// saturating at the largest `u32`.
    pub fn compress(&mut self, x: usize)
        requires
            x < 4,
            board_geom(old(self).board@),
            board_value(old(self).board@) <= VALUE_CAP,
        ensures
            final(self).board@.len() == 16,
            board_geom(final(self).board@),
            board_value(final(self).board@) == board_value(old(self).board@),
            line_of(final(self).board@, x as int) == compress_line(
                line_of(old(self).board@, x as int),
            ).0,
            forall|i: int|
                0 <= i < 16 && i / 4 != x as int ==> final(self).board@[i] == old(self).board@[i],
            final(self).score == sat_add(
                old(self).score,
                compress_line(line_of(old(self).board@, x as int)).1,
            ),
            old(self).score + compress_line(line_of(old(self).board@, x as int)).1 <= u32::MAX
                ==> final(self).score == old(self).score + compress_line(
                line_of(old(self).board@, x as int),
            ).1,
            board_occupied(final(self).board@) <= board_occupied(old(self).board@),
            final(self).moves == old(self).moves,
            final(self).time == old(self).time,
            final(self).mode == old(self).mode,
    {
        let ghost orig = self.board@;
        let ghost lx = line_of(orig, x as int);
        let mut row: Vec<u8> = Vec::new();
        row.push(self.board[4 * x].scale);
        row.push(self.board[4 * x + 1].scale);
        row.push(self.board[4 * x + 2].scale);
        row.push(self.board[4 * x + 3].scale);
        proof {
            assert(row@ =~= lx);
            lemma_line_within(orig, x as int);
            lemma_compress_fuel_props(lx, line_measure(lx));
        }
        let d = compress_line_exec(&mut row);
        let r0 = row[0];
        let r1 = row[1];
        let r2 = row[2];
        let r3 = row[3];
        self.board.set(4 * x, Piece { scale: r0, x: x as u8, y: 0 });
        self.board.set(4 * x + 1, Piece { scale: r1, x: x as u8, y: 1 });
        self.board.set(4 * x + 2, Piece { scale: r2, x: x as u8, y: 2 });
        self.board.set(4 * x + 3, Piece { scale: r3, x: x as u8, y: 3 });
        if d <= u32::MAX - self.score {
            self.score = self.score + d;
        } else {
            self.score = u32::MAX;
        }
        proof {
            let nb = self.board@;
            let xi = x as int;
            assert((4 * xi) / 4 == xi && (4 * xi) % 4 == 0);
            assert((4 * xi + 1) / 4 == xi && (4 * xi + 1) % 4 == 1);
            assert((4 * xi + 2) / 4 == xi && (4 * xi + 2) % 4 == 2);
            assert((4 * xi + 3) / 4 == xi && (4 * xi + 3) % 4 == 3);
            assert(line_of(nb, xi) =~= compress_line(lx).0);
            assert forall|x2: int| 0 <= x2 < 4 && x2 != xi implies line_of(nb, x2) == line_of(
                orig,
                x2,
            ) by {
                assert forall|y: int| 0 <= y < 4 implies line_of(nb, x2)[y] == line_of(orig, x2)[y]
                    by {
                    assert((4 * x2 + y) / 4 == x2);
                }
                assert(line_of(nb, x2) =~= line_of(orig, x2));
            }
            lemma_board_from_lines(orig, nb, xi);
        }
    }

    /// Spawns one tile of rank 1 or 2 (each with equal chance) on a
    /// uniformly random empty cell.  When no empty cell exists the spawner
    /// does not fire and reports the full board instead.
    pub fn summon(&mut self) -> (spawned: bool)
        requires
            board_geom(old(self).board@),
            board_value(old(self).board@) + 4 <= VALUE_CAP,
        ensures
            board_geom(final(self).board@),
            final(self).score == old(self).score,
            final(self).moves == old(self).moves,
            final(self).time == old(self).time,
            final(self).mode == old(self).mode,
            board_occupied(old(self).board@) == 16 ==> !spawned && *final(self) == *old(self),
            board_occupied(old(self).board@) < 16 ==> spawned && spawned_from(
                old(self).board@,
                final(self).board@,
            ) && board_occupied(final(self).board@) == board_occupied(old(self).board@) + 1,
            board_value(final(self).board@) <= board_value(old(self).board@) + 4,
    {
        let ghost orig = self.board@;
        let mut i: usize = 0;
        let mut empties: u32 = 0;
        while i < 16
            invariant
                i <= 16,
                *self == *old(self),
                self.board@.len() == 16,
                empties == crate::board::prefix_empties(self.board@, i as int),
                empties <= i,
            decreases 16 - i,
        {
            if self.board[i].scale == 0 {
                empties = empties + 1;
            }
            i = i + 1;
        }
        proof {
            crate::board::lemma_empties_total(self.board@);
        }
        if empties == 0 {
            return false;
        }
        let k = rand_below(empties);
        let mut j: usize = 0;
        let mut seen: u32 = 0;
        while j < 16
            invariant
                j <= 16,
                *self == *old(self),
                self.board@.len() == 16,
                board_geom(old(self).board@),
                board_value(old(self).board@) + 4 <= VALUE_CAP,
                seen == crate::board::prefix_empties(self.board@, j as int),
                seen <= k,
                k < empties,
                empties == crate::board::prefix_empties(self.board@, 16),
            decreases 16 - j,
        {
            if self.board[j].scale == 0 {
                if seen == k {
                    let r = rand_below(2);
                    let fresh_rank: u8 = if r == 0 {
                        1
                    } else {
                        2
                    };
                    let xi = j / 4;
                    let yi = j % 4;
                    let ghost before = self.board@;
                    self.board.set(j, Piece { scale: fresh_rank, x: xi as u8, y: yi as u8 });
                    proof {
                        let ji = j as int;
                        assert(before == old(self).board@);
                        assert(xi as int == ji / 4 && yi as int == ji % 4);
                        assert(Piece { scale: fresh_rank, x: xi as u8, y: yi as u8 } == pc(
                            fresh_rank,
                            ji / 4,
                            ji % 4,
                        ));
                        crate::board::lemma_spawn_update(before, ji, fresh_rank);
                        vstd::arithmetic::power2::lemma2_to64();
                        assert(spawned_from(old(self).board@, self.board@));
                        crate::board::lemma_empties_total(old(self).board@);
                    }
                    return true;
                }
                seen = seen + 1;
            }
            j = j + 1;
        }
        proof {
            assert(seen == empties);
            assert(false);
        }
        false
    }

    /// Runs the canonical pass on every line, telling whether anything
    /// changed.  A line is compressed exactly when it is still compressible,
    /// which is also exactly when it changes.
    fn pass_all_lines(&mut self) -> (shifted: bool)
        requires
            board_geom(old(self).board@),
            board_value(old(self).board@) <= VALUE_CAP,
        ensures
            final(self).board@ == pass_board(old(self).board@),
            board_geom(final(self).board@),
            board_value(final(self).board@) == board_value(old(self).board@),
            board_occupied(final(self).board@) <= board_occupied(old(self).board@),
            final(self).score == sat_add(old(self).score, pass_delta(old(self).board@)),
            final(self).moves == old(self).moves,
            final(self).time == old(self).time,
            final(self).mode == old(self).mode,
            shifted == board_compressible(old(self).board@),
            !shifted ==> *final(self) == *old(self),
            shifted ==> board_occupied(final(self).board@) <= 15,
    {
        let ghost orig = old(self).board@;
        let mut shifted = false;
        let mut x: usize = 0;
        while x < 4
            invariant
                x <= 4,
                board_geom(orig),
                board_value(orig) <= VALUE_CAP,
                orig == old(self).board@,
                board_geom(self.board@),
                board_value(self.board@) == board_value(orig),
                board_occupied(self.board@) <= board_occupied(orig),
                self.board@.len() == 16,
                forall|i: int|
                    0 <= i < 16 && i / 4 >= x as int ==> (#[trigger] self.board@[i]) == orig[i],
                forall|x2: int|
                    0 <= x2 < x as int ==> #[trigger] line_of(self.board@, x2) == compress_line(
                        line_of(orig, x2),
                    ).0,
                self.score == sat_add(old(self).score, delta_upto(orig, x as int)),
                self.moves == old(self).moves,
                self.time == old(self).time,
                self.mode == old(self).mode,
                shifted == exists|x2: int|
                    0 <= x2 < x as int && line_compressible(#[trigger] line_of(orig, x2)),
                !shifted ==> *self == *old(self),
            decreases 4 - x,
        {
            let ghost cur = self.board@;
            let ghost xi = x as int;
            proof {
                assert forall|y: int| 0 <= y < 4 implies line_of(cur, xi)[y] == line_of(orig, xi)[y]
                    by {
                    assert((4 * xi + y) / 4 == xi);
                }
                assert(line_of(cur, xi) =~= line_of(orig, xi));
                lemma_line_within(orig, xi);
                lemma_compress_fuel_props(line_of(orig, xi), line_measure(line_of(orig, xi)));
            }
            if self.compressible(x) {
                self.compress(x);
                shifted = true;
                proof {
                    lemma_sat_add_assoc(
                        old(self).score,
                        delta_upto(orig, xi),
                        compress_line(line_of(orig, xi)).1,
                    );
                    assert(delta_upto(orig, xi + 1) == delta_upto(orig, xi) + compress_line(
                        line_of(orig, xi),
                    ).1);
                    assert forall|x2: int| 0 <= x2 < xi + 1 implies #[trigger] line_of(
                        self.board@,
                        x2,
                    ) == compress_line(line_of(orig, x2)).0 by {
                        if x2 < xi {
                            assert forall|y: int| 0 <= y < 4 implies line_of(self.board@, x2)[y]
                                == line_of(cur, x2)[y] by {
                                assert((4 * x2 + y) / 4 == x2);
                            }
                            assert(line_of(self.board@, x2) =~= line_of(cur, x2));
                        }
                    }
                    assert(exists|x2: int|
                        0 <= x2 < xi + 1 && line_compressible(#[trigger] line_of(orig, x2)));
                }
            } else {
                proof {
                    assert(compress_line(line_of(orig, xi)).0 == line_of(orig, xi));
                    assert(delta_upto(orig, xi + 1) == delta_upto(orig, xi));
                    assert(line_of(self.board@, xi) == compress_line(line_of(orig, xi)).0);
                }
            }
            x = x + 1;
        }
        proof {
            reveal(crate::board::pass_board);
            reveal(crate::board::pass_delta);
            assert forall|i: int| 0 <= i < 16 implies self.board@[i] == pass_board(orig)[i] by {
                let x2 = i / 4;
                let y2 = i % 4;
                assert(0 <= x2 < 4 && 0 <= y2 < 4);
                assert(4 * x2 + y2 == i);
                assert(line_of(self.board@, x2)[y2] == self.board@[i].scale);
                assert(line_of(self.board@, x2) == compress_line(line_of(orig, x2)).0);
            }
            assert(self.board@ =~= pass_board(orig));
            reveal_with_fuel(delta_upto, 5);
            assert(delta_upto(orig, 4) == pass_delta(orig));
            if board_compressible(orig) {
                if line_compressible(line_of(orig, 0)) {
                } else if line_compressible(line_of(orig, 1)) {
                } else if line_compressible(line_of(orig, 2)) {
                } else {
                }
                assert(shifted);
                lemma_pass_board_props(orig);
            }
        }
        shifted
    }

    /// Slides and merges every line toward index 0: the canonical "up" move.
    /// If anything shifted, a fresh tile is spawned and the move is counted;
    /// otherwise the whole state is left untouched.
    pub fn up(&mut self)
        requires
            old(self).wf(),
            old(self).headroom(),
        ensures
            final(self).wf(),
            final(self).mode == old(self).mode,
            final(self).time == old(self).time,
            !move_enabled(0, old(self).board@) ==> final(self).board@ == old(self).board@
                && final(self).score == old(self).score && final(self).moves == old(self).moves,
            move_enabled(0, old(self).board@) ==> final(self).score == sat_add(
                old(self).score,
                move_delta(0, old(self).board@),
            ) && final(self).moves == bump(old(self).moves) && spawned_from(
                move_board(0, old(self).board@),
                final(self).board@,
            ),
            move_enabled(0, old(self).board@) && old(self).score + move_delta(
                0,
                old(self).board@,
            ) <= u32::MAX ==> final(self).score == old(self).score + move_delta(
                0,
                old(self).board@,
            ),
    {
        let shifted = self.pass_all_lines();
        if shifted {
            let sp = self.summon();
            proof {
                assert(sp);
            }
            if self.moves < u32::MAX {
                self.moves = self.moves + 1;
            }
        }
    }

    /// Slides and merges every line toward index 3: the "down" move, the
    /// canonical pass between two vertical mirrors.
    pub fn down(&mut self)
        requires
            old(self).wf(),
            old(self).headroom(),
        ensures
            final(self).wf(),
            final(self).mode == old(self).mode,
            final(self).time == old(self).time,
            !move_enabled(2, old(self).board@) ==> final(self).board@ == old(self).board@
                && final(self).score == old(self).score && final(self).moves == old(self).moves,
            move_enabled(2, old(self).board@) ==> final(self).score == sat_add(
                old(self).score,
                move_delta(2, old(self).board@),
            ) && final(self).moves == bump(old(self).moves) && spawned_from(
                move_board(2, old(self).board@),
                final(self).board@,
            ),
            move_enabled(2, old(self).board@) && old(self).score + move_delta(
                2,
                old(self).board@,
            ) <= u32::MAX ==> final(self).score == old(self).score + move_delta(
                2,
                old(self).board@,
            ),
    {
        let ghost b0 = old(self).board@;
        proof {
            lemma_flip_aggregates(b0);
        }
        self.vert_flip();
        let shifted = self.pass_all_lines();
        proof {
            lemma_flip_aggregates(pass_board(vflip_spec(b0)));
        }
        self.vert_flip();
        if shifted {
            let sp = self.summon();
            proof {
                assert(sp);
            }
            if self.moves < u32::MAX {
                self.moves = self.moves + 1;
            }
        } else {
            proof {
                lemma_pass_board_props(vflip_spec(b0));
                lemma_vflip_involution(b0);
            }
        }
    }

    /// Slides and merges every column toward its head: the "left" move, the
    /// canonical pass between two diagonal transposes.
    pub fn left(&mut self)
        requires
            old(self).wf(),
            old(self).headroom(),
        ensures
            final(self).wf(),
            final(self).mode == old(self).mode,
            final(self).time == old(self).time,
            !move_enabled(3, old(self).board@) ==> final(self).board@ == old(self).board@
                && final(self).score == old(self).score && final(self).moves == old(self).moves,
            move_enabled(3, old(self).board@) ==> final(self).score == sat_add(
                old(self).score,
                move_delta(3, old(self).board@),
            ) && final(self).moves == bump(old(self).moves) && spawned_from(
                move_board(3, old(self).board@),
                final(self).board@,
            ),
            move_enabled(3, old(self).board@) && old(self).score + move_delta(
                3,
                old(self).board@,
            ) <= u32::MAX ==> final(self).score == old(self).score + move_delta(
                3,
                old(self).board@,
            ),
    {
        let ghost b0 = old(self).board@;
        proof {
            lemma_flip_aggregates(b0);
        }
        self.diag_flip();
        let shifted = self.pass_all_lines();
        proof {
            lemma_flip_aggregates(pass_board(dflip_spec(b0)));
        }
        self.diag_flip();
        if shifted {
            let sp = self.summon();
            proof {
                assert(sp);
            }
            if self.moves < u32::MAX {
                self.moves = self.moves + 1;
            }
        } else {
            proof {
                lemma_pass_board_props(dflip_spec(b0));
                lemma_dflip_involution(b0);
            }
        }
    }

    /// Slides and merges every column toward its tail: the "right" move, the
    /// canonical pass inside a diagonal transpose and a vertical mirror.
    pub fn right(&mut self)
        requires
            old(self).wf(),
            old(self).headroom(),
        ensures
            final(self).wf(),
            final(self).mode == old(self).mode,
            final(self).time == old(self).time,
            !move_enabled(1, old(self).board@) ==> final(self).board@ == old(self).board@
                && final(self).score == old(self).score && final(self).moves == old(self).moves,
            move_enabled(1, old(self).board@) ==> final(self).score == sat_add(
                old(self).score,
                move_delta(1, old(self).board@),
            ) && final(self).moves == bump(old(self).moves) && spawned_from(
                move_board(1, old(self).board@),
                final(self).board@,
            ),
            move_enabled(1, old(self).board@) && old(self).score + move_delta(
                1,
                old(self).board@,
            ) <= u32::MAX ==> final(self).score == old(self).score + move_delta(
                1,
                old(self).board@,
            ),
    {
        let ghost b0 = old(self).board@;
        proof {
            lemma_flip_aggregates(b0);
            lemma_flip_aggregates(dflip_spec(b0));
        }
        self.diag_flip();
        self.vert_flip();
        let shifted = self.pass_all_lines();
        proof {
            lemma_flip_aggregates(pass_board(vflip_spec(dflip_spec(b0))));
            lemma_flip_aggregates(vflip_spec(pass_board(vflip_spec(dflip_spec(b0)))));
        }
        self.vert_flip();
        self.diag_flip();
        if shifted {
            let sp = self.summon();
            proof {
                assert(sp);
            }
            if self.moves < u32::MAX {
                self.moves = self.moves + 1;
            }
        } else {
            proof {
                lemma_pass_board_props(vflip_spec(dflip_spec(b0)));
                lemma_vflip_involution(dflip_spec(b0));
                lemma_dflip_involution(b0);
            }
        }
    }

    /// The "up" move without spawning or counting: used by the reverse
    /// variant's automatic play.
    pub fn auto_up(&mut self)
        requires
            old(self).wf(),
        ensures
            final(self).wf(),
            final(self).board@ == move_board(0, old(self).board@),
            final(self).score == sat_add(old(self).score, move_delta(0, old(self).board@)),
            final(self).moves == old(self).moves,
            final(self).time == old(self).time,
            final(self).mode == old(self).mode,
            board_value(final(self).board@) == board_value(old(self).board@),
    {
        let _shifted = self.pass_all_lines();
    }

    /// The "down" move without spawning or counting.
    pub fn auto_down(&mut self)
        requires
            old(self).wf(),
        ensures
            final(self).wf(),
            final(self).board@ == move_board(2, old(self).board@),
            final(self).score == sat_add(old(self).score, move_delta(2, old(self).board@)),
            final(self).moves == old(self).moves,
            final(self).time == old(self).time,
            final(self).mode == old(self).mode,
            board_value(final(self).board@) == board_value(old(self).board@),
    {
        let ghost b0 = old(self).board@;
        proof {
            lemma_flip_aggregates(b0);
        }
        self.vert_flip();
        let _shifted = self.pass_all_lines();
        proof {
            lemma_flip_aggregates(pass_board(vflip_spec(b0)));
        }
        self.vert_flip();
    }

    /// The "left" move without spawning or counting.
    pub fn auto_left(&mut self)
        requires
            old(self).wf(),
        ensures
            final(self).wf(),
            final(self).board@ == move_board(3, old(self).board@),
            final(self).score == sat_add(old(self).score, move_delta(3, old(self).board@)),
            final(self).moves == old(self).moves,
            final(self).time == old(self).time,
            final(self).mode == old(self).mode,
            board_value(final(self).board@) == board_value(old(self).board@),
    {
        let ghost b0 = old(self).board@;
        proof {
            lemma_flip_aggregates(b0);
        }
        self.diag_flip();
        let _shifted = self.pass_all_lines();
        proof {
            lemma_flip_aggregates(pass_board(dflip_spec(b0)));
        }
        self.diag_flip();
    }

    /// The "right" move without spawning or counting.
    pub fn auto_right(&mut self)
        requires
            old(self).wf(),
        ensures
            final(self).wf(),
            final(self).board@ == move_board(1, old(self).board@),
            final(self).score == sat_add(old(self).score, move_delta(1, old(self).board@)),
            final(self).moves == old(self).moves,
            final(self).time == old(self).time,
            final(self).mode == old(self).mode,
            board_value(final(self).board@) == board_value(old(self).board@),
    {
        let ghost b0 = old(self).board@;
        proof {
            lemma_flip_aggregates(b0);
            lemma_flip_aggregates(dflip_spec(b0));
        }
        self.diag_flip();
        self.vert_flip();
        let _shifted = self.pass_all_lines();
        proof {
            lemma_flip_aggregates(pass_board(vflip_spec(dflip_spec(b0))));
            lemma_flip_aggregates(vflip_spec(pass_board(vflip_spec(dflip_spec(b0)))));
        }
        self.vert_flip();
        self.diag_flip();
    }
}

/// The accumulated pass score of the first `k` lines.
pub open spec fn delta_upto(b: Seq<Piece>, k: int) -> nat
    decreases k,
{
    if k <= 0 {
        0
    } else {
        delta_upto(b, k - 1) + compress_line(line_of(b, k - 1)).1
    }
}

/// The board with a rank-1 tile put on cell `(x, y)`.
pub open spec fn upgraded(b: Seq<Piece>, x: int, y: int) -> Seq<Piece> {
    b.update(4 * x + y, pc(1, x, y))
}

/// A cell-by-cell copy of the board.
fn copy_board(b: &Vec<Piece>) -> (r: Vec<Piece>)
    ensures
        r@ == b@,
{
    let mut r: Vec<Piece> = Vec::new();
    let mut i: usize = 0;
    while i < b.len()
        invariant
            i <= b@.len(),
            r@.len() == i,
            forall|j: int| 0 <= j < i ==> r@[j] == b@[j],
        decreases b@.len() - i,
    {
        r.push(b[i]);
        i = i + 1;
    }
    proof {
        assert(r@ =~= b@);
    }
    r
}

/// Whether two boards hold the same pieces, coordinates included.
fn boards_equal(a: &Vec<Piece>, b: &Vec<Piece>) -> (r: bool)
    requires
        a@.len() == 16,
        b@.len() == 16,
    ensures
        r == (a@ == b@),
{
    let mut i: usize = 0;
    while i < 16
        invariant
            i <= 16,
            a@.len() == 16,
            b@.len() == 16,
            forall|j: int| 0 <= j < i ==> a@[j] == b@[j],
        decreases 16 - i,
    {
        let pa = a[i];
        let pb = b[i];
        if pa.scale != pb.scale || pa.x != pb.x || pa.y != pb.y {
            proof {
                assert(a@[i as int] != b@[i as int]);
            }
            return false;
        }
        i = i + 1;
    }
    proof {
        assert(a@ =~= b@);
    }
    true
}

impl Game {
    /// A fresh game in the given mode: empty board, zeroed counters and
    /// clock, then one seeded tile of rank 1 or 2.
    fn new_game(mode: Mode) -> (g: Game)
        ensures
            g.wf(),
            g.headroom(),
            g.mode == mode,
            g.score == 0,
            g.moves == 0,
            g.time.is_zero(),
            board_occupied(g.board@) == 1,
            holds_seed(g.board@),
    {
        let mut board: Vec<Piece> = Vec::new();
        let mut i: usize = 0;
        while i < 16
            invariant
                i <= 16,
                board@.len() == i,
                forall|j: int|
                    0 <= j < i ==> (#[trigger] board@[j]).scale == 0 && board@[j].x as int == j / 4
                        && board@[j].y as int == j % 4,
            decreases 16 - i,
        {
            board.push(Piece { scale: 0, x: (i / 4) as u8, y: (i % 4) as u8 });
            i = i + 1;
        }
        let mut g = Game {
            mode,
            board,
            score: 0,
            moves: 0,
            time: Time { hours: 0, minutes: 0, seconds: 0 },
        };
        proof {
            assert(board_geom(g.board@));
            assert(board_value(g.board@) == 0);
            assert(board_occupied(g.board@) == 0);
        }
        let ghost empty_board = g.board@;
        let sp = g.summon();
        proof {
            assert(sp);
            let i = choose|i: int|
                0 <= i < 16 && empty_board[i].scale == 0 && (g.board@ == empty_board.update(
                    i,
                    pc(1, i / 4, i % 4),
                ) || g.board@ == empty_board.update(i, pc(2, i / 4, i % 4)));
            assert(g.board@[i].scale == 1 || g.board@[i].scale == 2);
            assert(holds_seed(g.board@));
        }
        g
    }

    /// A fresh game in the reverse variant.
    pub fn reverse_default() -> (g: Game)
        ensures
            g.wf(),
            g.headroom(),
            g.mode == Mode::Reverse,
            g.score == 0,
            g.moves == 0,
            g.time.is_zero(),
            board_occupied(g.board@) == 1,
            holds_seed(g.board@),
    {
        Game::new_game(Mode::Reverse)
    }

    /// Switches between normal play and the reverse variant, starting a
    /// freshly seeded game in the new mode.
    pub fn switch_mode(&mut self)
        ensures
            final(self).wf(),
            final(self).headroom(),
            old(self).mode == Mode::Normal ==> final(self).mode == Mode::Reverse,
            old(self).mode == Mode::Reverse ==> final(self).mode == Mode::Normal,
            final(self).score == 0,
            final(self).moves == 0,
            final(self).time.is_zero(),
            board_occupied(final(self).board@) == 1,
            holds_seed(final(self).board@),
    {
        match self.mode {
            Mode::Normal => {
                *self = Game::new_game(Mode::Reverse);
            },
            Mode::Reverse => {
                *self = Game::new_game(Mode::Normal);
            },
        }
    }

    /// Returns to a freshly seeded normal game: score, move counter and
    /// clock reset to zero, and exactly one seeded tile.
    pub fn restart(&mut self)
        ensures
            final(self).wf(),
            final(self).headroom(),
            final(self).mode == Mode::Normal,
            final(self).score == 0,
            final(self).moves == 0,
            final(self).time.is_zero(),
            board_occupied(final(self).board@) == 1,
            holds_seed(final(self).board@),
    {
        let g = Game::new_game(Mode::Normal);
        self.board = g.board;
        self.score = g.score;
        self.moves = g.moves;
        self.time = g.time;
        self.mode = g.mode;
    }

    /// One automatic move in direction `d`, reporting whether it changed the
    /// board.
    fn try_auto(&mut self, d: u32) -> (changed: bool)
        requires
            old(self).wf(),
            d < 4,
        ensures
            final(self).wf(),
            final(self).board@ == move_board(d as int, old(self).board@),
            final(self).score == sat_add(old(self).score, move_delta(d as int, old(self).board@)),
            final(self).moves == old(self).moves,
            final(self).time == old(self).time,
            final(self).mode == old(self).mode,
            board_value(final(self).board@) == board_value(old(self).board@),
            changed == (final(self).board@ != old(self).board@),
            !changed ==> final(self).score == old(self).score && move_board(
                d as int,
                old(self).board@,
            ) == old(self).board@,
    {
        let snapshot = copy_board(&self.board);
        if d == 0 {
            self.auto_up();
        } else if d == 1 {
            self.auto_right();
        } else if d == 2 {
            self.auto_down();
        } else {
            self.auto_left();
        }
        let changed = !boards_equal(&self.board, &snapshot);
        if !changed {
            proof {
                lemma_move_identity_delta(d as int, old(self).board@);
            }
        }
        changed
    }

    /// One automatic move in a random direction.  Directions are tried from
    /// a random start until one changes the board; when no direction can
    /// change it, the state is left as it was.
    pub fn move_random(&mut self)
        requires
            old(self).wf(),
        ensures
            final(self).wf(),
            final(self).moves == old(self).moves,
            final(self).time == old(self).time,
            final(self).mode == old(self).mode,
            board_value(final(self).board@) == board_value(old(self).board@),
            exists|d: int|
                0 <= d < 4 && final(self).board@ == move_board(d, old(self).board@)
                    && final(self).score == sat_add(
                    old(self).score,
                    move_delta(d, old(self).board@),
                ),
            final(self).board@ != old(self).board@ || forall|d: int|
                0 <= d < 4 ==> move_board(d, old(self).board@) == old(self).board@,
    {
        let start = rand_below(4);
        let mut k: u32 = 0;
        while k < 4
            invariant
                k <= 4,
                start < 4,
                old(self).wf(),
                self.wf(),
                self.board@ == old(self).board@,
                self.score == old(self).score,
                self.moves == old(self).moves,
                self.time == old(self).time,
                self.mode == old(self).mode,
                forall|j: int|
                    0 <= j < k ==> #[trigger] move_board((start as int + j) % 4, old(self).board@)
                        == old(self).board@,
            decreases 4 - k,
        {
            let d = (start + k) % 4;
            proof {
                assert(d as int == (start as int + k as int) % 4);
            }
            let changed = self.try_auto(d);
            if changed {
                return ;
            }
            k = k + 1;
        }
        proof {
            let b = old(self).board@;
            let s = start as int;
            assert(move_board((s + 0) % 4, b) == b);
            assert(move_board((s + 1) % 4, b) == b);
            assert(move_board((s + 2) % 4, b) == b);
            assert(move_board((s + 3) % 4, b) == b);
            if s == 0 {
                assert((s + 0) % 4 == 0 && (s + 1) % 4 == 1 && (s + 2) % 4 == 2 && (s + 3) % 4
                    == 3);
            } else if s == 1 {
                assert((s + 0) % 4 == 1 && (s + 1) % 4 == 2 && (s + 2) % 4 == 3 && (s + 3) % 4
                    == 0);
            } else if s == 2 {
                assert((s + 0) % 4 == 2 && (s + 1) % 4 == 3 && (s + 2) % 4 == 0 && (s + 3) % 4
                    == 1);
            } else {
                assert((s + 0) % 4 == 3 && (s + 1) % 4 == 0 && (s + 2) % 4 == 1 && (s + 3) % 4
                    == 2);
            }
            assert(forall|d2: int| 0 <= d2 < 4 ==> move_board(d2, b) == b);
            lemma_move_identity_delta(0, b);
            assert(self.board@ == move_board(0, b) && self.score == sat_add(
                old(self).score,
                move_delta(0, b),
            ));
        }
    }

    /// In the reverse variant: puts a rank-1 tile on the chosen empty cell,
    /// then lets the engine make one automatic move.  An occupied target or
    /// an out-of-range coordinate is rejected and leaves the state untouched.
    pub fn upgrade(&mut self, piece: &Piece) -> (r: Result<(), UpgradeError>)
        requires
            old(self).wf(),
            old(self).headroom(),
        ensures
            final(self).wf(),
            final(self).moves == old(self).moves,
            final(self).time == old(self).time,
            final(self).mode == old(self).mode,
            piece.x >= 4 || piece.y >= 4 ==> r == Err::<(), UpgradeError>(
                UpgradeError::OutOfBounds,
            ) && final(self).board@ == old(self).board@ && final(self).score == old(self).score,
            piece.x < 4 && piece.y < 4 && old(self).board@[4 * piece.x as int
                + piece.y as int].scale != 0 ==> r == Err::<(), UpgradeError>(
                UpgradeError::Occupied,
            ) && final(self).board@ == old(self).board@ && final(self).score == old(self).score,
            piece.x < 4 && piece.y < 4 && old(self).board@[4 * piece.x as int
                + piece.y as int].scale == 0 ==> r == Ok::<(), UpgradeError>(()) && exists|d: int|
                0 <= d < 4 && final(self).board@ == move_board(
                    d,
                    upgraded(old(self).board@, piece.x as int, piece.y as int),
                ) && final(self).score == sat_add(
                    old(self).score,
                    move_delta(d, upgraded(old(self).board@, piece.x as int, piece.y as int)),
                ),
    {
        if piece.x >= 4 || piece.y >= 4 {
            return Err(UpgradeError::OutOfBounds);
        }
        let idx = 4 * (piece.x as usize) + (piece.y as usize);
        if self.board[idx].scale != 0 {
            return Err(UpgradeError::Occupied);
        }
        let ghost b0 = self.board@;
        self.board.set(idx, Piece { scale: 1, x: piece.x, y: piece.y });
        proof {
            let xi = piece.x as int;
            let yi = piece.y as int;
            assert(idx as int == 4 * xi + yi);
            assert((4 * xi + yi) / 4 == xi && (4 * xi + yi) % 4 == yi);
            assert(Piece { scale: 1u8, x: piece.x, y: piece.y } == pc(1, xi, yi));
            crate::board::lemma_spawn_update(b0, idx as int, 1);
            vstd::arithmetic::power2::lemma2_to64();
            assert(self.board@ == upgraded(b0, xi, yi));
        }
        self.move_random();
        Ok(())
    }

    /// The piece at cell `(x, y)`.
    pub fn piece_at(&self, x: u8, y: u8) -> (p: Piece)
        requires
            x < 4,
            y < 4,
            self.board@.len() == 16,
        ensures
            p == self.board@[4 * x as int + y as int],
    {
        self.board[4 * (x as usize) + (y as usize)]
    }
}

impl Default for Game {
    /// A fresh normal-mode game with one seeded tile.
    fn default() -> (g: Game)
        ensures
            g.wf(),
            g.headroom(),
            g.mode == Mode::Normal,
            g.score == 0,
            g.moves == 0,
            g.time.is_zero(),
            board_occupied(g.board@) == 1,
            holds_seed(g.board@),
    {
        Game::new_game(Mode::Normal)
    }
}

} // verus!
