//! Game-tree search for tic-tac-toe: the game-theoretic value of a
//! position, and a minimax search over it with optional alpha-beta
//! pruning.
//!
//! The pruned and the plain search are proved to return the same value —
//! the game-theoretic one — whenever they are started on the full
//! `Defeat..Victory` window, and the move they select is proved to achieve
//! exactly that value.

use vstd::prelude::*;
use vstd::arithmetic::mul::lemma_mul_inequality;
use crate::rng::shuffle_indices;
use crate::tictactoe::board::{Board, Index, Piece, empty_count, full, line_won};
use crate::tictactoe::board::{lemma_empty_count_bounds, lemma_empty_count_update};

verus! {

/// The outcome of a finished game, from the searching player's side,
/// ordered `Defeat < Draw < Victory`.
#[derive(PartialEq, Eq, Structural, Clone, Copy, Debug)]
pub enum GameResult {
    Defeat,
    Draw,
    Victory,
}

/// The position of an outcome in the `Defeat < Draw < Victory` order.
pub open spec fn rank(r: GameResult) -> int {
    match r {
        GameResult::Defeat => 0,
        GameResult::Draw => 1,
        GameResult::Victory => 2,
    }
}

/// Outcomes with the same rank are the same outcome.
pub proof fn lemma_rank_injective(x: GameResult, y: GameResult)
    ensures
        rank(x) == rank(y) ==> x == y,
{
}

fn rank_u8(r: GameResult) -> (v: u8)
    ensures
        v == rank(r),
{
    match r {
        GameResult::Defeat => 0,
        GameResult::Draw => 1,
        GameResult::Victory => 2,
    }
}

/// `x` is no better than `y` for the side to move: at most as good when
/// maximizing, at least as good when minimizing.
pub open spec fn no_better(maximizing: bool, x: GameResult, y: GameResult) -> bool {
    if maximizing {
        rank(x) <= rank(y)
    } else {
        rank(x) >= rank(y)
    }
}

/// The piece that the current node places: the searcher's own piece when
/// maximizing, the opponent's when minimizing.
pub open spec fn mover(p: Piece, maximizing: bool) -> Piece {
    if maximizing {
        p
    } else {
        p.spec_swap()
    }
}

/// The worst outcome for the side to move, the fold's starting point.
pub open spec fn start_value(maximizing: bool) -> GameResult {
    if maximizing {
        GameResult::Defeat
    } else {
        GameResult::Victory
    }
}

/// The game is over: one side owns a line, or the board is full. Wins are
/// checked before fullness, so a full winning board is a win, not a draw.
pub open spec fn spec_terminal(s: Seq<Piece>, p: Piece) -> bool {
    line_won(s, p) || line_won(s, p.spec_swap()) || full(s)
}

/// The game-theoretic value of the position for `p`, with the maximizing
/// flag saying whose turn it is: `p`'s own when maximizing, the
/// opponent's otherwise.
pub open spec fn game_value(s: Seq<Piece>, p: Piece, maximizing: bool) -> GameResult
    decreases empty_count(s, 9), 10int,
{
    if s.len() != 9 || p is Empty {
        GameResult::Draw
    } else if line_won(s, p) {
        GameResult::Victory
    } else if line_won(s, p.spec_swap()) {
        GameResult::Defeat
    } else if full(s) {
        GameResult::Draw
    } else {
        best_from(s, p, maximizing, 0)
    }
}

/// The best value the side to move can force using only cells `i..9`,
/// or the worst outcome if none of them is free.
pub open spec fn best_from(s: Seq<Piece>, p: Piece, maximizing: bool, i: int) -> GameResult
    decreases empty_count(s, 9), 9 - i,
    via best_from_decreases
{
    if s.len() != 9 || p is Empty || i < 0 || i >= 9 {
        start_value(maximizing)
    } else if s[i] is Empty {
        let child = game_value(s.update(i, mover(p, maximizing)), p, !maximizing);
        let rest = best_from(s, p, maximizing, i + 1);
        if no_better(maximizing, rest, child) {
            child
        } else {
            rest
        }
    } else {
        best_from(s, p, maximizing, i + 1)
    }
}

#[via_fn]
proof fn best_from_decreases(s: Seq<Piece>, p: Piece, maximizing: bool, i: int) {
    lemma_empty_count_bounds(s, 9);
    if s.len() == 9 && !(p is Empty) && 0 <= i < 9 && s[i] is Empty {
        lemma_empty_count_update(s, 9, i, mover(p, maximizing));
        lemma_empty_count_bounds(s.update(i, mover(p, maximizing)), 9);
    }
}

/// The value of the position after the side to move fills cell `i`.
pub open spec fn child_value(s: Seq<Piece>, p: Piece, maximizing: bool, i: int) -> GameResult {
    game_value(s.update(i, mover(p, maximizing)), p, !maximizing)
}

/// A sequence with an empty cell among its first `n` has one at a
/// concrete position.
pub proof fn lemma_nonzero_empty_count_witness(s: Seq<Piece>, n: int)
    requires
        empty_count(s, n) > 0,
    ensures
        exists|i: int| 0 <= i < n && s[i] is Empty,
    decreases n,
{
    if n > 0 {
        if s[n - 1] is Empty {
            assert(0 <= n - 1 < n && s[n - 1] is Empty);
        } else {
            lemma_nonzero_empty_count_witness(s, n - 1);
        }
    }
}

/// What the fold over cells `k..9` computes: no free cell's value beats
/// it, some free cell achieves it, and with no free cell it is the worst
/// outcome.
pub proof fn lemma_best_from_props(s: Seq<Piece>, p: Piece, maximizing: bool, k: int)
    requires
        s.len() == 9,
        p is X || p is O,
        0 <= k <= 9,
    ensures
        forall|i: int|
            k <= i < 9 && s[i] is Empty ==> no_better(
                maximizing,
                #[trigger] child_value(s, p, maximizing, i),
                best_from(s, p, maximizing, k),
            ),
        (exists|i: int| k <= i < 9 && s[i] is Empty) ==> exists|i: int|
            k <= i < 9 && s[i] is Empty && #[trigger] child_value(s, p, maximizing, i)
                == best_from(s, p, maximizing, k),
        !(exists|i: int| k <= i < 9 && s[i] is Empty) ==> best_from(s, p, maximizing, k)
            == start_value(maximizing),
    decreases 9 - k,
{
    if k < 9 {
        lemma_best_from_props(s, p, maximizing, k + 1);
        if s[k] is Empty {
            let child = child_value(s, p, maximizing, k);
            let rest = best_from(s, p, maximizing, k + 1);
            if exists|i: int| k + 1 <= i < 9 && s[i] is Empty {
                let w = choose|i: int|
                    k + 1 <= i < 9 && s[i] is Empty && #[trigger] child_value(s, p, maximizing, i)
                        == rest;
                if no_better(maximizing, rest, child) {
                    assert(child_value(s, p, maximizing, k) == best_from(s, p, maximizing, k));
                } else {
                    assert(child_value(s, p, maximizing, w) == best_from(s, p, maximizing, k));
                }
            } else {
                assert(best_from(s, p, maximizing, k) == child);
                assert(child_value(s, p, maximizing, k) == best_from(s, p, maximizing, k));
            }
        }
    }
}

/// In a live position, the moves open to the side to move are bounded by
/// the position's value, and one of them achieves it.
pub proof fn lemma_game_value_moves(s: Seq<Piece>, p: Piece, maximizing: bool)
    requires
        s.len() == 9,
        p is X || p is O,
        !spec_terminal(s, p),
    ensures
        forall|i: int|
            0 <= i < 9 && s[i] is Empty ==> no_better(
                maximizing,
                #[trigger] child_value(s, p, maximizing, i),
                game_value(s, p, maximizing),
            ),
        exists|i: int|
            0 <= i < 9 && s[i] is Empty && #[trigger] child_value(s, p, maximizing, i)
                == game_value(s, p, maximizing),
{
    lemma_empty_count_bounds(s, 9);
    lemma_nonzero_empty_count_witness(s, 9);
    lemma_best_from_props(s, p, maximizing, 0);
}

/// The larger-ranked of two outcomes, the first on ties.
pub open spec fn rmax(x: GameResult, y: GameResult) -> GameResult {
    if rank(x) >= rank(y) {
        x
    } else {
        y
    }
}

/// The smaller-ranked of two outcomes, the first on ties.
pub open spec fn rmin(x: GameResult, y: GameResult) -> GameResult {
    if rank(x) <= rank(y) {
        x
    } else {
        y
    }
}

/// A ceiling on the nodes a search can visit from a position with `n`
/// free cells: one for the node itself, and at most nine children.
pub open spec fn spec_max_nodes(n: int) -> int
    decreases n,
{
    if n <= 0 {
        1
    } else {
        1 + 9 * spec_max_nodes(n - 1)
    }
}

pub proof fn lemma_max_nodes_mono(m: int, n: int)
    requires
        m <= n,
    ensures
        1 <= spec_max_nodes(m) <= spec_max_nodes(n),
    decreases n,
{
    if n > 0 {
        if m < n {
            lemma_max_nodes_mono(m, n - 1);
        } else {
            lemma_max_nodes_mono(n - 1, n - 1);
        }
    }
}

/// A move order for the search: nine candidates that cover every cell.
pub open spec fn valid_order(ord: Seq<usize>) -> bool {
    &&& ord.len() == 9
    &&& (forall|j: int| 0 <= j < 9 ==> (#[trigger] ord[j]) < 9)
    &&& (forall|c: usize| c < 9 ==> #[trigger] ord.contains(c))
}

/// One node of the search. Walks the candidate cells in the given order,
/// recursing with the players swapped, and prunes once the window closes
/// when `prune` is set.
///
/// The contract is the fail-soft alpha-beta theorem: a result inside the
/// `alpha..beta` window is exactly the game-theoretic value, a result at
/// or outside either edge bounds it from the matching side, and on the
/// full `Defeat..Victory` window — pruned or not — the result is exactly
/// the value and the reported move achieves it.
#[verifier::loop_isolation(false)]
pub fn minimax_step(
    board: &Board,
    piece: Piece,
    maximizing: bool,
    alpha: GameResult,
    beta: GameResult,
    order: &Vec<Index>,
    prune: bool,
) -> (r: (GameResult, Option<Index>, u64))
    requires
        board.wf(),
        piece is X || piece is O,
        valid_order(order@),
        rank(alpha) < rank(beta),
        !prune ==> alpha is Defeat && beta is Victory,
    ensures
        rank(r.0) <= rank(alpha) ==> rank(game_value(board@, piece, maximizing)) <= rank(r.0),
        rank(r.0) >= rank(beta) ==> rank(game_value(board@, piece, maximizing)) >= rank(r.0),
        rank(alpha) < rank(r.0) < rank(beta) ==> r.0 == game_value(board@, piece, maximizing),
        alpha is Defeat && beta is Victory ==> r.0 == game_value(board@, piece, maximizing),
        alpha is Defeat && beta is Victory && !spec_terminal(board@, piece) ==> (r.1 matches Some(m)
            && m < 9 && board@[m as int] is Empty && child_value(board@, piece, maximizing, m as int)
            == r.0),
        1 <= r.2 <= spec_max_nodes(empty_count(board@, 9)),
    decreases empty_count(board@, 9),
{
    proof {
        board.lemma_wf_len();
        lemma_empty_count_bounds(board@, 9);
        lemma_max_nodes_mono(0, empty_count(board@, 9));
    }
    if board.is_victory_for_player(piece) {
        return (GameResult::Victory, None, 1);
    }
    let opponent = piece.swap();
    if board.is_victory_for_player(opponent) {
        return (GameResult::Defeat, None, 1);
    }
    if board.is_draw() {
        return (GameResult::Draw, None, 1);
    }
    let ghost s = board@;
    let ghost ec = empty_count(s, 9);
    let ghost v = game_value(s, piece, maximizing);
    proof {
        assert(ec >= 1) by {
            lemma_empty_count_bounds(s, 9);
        }
        lemma_max_nodes_mono(ec - 1, 8);
        assert(spec_max_nodes(8) == 48427561) by {
            reveal_with_fuel(spec_max_nodes, 10);
        }
    }
    let mut best = if maximizing {
        GameResult::Defeat
    } else {
        GameResult::Victory
    };
    let mut best_mv: Option<Index> = None;
    let mut nodes: u64 = 1;
    let mut a = alpha;
    let mut b = beta;
    let mut k: usize = 0;
    while k < 9
        invariant
            k <= 9,
            maximizing ==> b == beta,
            !maximizing ==> a == alpha,
            prune && maximizing ==> a == rmax(alpha, best),
            prune && !maximizing ==> b == rmin(beta, best),
            !prune ==> a == alpha && b == beta,
            best_mv is None ==> best == start_value(maximizing),
            best_mv matches Some(m) ==> m < 9 && s[m as int] is Empty,
            (exists|j: int| 0 <= j < k && s[order@[j] as int] is Empty) ==> best_mv is Some,
            best_mv is Some && (if maximizing {
                rank(best) > rank(alpha)
            } else {
                rank(best) < rank(beta)
            }) ==> no_better(
                maximizing,
                best,
                child_value(s, piece, maximizing, best_mv->0 as int),
            ),
            best_mv is Some && alpha is Defeat && beta is Victory ==> child_value(
                s,
                piece,
                maximizing,
                best_mv->0 as int,
            ) == best,
            rank(a) < rank(b),
            forall|j: int|
                0 <= j < k && s[order@[j] as int] is Empty ==> no_better(
                    maximizing,
                    #[trigger] child_value(s, piece, maximizing, order@[j] as int),
                    best,
                ),
            nodes <= 1 + k * spec_max_nodes(ec - 1),
            1 <= nodes,
        decreases 9 - k,
    {
        let index = order[k];
        if board.cell_is_empty(index) {
            let mut nb = board.duplicate();
            nb.place_piece(
                index,
                if maximizing {
                    piece
                } else {
                    opponent
                },
            );
            proof {
                lemma_empty_count_update(s, 9, index as int, mover(piece, maximizing));
                lemma_empty_count_bounds(nb@, 9);
                lemma_max_nodes_mono(empty_count(nb@, 9), ec - 1);
            }
            let stepped = minimax_step(&nb, piece, !maximizing, a, b, order, prune);
            let res = stepped.0;
            let n = stepped.2;
            let ghost cv = child_value(s, piece, maximizing, index as int);
            proof {
                assert(cv == game_value(nb@, piece, !maximizing));
                assert(nodes + n <= 1 + k * spec_max_nodes(ec - 1) + spec_max_nodes(ec - 1));
                lemma_mul_inequality(k as int + 1, 9, spec_max_nodes(ec - 1));
                assert((k as int + 1) * spec_max_nodes(ec - 1) == k as int * spec_max_nodes(ec - 1)
                    + spec_max_nodes(ec - 1)) by (nonlinear_arith);
            }
            nodes = nodes + n;
            let do_update = if best_mv.is_none() {
                true
            } else if maximizing {
                rank_u8(res) > rank_u8(best)
            } else {
                rank_u8(res) < rank_u8(best)
            };
            if do_update {
                best = res;
                best_mv = Some(index);
            }
            if prune {
                if maximizing {
                    if rank_u8(best) > rank_u8(a) {
                        a = best;
                    }
                    if rank_u8(a) >= rank_u8(b) {
                        proof {
                            lemma_game_value_moves(s, piece, maximizing);
                            assert(rank(best) >= rank(beta));
                            assert(no_better(maximizing, best, cv));
                            assert(rank(v) >= rank(best));
                        }
                        break;
                    }
                } else {
                    if rank_u8(best) < rank_u8(b) {
                        b = best;
                    }
                    if rank_u8(b) <= rank_u8(a) {
                        proof {
                            lemma_game_value_moves(s, piece, maximizing);
                            assert(rank(best) <= rank(alpha));
                            assert(no_better(maximizing, best, cv));
                            assert(rank(v) <= rank(best));
                        }
                        break;
                    }
                }
            }
        }
        proof {
            lemma_mul_inequality(k as int, k as int + 1, spec_max_nodes(ec - 1));
        }
        k = k + 1;
    }
    proof {
        lemma_game_value_moves(s, piece, maximizing);
        if k >= 9 {
            let wi = choose|i: int|
                0 <= i < 9 && s[i] is Empty && #[trigger] child_value(s, piece, maximizing, i) == v;
            assert(order@.contains(wi as usize));
            let wj = choose|j: int| 0 <= j < order@.len() && order@[j] == wi as usize;
            assert(s[order@[wj] as int] is Empty);
            assert(no_better(maximizing, child_value(s, piece, maximizing, order@[wj] as int), best));
            assert(no_better(maximizing, v, best));
            if best_mv is Some {
                let m = best_mv->0;
                assert(no_better(maximizing, child_value(s, piece, maximizing, m as int), v));
            } else {
                assert(!(exists|j: int| 0 <= j < 9 && s[order@[j] as int] is Empty));
                assert(false);
            }
        }
        lemma_rank_injective(best, v);
    }
    (best, best_mv, nodes)
}

/// A top-level search: shuffles the candidate order once, then runs
/// `minimax_step` on the full window, so the selected cell is empty and
/// achieves exactly the game-theoretic value of the position — whether or
/// not alpha-beta pruning is switched on.
pub fn minimax_search(board: &Board, piece: Piece, prune: bool) -> (r: (Index, u64))
    requires
        board.wf(),
        piece is X || piece is O,
        !spec_terminal(board@, piece),
    ensures
        r.0 < 9,
        board@[r.0 as int] is Empty,
        child_value(board@, piece, true, r.0 as int) == game_value(board@, piece, true),
        1 <= r.1 <= spec_max_nodes(empty_count(board@, 9)),
{
    let mut order: Vec<usize> = Vec::new();
    let mut i: usize = 0;
    while i < 9
        invariant
            i <= 9,
            order@.len() == i,
            forall|j: int| 0 <= j < i ==> #[trigger] order@[j] == j,
        decreases 9 - i,
    {
        order.push(i);
        i = i + 1;
    }
    let ghost pre = order@;
    proof {
        assert forall|c: usize| c < 9 implies pre.contains(c) by {
            assert(pre[c as int] == c);
        }
    }
    shuffle_indices(&mut order);
    proof {
        broadcast use vstd::seq_lib::group_to_multiset_ensures;

        assert forall|c: usize| c < 9 implies order@.contains(c) by {
            assert(pre.to_multiset().count(c) > 0);
        }
        assert forall|j: int| 0 <= j < 9 implies (#[trigger] order@[j]) < 9 by {
            assert(order@.contains(order@[j]));
            assert(pre.to_multiset().count(order@[j]) > 0);
            assert(pre.contains(order@[j]));
            let w = choose|w: int| 0 <= w < pre.len() && pre[w] == order@[j];
            assert(pre[w] == w);
        }
        assert(valid_order(order@));
    }
    let stepped = minimax_step(
        board,
        piece,
        true,
        GameResult::Defeat,
        GameResult::Victory,
        &order,
        prune,
    );
    (stepped.1.unwrap(), stepped.2)
}

/// The law behind alpha-beta being a pure optimization: two searches that
/// both pick a value-achieving move — as `minimax_search` guarantees with
/// and without pruning — have picked moves of equal game-theoretic value,
/// even when the cells differ.
pub proof fn lemma_search_moves_agree(s: Seq<Piece>, p: Piece, m1: int, m2: int)
    requires
        child_value(s, p, true, m1) == game_value(s, p, true),
        child_value(s, p, true, m2) == game_value(s, p, true),
    ensures
        child_value(s, p, true, m1) == child_value(s, p, true, m2),
{
}

/// The law that optimal play never loses from a sound position: when the
/// position is worth at least a draw to `p` and `p` takes a move that
/// preserves the value — as the searched move does — the opponent holds
/// no winning line, and after any reply the position is still worth at
/// least a draw to `p`.
pub proof fn lemma_optimal_play_never_loses(s: Seq<Piece>, p: Piece, m: int, o: int)
    requires
        s.len() == 9,
        p is X || p is O,
        !spec_terminal(s, p),
        rank(game_value(s, p, true)) >= rank(GameResult::Draw),
        0 <= m < 9,
        s[m] is Empty,
        child_value(s, p, true, m) == game_value(s, p, true),
    ensures
        !line_won(s, p.spec_swap()),
        rank(game_value(s.update(m, p), p, false)) >= rank(GameResult::Draw),
        !line_won(s.update(m, p), p.spec_swap()),
        (!spec_terminal(s.update(m, p), p) && 0 <= o < 9 && s.update(m, p)[o] is Empty) ==> rank(
            game_value(s.update(m, p).update(o, p.spec_swap()), p, true),
        ) >= rank(GameResult::Draw),
{
    let s1 = s.update(m, p);
    assert(game_value(s1, p, false) == child_value(s, p, true, m));
    assert(!line_won(s1, p.spec_swap()));
    if !spec_terminal(s1, p) && 0 <= o < 9 && s1[o] is Empty {
        lemma_game_value_moves(s1, p, false);
        assert(no_better(false, child_value(s1, p, false, o), game_value(s1, p, false)));
        assert(child_value(s1, p, false, o) == game_value(s1.update(o, p.spec_swap()), p, true));
    }
}

} // verus!
