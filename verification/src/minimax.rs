use vstd::prelude::*;
use crate::attack::in_check;
use crate::chess_board::Position;
use crate::chess_color::ChessColor;
use crate::chess_move::{do_move_outcome, ChessMove};
use crate::chess_scoring::{lemma_score_bounds, score};
use crate::move_laws::lemma_valid_move_fits;

verus! {

/// The score of a position that White has won, in hundredths of a pawn.
pub const WHITE_WIN_SCORE: i64 = 999_999_900;

/// The score of a position that Black has won.
pub const BLACK_WIN_SCORE: i64 = -999_999_900;

/// Whether the first score is strictly better than the second for the side
/// that chooses: White wants a high score, Black a low one.
pub open spec fn better(white: bool, x: int, y: int) -> bool {
    if white {
        x > y
    } else {
        x < y
    }
}

/// The score that the choosing side likes least.
pub open spec fn worst(white: bool) -> int {
    if white {
        BLACK_WIN_SCORE as int
    } else {
        WHITE_WIN_SCORE as int
    }
}

/// The best for the choosing side among the first `n` values and the score
/// it likes least.
pub open spec fn prefix_best(values: Seq<int>, white: bool, n: nat) -> int
    decreases n,
{
    if n == 0 {
        worst(white)
    } else {
        let before = prefix_best(values, white, (n - 1) as nat);
        if better(white, values[n - 1], before) {
            values[n - 1]
        } else {
            before
        }
    }
}

/// The score of a position in which the side to move has no legal move:
/// lost for that side if its king is attacked, and even if not.
pub open spec fn terminal_score(p: Position) -> int {
    if in_check(p.grid, p.player) {
        worst(p.player == ChessColor::White)
    } else {
        0
    }
}

/// The value of a position when both sides look `depth` moves ahead and
/// each picks what is best for it. With nothing left to look ahead, it is
/// the score of the position; with no legal move, the score of a game that
/// has ended; else the best, for the side to move, of the values of the
/// positions its legal moves lead to.
pub open spec fn minimax(p: Position, depth: int) -> int
    decreases depth, 0int,
{
    if depth <= 0 {
        score(p)
    } else if p.valid_moves().len() == 0 {
        terminal_score(p)
    } else {
        prefix_best(
            child_values(p, depth - 1),
            p.player == ChessColor::White,
            p.valid_moves().len(),
        )
    }
}

/// The values, at the given depth, of the positions that the legal moves
/// lead to, in the order of the moves.
pub open spec fn child_values(p: Position, depth: int) -> Seq<int>
    decreases depth, 1int,
{
    Seq::new(
        p.valid_moves().len(),
        |i: int|
            if depth >= 0 {
                minimax(p.after(p.valid_moves()[i]), depth)
            } else {
                0
            },
    )
}

/// How far the search of a node's children has come: the bounds of the
/// window as they now stand, the best score found, and whether the search
/// has been cut short.
pub struct SearchState {
    pub alpha: int,
    pub beta: int,
    pub score: int,
    pub cut: bool,
}

/// The state in which the search of the children starts: the window as it
/// was given, and the score that the choosing side likes least.
pub open spec fn search_start(white: bool, alpha: int, beta: int) -> SearchState {
    SearchState { alpha, beta, score: worst(white), cut: false }
}

/// The state after one more child has given the score `r`: the better of
/// the two scores is kept, the bound of the choosing side moves up to it,
/// and the search is cut short once the lower bound has passed the upper.
pub open spec fn search_step(white: bool, s: SearchState, r: int) -> SearchState {
    if white {
        let score = if r > s.score {
            r
        } else {
            s.score
        };
        let alpha = if score > s.alpha {
            score
        } else {
            s.alpha
        };
        SearchState { alpha, beta: s.beta, score, cut: alpha > s.beta }
    } else {
        let score = if r < s.score {
            r
        } else {
            s.score
        };
        let beta = if score < s.beta {
            score
        } else {
            s.beta
        };
        SearchState { alpha: s.alpha, beta, score, cut: beta < s.alpha }
    }
}

/// The state of the pruned search of a position once the first `i`
/// children have had their turn, the children taken in the order of the
/// legal moves and each searched with the window as it stands when its turn
/// comes. After a cut the state stays as it is.
pub open spec fn state_at(p: Position, depth: int, alpha: int, beta: int, i: nat) -> SearchState
    decreases depth, i,
{
    let white = p.player == ChessColor::White;
    if i == 0 || depth <= 0 {
        search_start(white, alpha, beta)
    } else {
        let s = state_at(p, depth, alpha, beta, (i - 1) as nat);
        if s.cut || i > p.valid_moves().len() {
            s
        } else {
            search_step(
                white,
                s,
                pruned(p.after(p.valid_moves()[i - 1]), depth - 1, s.alpha, s.beta),
            )
        }
    }
}

/// The value that the pruned search gives a position for a window: the
/// score of the position with nothing left to look ahead, the score of a
/// game that has ended with no legal move, and else the best score found
/// among the children when the search ends or is cut short.
pub open spec fn pruned(p: Position, depth: int, alpha: int, beta: int) -> int
    decreases depth, p.valid_moves().len() + 1,
{
    if depth <= 0 {
        score(p)
    } else if p.valid_moves().len() == 0 {
        terminal_score(p)
    } else {
        state_at(p, depth, alpha, beta, p.valid_moves().len()).score
    }
}

/// The score that the pruned search leaves in child number `j`: what the
/// search of that child gives with the window as it stands at its turn, or
/// the score the child had before if its turn never comes.
pub open spec fn child_score_after(
    p: Position,
    depth: int,
    alpha: int,
    beta: int,
    j: int,
    before: int,
) -> int {
    if depth <= 0 || j < 0 || j >= p.valid_moves().len() || state_at(
        p,
        depth,
        alpha,
        beta,
        j as nat,
    ).cut {
        before
    } else {
        pruned(
            p.after(p.valid_moves()[j]),
            depth - 1,
            state_at(p, depth, alpha, beta, j as nat).alpha,
            state_at(p, depth, alpha, beta, j as nat).beta,
        )
    }
}

/// Once the search is cut short, its state stays as it is.
pub proof fn lemma_state_frozen(p: Position, depth: int, alpha: int, beta: int, i: nat, m: nat)
    requires
        i <= m,
        state_at(p, depth, alpha, beta, i).cut,
    ensures
        state_at(p, depth, alpha, beta, m) == state_at(p, depth, alpha, beta, i),
    decreases m,
{
    if i < m {
        lemma_state_frozen(p, depth, alpha, beta, i, (m - 1) as nat);
    }
}

/// Whether the score at index `k` is the first best one: none is better
/// for the choosing side, and those before it are worse. This is the score
/// that comes first when the scores are sorted, best first, without
/// changing the order of equal ones.
pub open spec fn is_first_best(scores: Seq<int>, white: bool, k: int) -> bool {
    &&& 0 <= k < scores.len()
    &&& forall|j: int| 0 <= j < scores.len() ==> !better(white, #[trigger] scores[j], scores[k])
    &&& forall|j: int| 0 <= j < k ==> better(white, scores[k], #[trigger] scores[j])
}

/// What alpha-beta promises of the value `r` it returns for a position of
/// true value `v`: inside the window from `alpha` to `beta` it is the true
/// value, and outside it lies on the same side of the window as the true
/// value, no farther than it.
pub open spec fn within_window(v: int, r: int, alpha: int, beta: int) -> bool {
    &&& alpha <= v <= beta ==> r == v
    &&& v < alpha ==> v <= r < alpha
    &&& v > beta ==> beta < r <= v
}

/// The best among the first values is no worse than any of them, is one of
/// them or the worst score, and gets no worse as more values are looked
/// at.
pub proof fn lemma_prefix_best(values: Seq<int>, white: bool, n: nat, m: nat)
    requires
        n <= m <= values.len(),
    ensures
        forall|j: int| 0 <= j < n ==> !better(white, #[trigger] values[j], prefix_best(values, white, n)),
        !better(white, worst(white), prefix_best(values, white, n)),
        !better(white, prefix_best(values, white, n), prefix_best(values, white, m)),
        prefix_best(values, white, n) == worst(white) || exists|j: int|
            0 <= j < n && #[trigger] values[j] == prefix_best(values, white, n),
    decreases m,
{
    if n > 0 {
        lemma_prefix_best(values, white, (n - 1) as nat, (n - 1) as nat);
        let before = prefix_best(values, white, (n - 1) as nat);
        let now = prefix_best(values, white, n);
        if now != worst(white) {
            if better(white, values[n - 1], before) {
                assert(values[n - 1] == now);
            } else {
                let j = choose|j: int| 0 <= j < n - 1 && #[trigger] values[j] == before;
                assert(values[j] == now);
            }
        }
    }
    if n < m {
        lemma_prefix_best(values, white, n, (m - 1) as nat);
    }
}

/// The position after a legal move has a board of eight rows of eight
/// squares.
pub proof fn lemma_after_wf(p: Position, m: ChessMove)
    requires
        p.wf(),
        p.valid_moves().contains(m),
    ensures
        p.after(m).wf(),
{
    lemma_valid_move_fits(p, m);
    assert(do_move_outcome(p.grid, m) is Ok);
}

/// No value is beyond the scores of a won game: a value lies between the
/// score of Black's win and the score of White's win.
pub proof fn lemma_minimax_bounds(p: Position, depth: int)
    requires
        p.wf(),
    ensures
        BLACK_WIN_SCORE <= minimax(p, depth) <= WHITE_WIN_SCORE,
    decreases depth,
{
    if depth <= 0 {
        lemma_score_bounds(p);
    } else if p.valid_moves().len() == 0 {
    } else {
        let values = child_values(p, depth - 1);
        let white = p.player == ChessColor::White;
        let n = p.valid_moves().len();
        lemma_prefix_best(values, white, n, n);
        let best = prefix_best(values, white, n);
        if best != worst(white) {
            let j = choose|j: int| 0 <= j < n && #[trigger] values[j] == best;
            assert(p.valid_moves().contains(p.valid_moves()[j]));
            lemma_after_wf(p, p.valid_moves()[j]);
            lemma_minimax_bounds(p.after(p.valid_moves()[j]), depth - 1);
        }
    }
}

/// Scores that agree with the true values where it matters have the same
/// first best index: if a score equals the best value exactly where the
/// true value does, and is worse than it elsewhere, then the first best
/// score stands where the first best value stands.
pub proof fn lemma_first_best_transfer(stored: Seq<int>, values: Seq<int>, white: bool, k: int)
    requires
        stored.len() == values.len(),
        values.len() > 0,
        forall|j: int| 0 <= j < values.len() ==> !better(white, worst(white), #[trigger] values[j]),
        forall|j: int|
            0 <= j < values.len() ==> {
                let best = prefix_best(values, white, values.len());
                if #[trigger] values[j] == best {
                    stored[j] == best
                } else {
                    better(white, best, stored[j])
                }
            },
    ensures
        is_first_best(stored, white, k) <==> is_first_best(values, white, k),
{
    let n = values.len();
    let best = prefix_best(values, white, n);
    lemma_prefix_best(values, white, n, n);
    if best == worst(white) {
        assert(!better(white, worst(white), values[0]));
        assert(!better(white, values[0], best));
        assert(values[0] == best);
    }
    let w = choose|j: int| 0 <= j < n && #[trigger] values[j] == best;
    assert(stored[w] == best);
    if is_first_best(stored, white, k) {
        assert(!better(white, stored[w], stored[k]));
        assert(values[k] == best);
        assert forall|j: int| 0 <= j < k implies better(white, values[k], #[trigger] values[j]) by {
            assert(better(white, stored[k], stored[j]));
        }
    }
    if is_first_best(values, white, k) {
        assert(!better(white, values[w], values[k]));
        assert(values[k] == best);
        assert forall|j: int| 0 <= j < n implies !better(white, #[trigger] stored[j], stored[k]) by {
            assert(!better(white, values[j], best));
        }
        assert forall|j: int| 0 <= j < k implies better(white, stored[k], #[trigger] stored[j]) by {
            assert(better(white, values[k], values[j]));
        }
    }
}

/// The index of the first best score.
pub open spec fn best_index(scores: Seq<int>, white: bool) -> int {
    choose|k: int| is_first_best(scores, white, k)
}

/// Scores have no more than one first best index.
pub proof fn lemma_first_best_unique(scores: Seq<int>, white: bool, k1: int, k2: int)
    requires
        is_first_best(scores, white, k1),
        is_first_best(scores, white, k2),
    ensures
        k1 == k2,
{
    if k1 < k2 {
        assert(better(white, scores[k2], scores[k1]));
        assert(!better(white, scores[k2], scores[k1]));
    } else if k2 < k1 {
        assert(better(white, scores[k1], scores[k2]));
        assert(!better(white, scores[k1], scores[k2]));
    }
}

/// Scores, if there are any, have a first best index.
pub proof fn lemma_first_best_exists(scores: Seq<int>, white: bool)
    requires
        scores.len() > 0,
    ensures
        is_first_best(scores, white, best_index(scores, white)),
    decreases scores.len(),
{
    let n = scores.len();
    if n == 1 {
        assert(is_first_best(scores, white, 0));
    } else {
        let before = scores.drop_last();
        lemma_first_best_exists(before, white);
        let k = best_index(before, white);
        assert forall|j: int| 0 <= j < n - 1 implies #[trigger] scores[j] == before[j] by {}
        if better(white, scores[n - 1], scores[k]) {
            assert forall|j: int| 0 <= j < n - 1 implies better(
                white,
                scores[n - 1],
                #[trigger] scores[j],
            ) by {
                assert(!better(white, before[j], before[k]));
            }
            assert(is_first_best(scores, white, n - 1));
        } else {
            assert forall|j: int| 0 <= j < n implies !better(
                white,
                #[trigger] scores[j],
                scores[k],
            ) by {
                if j < n - 1 {
                    assert(!better(white, before[j], before[k]));
                }
            }
            assert forall|j: int| 0 <= j < k implies better(
                white,
                scores[k],
                #[trigger] scores[j],
            ) by {
                assert(better(white, before[k], before[j]));
            }
            assert(is_first_best(scores, white, k));
        }
    }
}

/// The move that full minimax picks in a position that has legal moves:
/// the first of the moves that lead to a position of the best value for
/// the side to move, when both sides look `depth` moves ahead.
pub open spec fn minimax_move(p: Position, depth: int) -> ChessMove {
    p.valid_moves()[best_index(child_values(p, depth - 1), p.player == ChessColor::White)]
}

} // verus!
