use vstd::prelude::*;
use crate::attack::king_in_check;
use crate::chess_board::ChessBoard;
use crate::chess_color::ChessColor;
use crate::chess_error::ChessError;
use crate::chess_move::ChessMove;
use crate::chess_scoring::{score, score_game_state};
use crate::grid::lemma_grid_of_wf;
use crate::minimax::{
    child_score_after,
    lemma_state_frozen,
    pruned,
    search_step,
    state_at,
    SearchState,
    best_index,
    better,
    child_values,
    is_first_best,
    lemma_first_best_exists,
    lemma_first_best_transfer,
    lemma_first_best_unique,
    lemma_minimax_bounds,
    lemma_prefix_best,
    minimax,
    minimax_move,
    prefix_best,
    terminal_score,
    within_window,
    BLACK_WIN_SCORE,
    WHITE_WIN_SCORE,
};

verus! {

/// A node of the game tree: a position, the nodes of the positions that
/// its legal moves lead to, once they have been made out, and the score
/// that the search gave it.
pub struct ThoughtNode {
    pub game_state: ChessBoard,
    pub children: Vec<ThoughtNode>,
    pub calculated_score: i64,
}

impl ThoughtNode {
    /// The scores of the children, in their order.
    pub open spec fn child_scores(self) -> Seq<int> {
        Seq::new(self.children.len() as nat, |i: int| self.children[i].calculated_score as int)
    }

    /// Whether White is to move in the position of the node.
    pub open spec fn is_white(self) -> bool {
        self.game_state.current_player == ChessColor::White
    }

    /// Whether the children are the positions that the legal moves lead
    /// to, one for each move and in the order of the moves.
    pub open spec fn expanded(self) -> bool {
        &&& self.children.len() == self.game_state@.valid_moves().len()
        &&& forall|i: int|
            0 <= i < self.children.len() ==> (#[trigger] self.children[i]).game_state@
                == self.game_state@.after(self.game_state@.valid_moves()[i])
    }

    /// Whether the node is one that the search can work on: it has no
    /// children yet or those of its legal moves, and so has each node
    /// below it.
    pub open spec fn wf(self) -> bool
        decreases self,
    {
        &&& self.children.len() == 0 || self.expanded()
        &&& forall|i: int| 0 <= i < self.children.len() ==> (#[trigger] self.children[i]).wf()
    }

    /// Whether `after` is the tree that the pruned search leaves of a node
    /// whose children were `before`: it carries the value of the pruned
    /// search; with nothing to look ahead or no legal move its children
    /// are as they were; else it has a child for each legal move, and each
    /// child is the tree that the search of that child leaves, with the
    /// window as it stands at its turn, or is as it was if its turn never
    /// comes. A child that is made out and never searched has no children
    /// and the score zero.
    pub open spec fn traced(
        before: Seq<ThoughtNode>,
        after: ThoughtNode,
        depth: int,
        alpha: int,
        beta: int,
    ) -> bool
        decreases depth,
    {
        let p = after.game_state@;
        &&& after.calculated_score == pruned(p, depth, alpha, beta)
        &&& if depth <= 0 || p.valid_moves().len() == 0 {
            after.children@ == before
        } else {
            &&& after.children.len() == p.valid_moves().len()
            &&& forall|j: int|
                0 <= j < after.children.len() ==> {
                    let s = state_at(p, depth, alpha, beta, j as nat);
                    let child = #[trigger] after.children[j];
                    &&& child.game_state@ == p.after(p.valid_moves()[j])
                    &&& if s.cut {
                        if before.len() == 0 {
                            child.children.len() == 0 && child.calculated_score == 0
                        } else {
                            child == before[j]
                        }
                    } else {
                        Self::traced(
                            if before.len() == 0 {
                                Seq::empty()
                            } else {
                                before[j].children@
                            },
                            child,
                            depth - 1,
                            s.alpha,
                            s.beta,
                        )
                    }
                }
        }
    }

    /// The score that child number `j` has before a search: the score it
    /// carries, or zero if the children are yet to be made out.
    pub open spec fn score_before(self, j: int) -> int {
        if self.children.len() == 0 {
            0
        } else {
            self.children[j].calculated_score as int
        }
    }

    /// What a search of the node leaves: the tree `self`, searched to the
    /// given depth with the given window, has become `after`, and `value`
    /// was returned. The value is that of the pruned search, each child
    /// carries the score that the pruned search leaves in it, and where the
    /// window holds the minimax value of the position, the value is that
    /// value and the first best child is that of full minimax.
    pub open spec fn searched(
        self,
        after: ThoughtNode,
        depth: int,
        alpha: int,
        beta: int,
        value: int,
    ) -> bool {
        let p = self.game_state@;
        &&& after.wf()
        &&& after.game_state == self.game_state
        &&& after.calculated_score == value
        &&& BLACK_WIN_SCORE <= value <= WHITE_WIN_SCORE
        &&& value == pruned(p, depth, alpha, beta)
        &&& Self::traced(self.children@, after, depth, alpha, beta)
        &&& within_window(minimax(p, depth), value, alpha, beta)
        &&& depth > 0 ==> after.children.len() == p.valid_moves().len()
        &&& forall|j: int|
            0 <= j < after.children.len() ==> (#[trigger] after.children[j]).calculated_score
                == child_score_after(p, depth, alpha, beta, j, self.score_before(j))
        &&& depth > 0 && p.valid_moves().len() > 0 && alpha <= minimax(p, depth) <= beta
            ==> forall|k: int|
            is_first_best(after.child_scores(), self.is_white(), k) <==> is_first_best(
                child_values(p, depth - 1),
                self.is_white(),
                k,
            )
    }

    /// Returns a node for a position, with no children yet.
    pub fn new(game_state: ChessBoard) -> (node: ThoughtNode)
        ensures
            node.game_state == game_state,
            node.children.len() == 0,
            node.calculated_score == 0,
            node.wf(),
    {
        ThoughtNode { game_state, children: Vec::new(), calculated_score: 0 }
    }

    /// Makes out the children of a node that has none: one for each legal
    /// move, in the order of the moves.
    fn expand(&mut self, valid_moves: &Vec<ChessMove>)
        requires
            old(self).children.len() == 0,
            valid_moves@ == old(self).game_state@.valid_moves(),
            old(self).game_state.move_number < u32::MAX,
        ensures
            final(self).game_state == old(self).game_state,
            final(self).calculated_score == old(self).calculated_score,
            final(self).expanded(),
            final(self).wf(),
            forall|j: int|
                0 <= j < final(self).children.len() ==> (#[trigger] final(self).children[j]).calculated_score
                    == 0 && final(self).children[j].children.len() == 0,
    {
        let mut i: usize = 0;
        while i < valid_moves.len()
            invariant
                i <= valid_moves.len(),
                self.children.len() == i,
                forall|j: int|
                    0 <= j < i ==> (#[trigger] self.children[j]).calculated_score == 0
                        && self.children[j].children.len() == 0,
                self.game_state == old(self).game_state,
                self.calculated_score == old(self).calculated_score,
                self.game_state.move_number < u32::MAX,
                valid_moves@ == self.game_state@.valid_moves(),
                forall|j: int|
                    0 <= j < i ==> (#[trigger] self.children[j]).game_state@
                        == self.game_state@.after(valid_moves@[j]),
                forall|j: int| 0 <= j < i ==> (#[trigger] self.children[j]).wf(),
            decreases valid_moves.len() - i,
        {
            assert(valid_moves@.contains(valid_moves@[i as int]));
            let next = self.game_state.after_move(&valid_moves[i]);
            self.children.push(ThoughtNode::new(next));
            i = i + 1;
        }
    }
}

/// What the score and the bound of the side that chooses are after the
/// children before number `i` have been searched without a cut: the bound
/// is the better of its first value and the score, and the score is the
/// best value so far if that is no worse than the first bound, and lies
/// between the two if it is.
pub open spec fn running(white: bool, first: int, bound: int, score: int, best: int) -> bool {
    &&& bound == (if better(white, score, first) {
        score
    } else {
        first
    })
    &&& !better(white, first, best) ==> score == best
    &&& better(white, first, best) ==> !better(white, best, score) && better(white, first, score)
}

/// What the score kept for a searched child tells of its true value: it is
/// that value, or lies between it and the bound that stood when the child
/// was searched.
pub open spec fn kept(white: bool, stored: int, value: int, bound: int) -> bool {
    stored == value || (!better(white, value, stored) && better(white, bound, stored))
}

impl ThoughtNode {
    /// Searches the children of a node in which White is to move.
    fn search_as_white(&mut self, depth: i32, alpha: i64, beta: i64) -> (value: i64)
        requires
            depth > 0,
            old(self).wf(),
            old(self).children.len() > 0,
            old(self).is_white(),
            old(self).game_state.move_number + depth <= u32::MAX,
            BLACK_WIN_SCORE <= alpha <= beta <= WHITE_WIN_SCORE,
        ensures
            old(self).searched(*final(self), depth as int, alpha as int, beta as int, value as int),
        decreases depth, 0int,
    {
        let ghost p = self.game_state@;
        let ghost values = child_values(p, depth - 1);
        let n = self.children.len();
        proof {
            assert forall|j: int| 0 <= j < n implies BLACK_WIN_SCORE <= #[trigger] values[j]
                <= WHITE_WIN_SCORE by {
                lemma_grid_of_wf(self.children[j].game_state.squares);
                lemma_minimax_bounds(self.children[j].game_state@, depth - 1);
            }
        }
        let mut score: i64 = BLACK_WIN_SCORE;
        let mut bound: i64 = alpha;
        let mut cut = false;
        let mut i: usize = 0;
        let ghost start = *self;
        while i < n && !cut
            invariant
                depth > 0,
                i <= n,
                start.children.len() == n,
                state_at(p, depth as int, alpha as int, beta as int, i as nat) == (SearchState {
                    alpha: bound as int,
                    beta: beta as int,
                    score: score as int,
                    cut,
                }),
                forall|j: int|
                    0 <= j < i ==> !(#[trigger] state_at(
                        p,
                        depth as int,
                        alpha as int,
                        beta as int,
                        j as nat,
                    )).cut,
                forall|j: int|
                    0 <= j < i ==> (#[trigger] self.children[j]).calculated_score == pruned(
                        p.after(p.valid_moves()[j]),
                        depth - 1,
                        state_at(p, depth as int, alpha as int, beta as int, j as nat).alpha,
                        state_at(p, depth as int, alpha as int, beta as int, j as nat).beta,
                    ),
                forall|j: int| i <= j < n ==> (#[trigger] self.children[j]) == start.children[j],
                forall|j: int|
                    0 <= j < i ==> Self::traced(
                        start.children[j].children@,
                        #[trigger] self.children[j],
                        depth - 1,
                        state_at(p, depth as int, alpha as int, beta as int, j as nat).alpha,
                        state_at(p, depth as int, alpha as int, beta as int, j as nat).beta,
                    ),
                n == self.children.len(),
                n == p.valid_moves().len(),
                p == self.game_state@,
                self.game_state == old(self).game_state,
                self.is_white(),
                self.game_state.move_number + depth <= u32::MAX,
                self.expanded(),
                forall|j: int| 0 <= j < n ==> (#[trigger] self.children[j]).wf(),
                values == child_values(p, depth - 1),
                forall|j: int|
                    0 <= j < n ==> BLACK_WIN_SCORE <= #[trigger] values[j] <= WHITE_WIN_SCORE,
                BLACK_WIN_SCORE <= alpha <= beta <= WHITE_WIN_SCORE,
                BLACK_WIN_SCORE <= score <= WHITE_WIN_SCORE,
                alpha <= bound <= WHITE_WIN_SCORE,
                !cut ==> bound <= beta,
                !cut ==> running(
                    true,
                    alpha as int,
                    bound as int,
                    score as int,
                    prefix_best(values, true, i as nat),
                ),
                !cut ==> forall|j: int|
                    0 <= j < i ==> kept(
                        true,
                        (#[trigger] self.children[j]).calculated_score as int,
                        values[j],
                        if prefix_best(values, true, j as nat) > alpha {
                            prefix_best(values, true, j as nat)
                        } else {
                            alpha as int
                        },
                    ),
                cut ==> beta < score <= prefix_best(values, true, i as nat),
            decreases n - i,
        {
            let ghost before = *self;
            assert(self.children[i as int].game_state@ == p.after(p.valid_moves()[i as int]));
            assert(values[i as int] == minimax(self.children[i as int].game_state@, depth - 1));
            let r = self.children[i].alpha_beta_pruning(depth - 1, bound, beta);
            assert(r == pruned(
                p.after(p.valid_moves()[i as int]),
                depth - 1,
                state_at(p, depth as int, alpha as int, beta as int, i as nat).alpha,
                state_at(p, depth as int, alpha as int, beta as int, i as nat).beta,
            ));
            assert(within_window(values[i as int], r as int, bound as int, beta as int));
            assert(forall|j: int|
                0 <= j < n && j != i ==> self.children[j] == before.children[j]);
            if r > score {
                score = r;
            }
            if score > bound {
                bound = score;
            }
            cut = bound > beta;
            proof {
                lemma_prefix_best(values, true, i as nat, i as nat);
                assert(self.expanded());
                assert(state_at(p, depth as int, alpha as int, beta as int, (i + 1) as nat)
                    == search_step(
                    true,
                    state_at(p, depth as int, alpha as int, beta as int, i as nat),
                    r as int,
                ));
            }
            i = i + 1;
        }
        self.calculated_score = score;
        proof {
            if cut {
                lemma_state_frozen(p, depth as int, alpha as int, beta as int, i as nat, n as nat);
            }
            assert(score == pruned(p, depth as int, alpha as int, beta as int));
            assert(self.expanded());
            assert forall|j: int| 0 <= j < n implies {
                let s = state_at(p, depth as int, alpha as int, beta as int, j as nat);
                let child = #[trigger] self.children[j];
                &&& child.game_state@ == p.after(p.valid_moves()[j])
                &&& if s.cut {
                    child == old(self).children[j]
                } else {
                    Self::traced(old(self).children[j].children@, child, depth - 1, s.alpha, s.beta)
                }
            } by {
                if j >= i {
                    lemma_state_frozen(
                        p,
                        depth as int,
                        alpha as int,
                        beta as int,
                        i as nat,
                        j as nat,
                    );
                } else {
                    assert(!state_at(p, depth as int, alpha as int, beta as int, j as nat).cut);
                }
            }
            assert(Self::traced(old(self).children@, *self, depth as int, alpha as int, beta as int));
            assert forall|j: int| 0 <= j < n implies (#[trigger] self.children[j]).calculated_score
                == child_score_after(
                p,
                depth as int,
                alpha as int,
                beta as int,
                j,
                old(self).score_before(j),
            ) by {
                if j >= i {
                    lemma_state_frozen(
                        p,
                        depth as int,
                        alpha as int,
                        beta as int,
                        i as nat,
                        j as nat,
                    );
                } else {
                    assert(!state_at(p, depth as int, alpha as int, beta as int, j as nat).cut);
                }
            }
        }
        proof {
            let best = prefix_best(values, true, n as nat);
            lemma_prefix_best(values, true, i as nat, n as nat);
            assert(minimax(p, depth as int) == best);
            assert(self.expanded());
            if alpha <= best <= beta {
                assert(!cut);
                let stored = self.child_scores();
                assert forall|j: int| 0 <= j < n implies {
                    if #[trigger] values[j] == best {
                        stored[j] == best
                    } else {
                        better(true, best, stored[j])
                    }
                } by {
                    lemma_prefix_best(values, true, j as nat, n as nat);
                    lemma_prefix_best(values, true, n as nat, n as nat);
                    assert(stored[j] == self.children[j].calculated_score);
                }
                assert forall|k: int|
                    is_first_best(stored, true, k) <==> is_first_best(values, true, k) by {
                    lemma_first_best_transfer(stored, values, true, k);
                }
            }
        }
        score
    }

    /// Searches the children of a node in which Black is to move.
    fn search_as_black(&mut self, depth: i32, alpha: i64, beta: i64) -> (value: i64)
        requires
            depth > 0,
            old(self).wf(),
            old(self).children.len() > 0,
            !old(self).is_white(),
            old(self).game_state.move_number + depth <= u32::MAX,
            BLACK_WIN_SCORE <= alpha <= beta <= WHITE_WIN_SCORE,
        ensures
            old(self).searched(*final(self), depth as int, alpha as int, beta as int, value as int),
        decreases depth, 0int,
    {
        let ghost p = self.game_state@;
        let ghost values = child_values(p, depth - 1);
        let n = self.children.len();
        proof {
            assert forall|j: int| 0 <= j < n implies BLACK_WIN_SCORE <= #[trigger] values[j]
                <= WHITE_WIN_SCORE by {
                lemma_grid_of_wf(self.children[j].game_state.squares);
                lemma_minimax_bounds(self.children[j].game_state@, depth - 1);
            }
        }
        let mut score: i64 = WHITE_WIN_SCORE;
        let mut bound: i64 = beta;
        let mut cut = false;
        let mut i: usize = 0;
        let ghost start = *self;
        while i < n && !cut
            invariant
                depth > 0,
                i <= n,
                start.children.len() == n,
                state_at(p, depth as int, alpha as int, beta as int, i as nat) == (SearchState {
                    alpha: alpha as int,
                    beta: bound as int,
                    score: score as int,
                    cut,
                }),
                forall|j: int|
                    0 <= j < i ==> !(#[trigger] state_at(
                        p,
                        depth as int,
                        alpha as int,
                        beta as int,
                        j as nat,
                    )).cut,
                forall|j: int|
                    0 <= j < i ==> (#[trigger] self.children[j]).calculated_score == pruned(
                        p.after(p.valid_moves()[j]),
                        depth - 1,
                        state_at(p, depth as int, alpha as int, beta as int, j as nat).alpha,
                        state_at(p, depth as int, alpha as int, beta as int, j as nat).beta,
                    ),
                forall|j: int| i <= j < n ==> (#[trigger] self.children[j]) == start.children[j],
                forall|j: int|
                    0 <= j < i ==> Self::traced(
                        start.children[j].children@,
                        #[trigger] self.children[j],
                        depth - 1,
                        state_at(p, depth as int, alpha as int, beta as int, j as nat).alpha,
                        state_at(p, depth as int, alpha as int, beta as int, j as nat).beta,
                    ),
                n == self.children.len(),
                n == p.valid_moves().len(),
                p == self.game_state@,
                self.game_state == old(self).game_state,
                !self.is_white(),
                self.game_state.move_number + depth <= u32::MAX,
                self.expanded(),
                forall|j: int| 0 <= j < n ==> (#[trigger] self.children[j]).wf(),
                values == child_values(p, depth - 1),
                forall|j: int|
                    0 <= j < n ==> BLACK_WIN_SCORE <= #[trigger] values[j] <= WHITE_WIN_SCORE,
                BLACK_WIN_SCORE <= alpha <= beta <= WHITE_WIN_SCORE,
                BLACK_WIN_SCORE <= score <= WHITE_WIN_SCORE,
                BLACK_WIN_SCORE <= bound <= beta,
                !cut ==> alpha <= bound,
                !cut ==> running(
                    false,
                    beta as int,
                    bound as int,
                    score as int,
                    prefix_best(values, false, i as nat),
                ),
                !cut ==> forall|j: int|
                    0 <= j < i ==> kept(
                        false,
                        (#[trigger] self.children[j]).calculated_score as int,
                        values[j],
                        if prefix_best(values, false, j as nat) < beta {
                            prefix_best(values, false, j as nat)
                        } else {
                            beta as int
                        },
                    ),
                cut ==> prefix_best(values, false, i as nat) <= score < alpha,
            decreases n - i,
        {
            let ghost before = *self;
            assert(self.children[i as int].game_state@ == p.after(p.valid_moves()[i as int]));
            assert(values[i as int] == minimax(self.children[i as int].game_state@, depth - 1));
            let r = self.children[i].alpha_beta_pruning(depth - 1, alpha, bound);
            assert(r == pruned(
                p.after(p.valid_moves()[i as int]),
                depth - 1,
                state_at(p, depth as int, alpha as int, beta as int, i as nat).alpha,
                state_at(p, depth as int, alpha as int, beta as int, i as nat).beta,
            ));
            assert(within_window(values[i as int], r as int, alpha as int, bound as int));
            assert(forall|j: int|
                0 <= j < n && j != i ==> self.children[j] == before.children[j]);
            if r < score {
                score = r;
            }
            if score < bound {
                bound = score;
            }
            cut = bound < alpha;
            proof {
                lemma_prefix_best(values, false, i as nat, i as nat);
                assert(self.expanded());
                assert(state_at(p, depth as int, alpha as int, beta as int, (i + 1) as nat)
                    == search_step(
                    false,
                    state_at(p, depth as int, alpha as int, beta as int, i as nat),
                    r as int,
                ));
            }
            i = i + 1;
        }
        self.calculated_score = score;
        proof {
            if cut {
                lemma_state_frozen(p, depth as int, alpha as int, beta as int, i as nat, n as nat);
            }
            assert(score == pruned(p, depth as int, alpha as int, beta as int));
            assert(self.expanded());
            assert forall|j: int| 0 <= j < n implies {
                let s = state_at(p, depth as int, alpha as int, beta as int, j as nat);
                let child = #[trigger] self.children[j];
                &&& child.game_state@ == p.after(p.valid_moves()[j])
                &&& if s.cut {
                    child == old(self).children[j]
                } else {
                    Self::traced(old(self).children[j].children@, child, depth - 1, s.alpha, s.beta)
                }
            } by {
                if j >= i {
                    lemma_state_frozen(
                        p,
                        depth as int,
                        alpha as int,
                        beta as int,
                        i as nat,
                        j as nat,
                    );
                } else {
                    assert(!state_at(p, depth as int, alpha as int, beta as int, j as nat).cut);
                }
            }
            assert(Self::traced(old(self).children@, *self, depth as int, alpha as int, beta as int));
            assert forall|j: int| 0 <= j < n implies (#[trigger] self.children[j]).calculated_score
                == child_score_after(
                p,
                depth as int,
                alpha as int,
                beta as int,
                j,
                old(self).score_before(j),
            ) by {
                if j >= i {
                    lemma_state_frozen(
                        p,
                        depth as int,
                        alpha as int,
                        beta as int,
                        i as nat,
                        j as nat,
                    );
                } else {
                    assert(!state_at(p, depth as int, alpha as int, beta as int, j as nat).cut);
                }
            }
        }
        proof {
            let best = prefix_best(values, false, n as nat);
            lemma_prefix_best(values, false, i as nat, n as nat);
            assert(minimax(p, depth as int) == best);
            assert(self.expanded());
            if alpha <= best <= beta {
                assert(!cut);
                let stored = self.child_scores();
                assert forall|j: int| 0 <= j < n implies {
                    if #[trigger] values[j] == best {
                        stored[j] == best
                    } else {
                        better(false, best, stored[j])
                    }
                } by {
                    lemma_prefix_best(values, false, j as nat, n as nat);
                    lemma_prefix_best(values, false, n as nat, n as nat);
                    assert(stored[j] == self.children[j].calculated_score);
                }
                assert forall|k: int|
                    is_first_best(stored, false, k) <==> is_first_best(values, false, k) by {
                    lemma_first_best_transfer(stored, values, false, k);
                }
            }
        }
        score
    }

    /// Searches a node to the given depth with alpha-beta pruning: a child
    /// is left out once the lower bound has passed the upper bound. The
    /// children are made out on the first visit and searched in their
    /// order. With nothing left to look ahead the node gets the score of
    /// its position, and with no legal move the score of a game that has
    /// ended, whatever the window; in both cases its children stay as they
    /// were.
    fn alpha_beta_pruning(&mut self, depth: i32, alpha: i64, beta: i64) -> (value: i64)
        requires
            old(self).wf(),
            depth > 0 ==> old(self).game_state.move_number + depth <= u32::MAX,
            BLACK_WIN_SCORE <= alpha <= beta <= WHITE_WIN_SCORE,
        ensures
            old(self).searched(*final(self), depth as int, alpha as int, beta as int, value as int),
            depth <= 0 ==> value == score(old(self).game_state@),
            depth > 0 && old(self).game_state@.valid_moves().len() == 0 ==> value
                == terminal_score(old(self).game_state@),
            depth <= 0 || old(self).game_state@.valid_moves().len() == 0 ==> final(self).children
                == old(self).children,
        decreases depth, 1int,
    {
        proof {
            lemma_grid_of_wf(self.game_state.squares);
            lemma_minimax_bounds(self.game_state@, depth as int);
        }
        if depth <= 0 {
            self.calculated_score = score_game_state(&self.game_state);
            return self.calculated_score;
        }
        if self.children.len() == 0 {
            let valid_moves = self.game_state.get_valid_moves();
            if valid_moves.len() == 0 {
                let check = king_in_check(&self.game_state.squares, self.game_state.current_player);
                self.calculated_score = if !check {
                    0
                } else {
                    match self.game_state.current_player {
                        ChessColor::White => BLACK_WIN_SCORE,
                        ChessColor::Black => WHITE_WIN_SCORE,
                    }
                };
                return self.calculated_score;
            }
            self.expand(&valid_moves);
        }
        let ghost made_out = *self;
        let value = match self.game_state.current_player {
            ChessColor::White => self.search_as_white(depth, alpha, beta),
            ChessColor::Black => self.search_as_black(depth, alpha, beta),
        };
        proof {
            let p = old(self).game_state@;
            let white = old(self).is_white();
            assert(made_out.game_state == old(self).game_state);
            assert(Self::traced(
                made_out.children@,
                *self,
                depth as int,
                alpha as int,
                beta as int,
            ));
            if old(self).children.len() == 0 {
                assert forall|j: int| 0 <= j < self.children.len() implies {
                    let s = state_at(p, depth as int, alpha as int, beta as int, j as nat);
                    let child = #[trigger] self.children[j];
                    &&& child.game_state@ == p.after(p.valid_moves()[j])
                    &&& if s.cut {
                        child.children.len() == 0 && child.calculated_score == 0
                    } else {
                        Self::traced(Seq::empty(), child, depth - 1, s.alpha, s.beta)
                    }
                } by {
                    assert(made_out.children[j].children@ =~= Seq::<ThoughtNode>::empty());
                }
            }
            assert(Self::traced(
                old(self).children@,
                *self,
                depth as int,
                alpha as int,
                beta as int,
            ));
            assert forall|j: int| 0 <= j < self.children.len() implies (#[trigger] self.children[j]).calculated_score
                == child_score_after(
                p,
                depth as int,
                alpha as int,
                beta as int,
                j,
                old(self).score_before(j),
            ) by {
                assert(made_out.score_before(j) == old(self).score_before(j));
            }
            if p.valid_moves().len() > 0 && alpha <= minimax(p, depth as int) <= beta {
                assert forall|k: int|
                    is_first_best(self.child_scores(), white, k) <==> is_first_best(
                        child_values(p, depth - 1),
                        white,
                        k,
                    ) by {
                    assert(is_first_best(self.child_scores(), made_out.is_white(), k)
                        <==> is_first_best(
                        child_values(made_out.game_state@, depth - 1),
                        made_out.is_white(),
                        k,
                    ));
                }
            }
        }
        value
    }
}

impl ThoughtNode {
    /// The move that the node picks once it has been searched: the move
    /// that led to the child with the first best score. That is the child
    /// that would come first if the children were sorted by score, best
    /// for the side to move first, without changing the order of equal
    /// ones.
    pub open spec fn chosen_move(self) -> Result<ChessMove, ChessError> {
        if self.children.len() == 0 {
            Err(ChessError::SearchNotReady)
        } else {
            match self.children[best_index(self.child_scores(), self.is_white())].game_state.last_move {
                Some(m) => Ok(m),
                None => Err(ChessError::InconsistentState),
            }
        }
    }

    /// Searches the node to the given depth and returns its value: what
    /// full minimax gives, found with alpha-beta pruning. The node is then
    /// the tree that the pruned search with the widest window leaves, and
    /// its children carry scores by which the best move can be picked.
    pub fn alphabeta(&mut self, depth: i32) -> (value: i64)
        requires
            old(self).wf(),
            depth > 0 ==> old(self).game_state.move_number + depth <= u32::MAX,
        ensures
            final(self).wf(),
            final(self).game_state == old(self).game_state,
            final(self).calculated_score == value,
            value == minimax(old(self).game_state@, depth as int),
            ThoughtNode::traced(
                old(self).children@,
                *final(self),
                depth as int,
                BLACK_WIN_SCORE as int,
                WHITE_WIN_SCORE as int,
            ),
            depth > 0 ==> final(self).children.len() == old(self).game_state@.valid_moves().len(),
            forall|j: int|
                0 <= j < final(self).children.len() ==> (#[trigger] final(self).children[j]).calculated_score == child_score_after(
                    old(self).game_state@,
                    depth as int,
                    BLACK_WIN_SCORE as int,
                    WHITE_WIN_SCORE as int,
                    j,
                    old(self).score_before(j),
                ),
            depth <= 0 || old(self).game_state@.valid_moves().len() == 0 ==> final(self).children
                == old(self).children,
            depth > 0 && old(self).game_state@.valid_moves().len() > 0 ==> final(self).chosen_move()
                == Ok::<ChessMove, ChessError>(minimax_move(old(self).game_state@, depth as int)),
    {
        proof {
            lemma_grid_of_wf(self.game_state.squares);
            lemma_minimax_bounds(self.game_state@, depth as int);
        }
        let value = self.alpha_beta_pruning(depth, BLACK_WIN_SCORE, WHITE_WIN_SCORE);
        proof {
            if depth > 0 {
                lemma_search_picks_minimax_move(*old(self), *self, depth as int, value as int);
            }
        }
        value
    }

    /// Returns the index of the child with the first best score.
    pub fn best_child_index(&self) -> (k: usize)
        requires
            self.children.len() > 0,
        ensures
            is_first_best(self.child_scores(), self.is_white(), k as int),
            k == best_index(self.child_scores(), self.is_white()),
    {
        let white = self.game_state.current_player == ChessColor::White;
        let ghost scores = self.child_scores();
        let mut k: usize = 0;
        let mut i: usize = 1;
        while i < self.children.len()
            invariant
                1 <= i <= self.children.len(),
                scores == self.child_scores(),
                white == self.is_white(),
                k < i,
                forall|j: int| 0 <= j < i ==> !better(white, #[trigger] scores[j], scores[k as int]),
                forall|j: int| 0 <= j < k ==> better(white, scores[k as int], #[trigger] scores[j]),
            decreases self.children.len() - i,
        {
            let candidate = self.children[i].calculated_score;
            let current = self.children[k].calculated_score;
            assert(scores[i as int] == candidate);
            assert(scores[k as int] == current);
            if (white && candidate > current) || (!white && candidate < current) {
                k = i;
            }
            i = i + 1;
        }
        proof {
            lemma_first_best_exists(scores, white);
            lemma_first_best_unique(scores, white, k as int, best_index(scores, white));
        }
        k
    }

    /// Returns the move that the node picks. A node without children was
    /// never searched, or has no legal move: it picks none.
    pub fn get_best_move(&self) -> (result: Result<ChessMove, ChessError>)
        ensures
            result == self.chosen_move(),
    {
        if self.children.len() == 0 {
            return Err(ChessError::SearchNotReady);
        }
        let k = self.best_child_index();
        match self.children[k].game_state.last_move {
            Some(m) => Ok(m),
            None => Err(ChessError::InconsistentState),
        }
    }
}

/// The move picked after a pruned search is the move that full minimax
/// picks: once a node whose position has legal moves has been searched
/// with the widest window, its value is the minimax value and the move it
/// picks is the minimax move.
pub proof fn lemma_search_picks_minimax_move(
    before: ThoughtNode,
    after: ThoughtNode,
    depth: int,
    value: int,
)
    requires
        before.searched(after, depth, BLACK_WIN_SCORE as int, WHITE_WIN_SCORE as int, value),
        depth > 0,
    ensures
        value == minimax(before.game_state@, depth),
        before.game_state@.valid_moves().len() > 0 ==> after.chosen_move() == Ok::<
            ChessMove,
            ChessError,
        >(minimax_move(before.game_state@, depth)),
{
    let p = before.game_state@;
    lemma_grid_of_wf(before.game_state.squares);
    lemma_minimax_bounds(p, depth);
    if p.valid_moves().len() > 0 {
        let white = before.is_white();
        let stored = after.child_scores();
        let values = child_values(p, depth - 1);
        lemma_first_best_exists(stored, white);
        lemma_first_best_exists(values, white);
        let k = best_index(stored, white);
        assert(is_first_best(stored, white, k) <==> is_first_best(values, white, k));
        lemma_first_best_unique(values, white, k, best_index(values, white));
        assert(after.expanded());
        assert(after.children[k].game_state@ == p.after(p.valid_moves()[k]));
    }
}

} // verus!
