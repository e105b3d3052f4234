use vstd::prelude::*;
use crate::chess_board::ChessBoard;
use crate::chess_error::ChessError;
use crate::chess_move::ChessMove;
use crate::minimax::{
    best_index, child_values, lemma_first_best_exists, minimax, minimax_move, BLACK_WIN_SCORE,
    WHITE_WIN_SCORE,
};
use crate::thought_node::ThoughtNode;

verus! {

/// The root of a search whose work is shared out among several workers:
/// each worker searches the positions after some of the legal moves.
pub struct MultiThoughtNode {
    pub game_state: ChessBoard,
    pub children: Vec<ThoughtNode>,
    pub calculated_score: i64,
    pub thought_threads: usize,
}

/// The length of the chunks into which `count` items are cut for the
/// given number of workers: the least length with which there is no more
/// than one chunk for each worker, and at least one. No worker counts as
/// one worker.
pub open spec fn chunk_len(count: int, workers: int) -> int {
    if workers <= 1 {
        if count <= 1 {
            1
        } else {
            count
        }
    } else if count <= 0 {
        1
    } else if count % workers == 0 {
        count / workers
    } else {
        count / workers + 1
    }
}

/// The chunks of the given length into which a list is cut: each chunk
/// but the last has that length, and the chunks in their order make up the
/// list.
pub open spec fn chunks_of(moves: Seq<ChessMove>, len: int) -> Seq<Seq<ChessMove>>
    decreases moves.len(),
{
    if moves.len() == 0 || len <= 0 {
        Seq::empty()
    } else if moves.len() <= len {
        seq![moves]
    } else {
        seq![moves.take(len)] + chunks_of(moves.skip(len), len)
    }
}

/// The lists that the vectors of a list hold.
pub open spec fn lists_of(chunks: Seq<Vec<ChessMove>>) -> Seq<Seq<ChessMove>> {
    Seq::new(chunks.len(), |i: int| chunks[i]@)
}

/// A list that is no longer than the workers' chunks taken together is cut
/// into no more chunks than there are workers.
pub proof fn lemma_chunk_count(moves: Seq<ChessMove>, len: int, workers: int)
    requires
        len >= 1,
        workers >= 1,
        moves.len() <= workers * len,
    ensures
        chunks_of(moves, len).len() <= workers,
    decreases workers,
{
    if moves.len() > len {
        assert(workers >= 2) by (nonlinear_arith)
            requires
                moves.len() > len,
                moves.len() <= workers * len,
                workers >= 1,
                len >= 1,
        ;
        assert(moves.len() - len <= (workers - 1) * len) by (nonlinear_arith)
            requires
                moves.len() <= workers * len,
        ;
        lemma_chunk_count(moves.skip(len), len, workers - 1);
    }
}

/// The chunks for a number of workers are long enough for the workers to
/// take the whole list.
pub proof fn lemma_chunk_len_covers(count: int, workers: int)
    requires
        count >= 0,
        workers >= 1,
    ensures
        chunk_len(count, workers) >= 1,
        count <= workers * chunk_len(count, workers),
{
    if workers > 1 && count > 0 {
        let q = count / workers;
        let r = count % workers;
        assert(count == workers * q + r && 0 <= r < workers) by (nonlinear_arith)
            requires
                q == count / workers,
                r == count % workers,
                workers > 1,
                count > 0,
        ;
        if r == 0 {
            assert(q >= 1) by (nonlinear_arith)
                requires
                    count == workers * q,
                    count > 0,
                    workers > 1,
            ;
        } else {
            assert(q >= 0) by (nonlinear_arith)
                requires
                    count == workers * q + r,
                    0 <= r < workers,
                    count > 0,
                    workers > 1,
            ;
            assert(count <= workers * (q + 1)) by (nonlinear_arith)
                requires
                    count == workers * q + r,
                    0 <= r < workers,
            ;
        }
    } else if workers == 1 {
        assert(count <= workers * chunk_len(count, workers));
    } else {
        assert(0 <= workers * 1);
    }
}

/// Returns the length of the chunks into which `count` items are cut for
/// the given number of workers.
pub fn chunk_length(count: usize, workers: usize) -> (len: usize)
    ensures
        len == chunk_len(count as int, workers as int),
        len >= 1,
{
    if workers <= 1 {
        if count <= 1 {
            1
        } else {
            count
        }
    } else if count == 0 {
        1
    } else if count % workers == 0 {
        let len = count / workers;
        proof {
            lemma_chunk_len_covers(count as int, workers as int);
        }
        len
    } else {
        assert(count / workers < count) by (nonlinear_arith)
            requires
                workers >= 2,
                count >= 1,
        ;
        count / workers + 1
    }
}

/// Cuts the moves into contiguous chunks of nearly equal length, no more
/// than one for each worker.
pub fn split_moves(moves: &Vec<ChessMove>, workers: usize) -> (chunks: Vec<Vec<ChessMove>>)
    ensures
        lists_of(chunks@) == chunks_of(moves@, chunk_len(moves.len() as int, workers as int)),
        workers >= 1 ==> chunks.len() <= workers,
{
    let len = chunk_length(moves.len(), workers);
    let ghost whole = chunks_of(moves@, len as int);
    let mut chunks: Vec<Vec<ChessMove>> = Vec::new();
    let mut start: usize = 0;
    proof {
        assert(moves@.skip(0) =~= moves@);
        assert(lists_of(chunks@) + chunks_of(moves@.skip(0), len as int) =~= whole);
        if workers >= 1 {
            lemma_chunk_len_covers(moves.len() as int, workers as int);
            lemma_chunk_count(moves@, len as int, workers as int);
        }
    }
    while start < moves.len()
        invariant
            len >= 1,
            start <= moves.len(),
            whole == chunks_of(moves@, len as int),
            lists_of(chunks@) + chunks_of(moves@.skip(start as int), len as int) == whole,
        decreases moves.len() - start,
    {
        let end = if moves.len() - start <= len {
            moves.len()
        } else {
            start + len
        };
        let ghost rest = moves@.skip(start as int);
        let ghost done = lists_of(chunks@);
        let mut chunk: Vec<ChessMove> = Vec::new();
        let mut i: usize = start;
        while i < end
            invariant
                start <= i <= end <= moves.len(),
                chunk@ == moves@.subrange(start as int, i as int),
            decreases end - i,
        {
            chunk.push(moves[i]);
            assert(chunk@ =~= moves@.subrange(start as int, i as int + 1));
            i = i + 1;
        }
        proof {
            if moves.len() - start <= len {
                assert(chunk@ =~= rest);
                assert(chunks_of(rest, len as int) =~= seq![rest]);
                assert(moves@.skip(end as int) =~= Seq::<ChessMove>::empty());
            } else {
                assert(chunk@ =~= rest.take(len as int));
                assert(rest.skip(len as int) =~= moves@.skip(end as int));
            }
        }
        chunks.push(chunk);
        proof {
            assert(lists_of(chunks@) =~= done + seq![chunk@]);
            assert(lists_of(chunks@) + chunks_of(moves@.skip(end as int), len as int) =~= whole);
        }
        start = end;
    }
    proof {
        assert(moves@.skip(start as int) =~= Seq::<ChessMove>::empty());
        assert(lists_of(chunks@) =~= whole);
    }
    chunks
}

/// Searches, one after the other, the positions that the given legal
/// moves lead to, each in a tree of its own and to the same depth.
pub fn search_moves(game_state: &ChessBoard, moves: &Vec<ChessMove>, depth: i32) -> (nodes: Vec<
    ThoughtNode,
>)
    requires
        forall|i: int| 0 <= i < moves.len() ==> game_state@.valid_moves().contains(#[trigger] moves@[i]),
        game_state.move_number < u32::MAX,
        depth > 0 ==> game_state.move_number + 1 + depth <= u32::MAX,
    ensures
        nodes.len() == moves.len(),
        forall|i: int|
            0 <= i < nodes.len() ==> {
                &&& (#[trigger] nodes[i]).wf()
                &&& nodes[i].game_state@ == game_state@.after(moves@[i])
                &&& nodes[i].calculated_score == minimax(
                    game_state@.after(moves@[i]),
                    depth as int,
                )
                &&& ThoughtNode::traced(
                    Seq::empty(),
                    nodes[i],
                    depth as int,
                    BLACK_WIN_SCORE as int,
                    WHITE_WIN_SCORE as int,
                )
            },
{
    let mut nodes: Vec<ThoughtNode> = Vec::new();
    let mut i: usize = 0;
    while i < moves.len()
        invariant
            i <= moves.len(),
            nodes.len() == i,
            game_state.move_number < u32::MAX,
            depth > 0 ==> game_state.move_number + 1 + depth <= u32::MAX,
            forall|j: int|
                0 <= j < moves.len() ==> game_state@.valid_moves().contains(#[trigger] moves@[j]),
            forall|j: int|
                0 <= j < i ==> {
                    &&& (#[trigger] nodes[j]).wf()
                    &&& nodes[j].game_state@ == game_state@.after(moves@[j])
                    &&& nodes[j].calculated_score == minimax(
                        game_state@.after(moves@[j]),
                        depth as int,
                    )
                    &&& ThoughtNode::traced(
                        Seq::empty(),
                        nodes[j],
                        depth as int,
                        BLACK_WIN_SCORE as int,
                        WHITE_WIN_SCORE as int,
                    )
                },
        decreases moves.len() - i,
    {
        assert(game_state@.valid_moves().contains(moves@[i as int]));
        let next = game_state.after_move(&moves[i]);
        let mut node = ThoughtNode::new(next);
        assert(node.children@ =~= Seq::<ThoughtNode>::empty());
        node.alphabeta(depth);
        nodes.push(node);
        i = i + 1;
    }
    nodes
}

/// The first `n` chunks put together.
pub open spec fn flat(chunks: Seq<Seq<ChessMove>>, n: nat) -> Seq<ChessMove>
    decreases n,
{
    if n == 0 {
        Seq::empty()
    } else {
        flat(chunks, (n - 1) as nat) + chunks[n - 1]
    }
}

/// A chunk put before others comes first when they are put together.
proof fn lemma_flat_first(first: Seq<ChessMove>, rest: Seq<Seq<ChessMove>>, n: nat)
    requires
        n <= rest.len(),
    ensures
        flat(seq![first] + rest, n + 1) == first + flat(rest, n),
    decreases n,
{
    let all = seq![first] + rest;
    if n == 0 {
        assert(flat(all, 0) =~= Seq::<ChessMove>::empty());
        assert(all[0] == first);
        assert(flat(all, 1) =~= first + flat(rest, 0));
    } else {
        lemma_flat_first(first, rest, (n - 1) as nat);
        assert(all[n as int] == rest[n - 1]);
        assert(flat(all, n + 1) =~= first + flat(rest, n));
    }
}

/// The chunks of a list, put together, are the list.
pub proof fn lemma_chunks_make_whole(moves: Seq<ChessMove>, len: int)
    requires
        len >= 1,
    ensures
        flat(chunks_of(moves, len), chunks_of(moves, len).len()) == moves,
    decreases moves.len(),
{
    let chunks = chunks_of(moves, len);
    if moves.len() == 0 {
        assert(flat(chunks, 0) =~= moves);
    } else if moves.len() <= len {
        assert(flat(chunks, 0) =~= Seq::<ChessMove>::empty());
        assert(flat(chunks, 1) =~= moves);
    } else {
        let rest = chunks_of(moves.skip(len), len);
        lemma_chunks_make_whole(moves.skip(len), len);
        lemma_flat_first(moves.take(len), rest, rest.len());
        assert(moves.take(len) + moves.skip(len) =~= moves);
    }
}

/// Fewer chunks put together are the beginning of more chunks put
/// together.
pub proof fn lemma_flat_prefix(chunks: Seq<Seq<ChessMove>>, n: nat, m: nat)
    requires
        n <= m <= chunks.len(),
    ensures
        flat(chunks, n).len() <= flat(chunks, m).len(),
        forall|j: int| 0 <= j < flat(chunks, n).len() ==> flat(chunks, n)[j] == flat(chunks, m)[j],
    decreases m,
{
    if n < m {
        lemma_flat_prefix(chunks, n, (m - 1) as nat);
    }
}

impl MultiThoughtNode {
    /// Searches the position after each legal move to the given depth, the
    /// moves taken chunk by chunk as they are shared out among the
    /// workers, and returns the root of the trees. No bound found in one
    /// tree prunes another: each child carries its full minimax value.
    pub fn alphabeta(&mut self, depth: i32) -> (root: ThoughtNode)
        requires
            old(self).game_state.move_number < u32::MAX,
            depth > 0 ==> old(self).game_state.move_number + 1 + depth <= u32::MAX,
        ensures
            final(self).game_state == old(self).game_state,
            final(self).thought_threads == old(self).thought_threads,
            final(self).calculated_score == old(self).calculated_score,
            final(self).children == old(self).children,
            root.game_state == old(self).game_state,
            root.calculated_score == 0,
            root.wf(),
            root.expanded(),
            forall|i: int|
                0 <= i < root.children.len() ==> (#[trigger] root.children[i]).calculated_score
                    == minimax(
                    old(self).game_state@.after(old(self).game_state@.valid_moves()[i]),
                    depth as int,
                ),
            forall|i: int|
                0 <= i < root.children.len() ==> ThoughtNode::traced(
                    Seq::empty(),
                    #[trigger] root.children[i],
                    depth as int,
                    BLACK_WIN_SCORE as int,
                    WHITE_WIN_SCORE as int,
                ),
            root.children.len() > 0 ==> root.chosen_move() == Ok::<ChessMove, ChessError>(
                minimax_move(
                    old(self).game_state@,
                    if depth > 0 {
                        depth + 1
                    } else {
                        1
                    },
                ),
            ),
    {
        let ghost p = self.game_state@;
        let valid_moves = self.game_state.get_valid_moves();
        let chunks = split_moves(&valid_moves, self.thought_threads);
        let ghost lists = lists_of(chunks@);
        proof {
            let len = chunk_len(valid_moves.len() as int, self.thought_threads as int);
            if self.thought_threads >= 1 {
                lemma_chunk_len_covers(valid_moves.len() as int, self.thought_threads as int);
            }
            lemma_chunks_make_whole(valid_moves@, len);
        }
        let mut children: Vec<ThoughtNode> = Vec::new();
        let mut c: usize = 0;
        assert(flat(lists, 0) =~= Seq::<ChessMove>::empty());
        while c < chunks.len()
            invariant
                c <= chunks.len(),
                p == self.game_state@,
                valid_moves@ == p.valid_moves(),
                lists == lists_of(chunks@),
                flat(lists, lists.len()) == valid_moves@,
                self.game_state.move_number < u32::MAX,
                depth > 0 ==> self.game_state.move_number + 1 + depth <= u32::MAX,
                *self == *old(self),
                children.len() == flat(lists, c as nat).len(),
                children.len() <= valid_moves.len(),
                forall|j: int|
                    0 <= j < children.len() ==> {
                        &&& (#[trigger] children[j]).wf()
                        &&& children[j].game_state@ == p.after(valid_moves@[j])
                        &&& children[j].calculated_score == minimax(
                            p.after(valid_moves@[j]),
                            depth as int,
                        )
                        &&& ThoughtNode::traced(
                            Seq::empty(),
                            children[j],
                            depth as int,
                            BLACK_WIN_SCORE as int,
                            WHITE_WIN_SCORE as int,
                        )
                    },
            decreases chunks.len() - c,
        {
            let chunk = &chunks[c];
            let ghost done = children@;
            let ghost offset = children.len() as int;
            proof {
                lemma_flat_prefix(lists, (c + 1) as nat, lists.len() as nat);
                assert(lists[c as int] == chunk@);
                assert forall|i: int| 0 <= i < chunk.len() implies chunk@[i] == valid_moves@[offset
                    + i] by {
                    assert(flat(lists, (c + 1) as nat)[offset + i] == chunk@[i]);
                }
                assert forall|i: int| 0 <= i < chunk.len() implies p.valid_moves().contains(
                    #[trigger] chunk@[i],
                ) by {
                    assert(chunk@[i] == valid_moves@[offset + i]);
                }
            }
            let mut nodes = search_moves(&self.game_state, chunk, depth);
            let ghost found = nodes@;
            children.append(&mut nodes);
            proof {
                assert forall|j: int| 0 <= j < children.len() implies {
                    &&& (#[trigger] children[j]).wf()
                    &&& children[j].game_state@ == p.after(valid_moves@[j])
                    &&& children[j].calculated_score == minimax(
                        p.after(valid_moves@[j]),
                        depth as int,
                    )
                    &&& ThoughtNode::traced(
                        Seq::empty(),
                        children[j],
                        depth as int,
                        BLACK_WIN_SCORE as int,
                        WHITE_WIN_SCORE as int,
                    )
                } by {
                    if j < offset {
                        assert(children[j] == done[j]);
                    } else {
                        assert(children[j] == found[j - offset]);
                        assert(chunk@[j - offset] == valid_moves@[offset + (j - offset)]);
                    }
                }
            }
            c = c + 1;
        }
        let root = ThoughtNode { game_state: self.game_state, children, calculated_score: 0 };
        proof {
            let reach: int = if depth > 0 {
                depth + 1
            } else {
                1
            };
            assert(root.expanded());
            assert(root.wf());
            if root.children.len() > 0 {
                assert(root.child_scores() =~= child_values(p, reach - 1));
                lemma_first_best_exists(root.child_scores(), root.is_white());
                let k = best_index(root.child_scores(), root.is_white());
                assert(root.children[k].game_state@ == p.after(valid_moves@[k]));
            }
        }
        root
    }
}

} // verus!
