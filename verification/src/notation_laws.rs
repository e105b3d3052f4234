use vstd::prelude::*;
use crate::castling::{Castling, CastlingRights};
use crate::chess_board::Position;
use crate::chess_color::ChessColor;
use crate::chess_square::ChessSquare;
use crate::grid::{wf_grid, Grid};
use crate::notation::{
    castling_text,
    decimal,
    digit_char,
    emitted_text,
    fen_text,
    join_fields,
    pending_empties,
    placement_text,
    rank_text,
    right_text,
    rows_text,
    run_text,
    side_text,
};
use crate::notation_import::{
    digit_value,
    expand_rank,
    fields,
    is_castling_letter,
    is_target,
    parse_castling,
    parse_decimal,
    parse_fen,
    parse_placement,
    parse_rank,
    parse_side,
    piece_of_letter,
    squares_of_char,
};

verus! {

/// Whether a character does not occur in a text.
pub open spec fn free_of(text: Seq<char>, c: char) -> bool {
    forall|i: int| 0 <= i < text.len() ==> #[trigger] text[i] != c
}

/// A text in which the separator does not occur is a single field.
pub proof fn lemma_fields_single(text: Seq<char>, sep: char)
    requires
        free_of(text, sep),
    ensures
        fields(text, sep) == seq![text],
    decreases text.len(),
{
    if text.len() == 0 {
        assert(text =~= Seq::<char>::empty());
    } else {
        lemma_fields_single(text.drop_last(), sep);
        assert(text.last() == text[text.len() - 1]);
        assert(text.drop_last().push(text.last()) =~= text);
        assert(fields(text, sep) =~= seq![text]);
    }
}

/// The fields of two texts joined by a separator are the fields of the
/// first followed by the fields of the second.
pub proof fn lemma_fields_join(a: Seq<char>, b: Seq<char>, sep: char)
    ensures
        fields(a + seq![sep] + b, sep) == fields(a, sep) + fields(b, sep),
        fields(b, sep).len() >= 1,
    decreases b.len(),
{
    let whole = a + seq![sep] + b;
    if b.len() == 0 {
        assert(whole.drop_last() =~= a);
        assert(whole.last() == sep);
        assert(fields(whole, sep) =~= fields(a, sep) + fields(b, sep));
    } else {
        lemma_fields_join(a, b.drop_last(), sep);
        assert(whole.drop_last() =~= a + seq![sep] + b.drop_last());
        assert(whole.last() == b.last());
        assert(fields(whole, sep) =~= fields(a, sep) + fields(b, sep));
    }
}

/// Each piece letter stands for the piece it is the letter of, and is no
/// digit, slash or space.
pub proof fn lemma_letter_round_trip(piece: ChessSquare)
    requires
        piece.is_piece(),
    ensures
        piece_of_letter(piece.letter()) == Some(piece),
        squares_of_char(piece.letter()) == Some(seq![piece]),
        piece.letter() != '/',
        piece.letter() != ' ',
{
}

/// The digit of a run of one to eight empty squares stands for that many
/// empty squares, and is no slash or space.
pub proof fn lemma_run_round_trip(n: int)
    requires
        1 <= n <= 8,
    ensures
        squares_of_char(digit_char(n)) == Some(Seq::new(n as nat, |i: int| ChessSquare::Empty)),
        digit_char(n) != '/',
        digit_char(n) != ' ',
{
}

/// The text of the first `i` squares of a row stands for those squares,
/// and holds no slash and no space.
proof fn lemma_emitted_round_trip(row: Seq<ChessSquare>, i: int)
    requires
        0 <= i <= row.len(),
        i <= 8,
    ensures
        0 <= pending_empties(row, i) <= i,
        forall|j: int| i - pending_empties(row, i) <= j < i ==> row[j] == ChessSquare::Empty,
        expand_rank(emitted_text(row, i)) == Some(row.take(i - pending_empties(row, i))),
        expand_rank(emitted_text(row, i) + run_text(pending_empties(row, i))) == Some(
            row.take(i),
        ),
        free_of(emitted_text(row, i) + run_text(pending_empties(row, i)), '/'),
        free_of(emitted_text(row, i) + run_text(pending_empties(row, i)), ' '),
    decreases i,
{
    let e = emitted_text(row, i);
    let p = pending_empties(row, i);
    if i <= 0 {
        assert(row.take(0) =~= Seq::<ChessSquare>::empty());
        assert(e + run_text(p) =~= Seq::<char>::empty());
    } else {
        lemma_emitted_round_trip(row, i - 1);
        let shown = emitted_text(row, i - 1);
        let run = pending_empties(row, i - 1);
        let with_run = shown + run_text(run);
        if row[i - 1] == ChessSquare::Empty {
            let whole = e + run_text(p);
            assert(whole =~= shown.push(digit_char(p)));
            assert(whole.drop_last() =~= shown);
            assert(whole.last() == digit_char(p));
            lemma_run_round_trip(p);
            assert(row.take(i - 1 - run) + Seq::new(p as nat, |k: int| ChessSquare::Empty)
                =~= row.take(i));
            assert(free_of(whole, '/')) by {
                assert forall|k: int| 0 <= k < whole.len() implies #[trigger] whole[k]
                    != '/' by {
                    if k < shown.len() {
                        assert(with_run[k] == shown[k]);
                    }
                }
            }
            assert(free_of(whole, ' ')) by {
                assert forall|k: int| 0 <= k < whole.len() implies #[trigger] whole[k]
                    != ' ' by {
                    if k < shown.len() {
                        assert(with_run[k] == shown[k]);
                    }
                }
            }
        } else {
            let piece = row[i - 1];
            lemma_letter_round_trip(piece);
            assert(e =~= with_run.push(piece.letter()));
            assert(e.drop_last() =~= with_run);
            assert(e.last() == piece.letter());
            assert(row.take(i - 1) + seq![piece] =~= row.take(i));
            assert(e + run_text(p) =~= e);
            assert(free_of(e, '/'));
            assert(free_of(e, ' '));
        }
    }
}

/// The text of a row stands for the row, and holds no slash and no space.
pub proof fn lemma_rank_round_trip(row: Seq<ChessSquare>)
    requires
        row.len() == 8,
    ensures
        parse_rank(rank_text(row)) == Some(row),
        free_of(rank_text(row), '/'),
        free_of(rank_text(row), ' '),
{
    lemma_emitted_round_trip(row, 8);
    assert(row.take(8) =~= row);
}

/// The text of the `n` farthest rows has their texts as its fields, and
/// holds no space.
proof fn lemma_rows_round_trip(g: Grid, n: nat)
    requires
        wf_grid(g),
        1 <= n <= 8,
    ensures
        fields(rows_text(g, n), '/') == Seq::new(n, |i: int| rank_text(g[7 - i])),
        free_of(rows_text(g, n), ' '),
    decreases n,
{
    let last = rank_text(g[8 - n]);
    lemma_rank_round_trip(g[8 - n]);
    lemma_fields_single(last, '/');
    if n == 1 {
        assert(fields(rows_text(g, n), '/') =~= Seq::new(n, |i: int| rank_text(g[7 - i])));
    } else {
        let before = rows_text(g, (n - 1) as nat);
        lemma_rows_round_trip(g, (n - 1) as nat);
        lemma_fields_join(before, last, '/');
        assert(fields(rows_text(g, n), '/') =~= Seq::new(n, |i: int| rank_text(g[7 - i])));
        let whole = rows_text(g, n);
        assert forall|k: int| 0 <= k < whole.len() implies #[trigger] whole[k] != ' ' by {
            if k < before.len() {
                assert(whole[k] == before[k]);
            } else if k > before.len() {
                assert(whole[k] == last[k - before.len() - 1]);
            }
        }
    }
}

/// The piece-placement field of a board stands for the board, and holds no
/// space.
pub proof fn lemma_placement_round_trip(g: Grid)
    requires
        wf_grid(g),
    ensures
        parse_placement(placement_text(g)) == Some(g),
        free_of(placement_text(g), ' '),
{
    lemma_rows_round_trip(g, 8);
    let ranks = fields(placement_text(g), '/');
    assert forall|i: int| 0 <= i < 8 implies parse_rank(#[trigger] ranks[i]) == Some(
        g[7 - i],
    ) by {
        lemma_rank_round_trip(g[7 - i]);
    }
    assert(Seq::new(8, |y: int| parse_rank(ranks[7 - y])->0) =~= g);
}

/// The side-to-move field of a side stands for the side, and holds no
/// space.
pub proof fn lemma_side_round_trip(player: ChessColor)
    ensures
        parse_side(side_text(player)) == Some(player),
        free_of(side_text(player), ' '),
{
    assert(seq!['b'][0] == 'b');
    assert(seq!['w'][0] == 'w');
}

/// The castling field of a set of rights stands for that set, and holds no
/// space.
pub proof fn lemma_castling_round_trip(rights: CastlingRights)
    ensures
        parse_castling(castling_text(rights)) == Some(rights),
        free_of(castling_text(rights), ' '),
{
    let text = castling_text(rights);
    if !rights.white_short && !rights.white_long && !rights.black_short && !rights.black_long {
    } else {
        let a = right_text(rights, Castling::WhiteShort, 'K');
        let b = right_text(rights, Castling::WhiteLong, 'Q');
        let c = right_text(rights, Castling::BlackShort, 'k');
        let d = right_text(rights, Castling::BlackLong, 'q');
        assert(text == a + b + c + d);
        assert(text.len() == a.len() + b.len() + c.len() + d.len());
        assert(text != seq!['-']) by {
            if text.len() == 1 {
                assert(text[0] != '-');
                assert(seq!['-'][0] == '-');
            }
        }
        assert forall|i: int| 0 <= i < text.len() implies is_castling_letter(
            #[trigger] text[i],
        ) by {}
        if rights.white_short {
            assert(text[0] == 'K');
        }
        if rights.white_long {
            assert(text[a.len() as int] == 'Q');
        }
        if rights.black_short {
            assert(text[(a.len() + b.len()) as int] == 'k');
        }
        if rights.black_long {
            assert(text[(a.len() + b.len() + c.len()) as int] == 'q');
        }
        assert(text.contains('K') == rights.white_short);
        assert(text.contains('Q') == rights.white_long);
        assert(text.contains('k') == rights.black_short);
        assert(text.contains('q') == rights.black_long);
    }
}

/// The decimal numeral of a number stands for the number, and holds no
/// space.
pub proof fn lemma_decimal_round_trip(n: nat)
    ensures
        parse_decimal(decimal(n)) == Some(n),
        free_of(decimal(n), ' '),
        decimal(n).len() >= 1,
    decreases n,
{
    if n < 10 {
        assert(digit_value(digit_char(n as int)) == Some(n as int));
    } else {
        lemma_decimal_round_trip(n / 10);
        let text = decimal(n);
        assert(text.drop_last() =~= decimal(n / 10));
        assert(text.last() == digit_char((n % 10) as int));
        assert(digit_value(digit_char((n % 10) as int)) == Some((n % 10) as int));
    }
}

/// A text in which the separator does not occur, a separator and more
/// text: the fields are the first text and the fields of the rest.
pub proof fn lemma_fields_first(a: Seq<char>, rest: Seq<char>, sep: char)
    requires
        free_of(a, sep),
    ensures
        fields(a + seq![sep] + rest, sep) == seq![a] + fields(rest, sep),
{
    lemma_fields_single(a, sep);
    lemma_fields_join(a, rest, sep);
}

/// Six texts without a space, joined by single spaces, are the six fields
/// of what they make.
pub proof fn lemma_six_fields(
    a: Seq<char>,
    b: Seq<char>,
    c: Seq<char>,
    d: Seq<char>,
    e: Seq<char>,
    f: Seq<char>,
)
    requires
        free_of(a, ' '),
        free_of(b, ' '),
        free_of(c, ' '),
        free_of(d, ' '),
        free_of(e, ' '),
        free_of(f, ' '),
    ensures
        fields(join_fields(a, b, c, d, e, f), ' ') == seq![a, b, c, d, e, f],
{
    let r4 = e + seq![' '] + f;
    let r3 = d + seq![' '] + r4;
    let r2 = c + seq![' '] + r3;
    let r1 = b + seq![' '] + r2;
    lemma_fields_single(f, ' ');
    lemma_fields_first(e, f, ' ');
    assert(fields(r4, ' ') =~= seq![e, f]);
    lemma_fields_first(d, r4, ' ');
    assert(fields(r3, ' ') =~= seq![d, e, f]);
    lemma_fields_first(c, r3, ' ');
    assert(fields(r2, ' ') =~= seq![c, d, e, f]);
    lemma_fields_first(b, r2, ' ');
    assert(fields(r1, ' ') =~= seq![b, c, d, e, f]);
    lemma_fields_first(a, r1, ' ');
    assert(fields(a + seq![' '] + r1, ' ') =~= seq![a, b, c, d, e, f]);
}

/// The notation of a position has six fields: the piece placement, the
/// side to move, the castling rights, a dash, a zero and the number of
/// moves made.
pub proof fn lemma_fen_fields(p: Position)
    requires
        p.wf(),
    ensures
        fields(fen_text(p), ' ') == seq![
            placement_text(p.grid),
            side_text(p.player),
            castling_text(p.rights),
            seq!['-'],
            seq!['0'],
            decimal(p.ply),
        ],
{
    let a = placement_text(p.grid);
    let b = side_text(p.player);
    let c = castling_text(p.rights);
    let d = seq!['-'];
    let e = seq!['0'];
    let f = decimal(p.ply);
    lemma_placement_round_trip(p.grid);
    lemma_side_round_trip(p.player);
    lemma_castling_round_trip(p.rights);
    lemma_decimal_round_trip(p.ply);
    assert(free_of(d, ' '));
    assert(free_of(e, ' '));
    lemma_six_fields(a, b, c, d, e, f);
}

/// Reading the notation of a position gives the position back: the board,
/// the side to move, the castling rights and the number of moves made are
/// those of the position written. The move that led to the position is not
/// written and does not come back.
pub proof fn lemma_import_export_round_trip(p: Position)
    requires
        p.wf(),
        p.ply <= u32::MAX,
    ensures
        parse_fen(fen_text(p)) == Some(
            Position { grid: p.grid, player: p.player, rights: p.rights, last: None, ply: p.ply },
        ),
{
    lemma_fen_fields(p);
    lemma_placement_round_trip(p.grid);
    lemma_side_round_trip(p.player);
    lemma_castling_round_trip(p.rights);
    lemma_decimal_round_trip(p.ply);
    let f = fields(fen_text(p), ' ');
    assert(f.len() == 6);
    assert(f[0] == placement_text(p.grid));
    assert(f[1] == side_text(p.player));
    assert(f[2] == castling_text(p.rights));
    assert(f[3] == seq!['-']);
    assert(f[4] == seq!['0']);
    assert(f[5] == decimal(p.ply));
    assert(parse_decimal(seq!['0']) == Some(0nat));
    assert(is_target(seq!['-']));
}

} // verus!
