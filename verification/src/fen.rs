//! The six-field compact text encoding of a board position: placement,
//! side to move, castling rights, en-passant target, halfmove clock and
//! fullmove number, space-separated. Encoding and parsing round-trip.

use vstd::prelude::*;
use crate::board::{
    CastlingRights, Color, Piece, PieceKind, Position, PositionModel, Square, parse_square,
    square_str, read_square, push_square,
};
use crate::text::{
    chars_of, dec_str, digit_char, digit_val, is_digit, join_with, lemma_dec_round_trip,
    lemma_dec_str_digits, lemma_split_of_join, parse_dec, parse_u64, spec_split, split_chars,
    string_from_chars, format_u64,
};

verus! {

/// The letter a piece is written as: upper case for white, lower case for
/// black.
pub open spec fn piece_char(pc: Piece) -> char {
    match (pc.color, pc.kind) {
        (Color::White, PieceKind::Pawn) => 'P',
        (Color::White, PieceKind::Knight) => 'N',
        (Color::White, PieceKind::Bishop) => 'B',
        (Color::White, PieceKind::Rook) => 'R',
        (Color::White, PieceKind::Queen) => 'Q',
        (Color::White, PieceKind::King) => 'K',
        (Color::Black, PieceKind::Pawn) => 'p',
        (Color::Black, PieceKind::Knight) => 'n',
        (Color::Black, PieceKind::Bishop) => 'b',
        (Color::Black, PieceKind::Rook) => 'r',
        (Color::Black, PieceKind::Queen) => 'q',
        (Color::Black, PieceKind::King) => 'k',
    }
}

/// The piece a placement letter stands for, if any.
pub open spec fn piece_of_char(c: char) -> Option<Piece> {
    if c == 'P' {
        Some(Piece { color: Color::White, kind: PieceKind::Pawn })
    } else if c == 'N' {
        Some(Piece { color: Color::White, kind: PieceKind::Knight })
    } else if c == 'B' {
        Some(Piece { color: Color::White, kind: PieceKind::Bishop })
    } else if c == 'R' {
        Some(Piece { color: Color::White, kind: PieceKind::Rook })
    } else if c == 'Q' {
        Some(Piece { color: Color::White, kind: PieceKind::Queen })
    } else if c == 'K' {
        Some(Piece { color: Color::White, kind: PieceKind::King })
    } else if c == 'p' {
        Some(Piece { color: Color::Black, kind: PieceKind::Pawn })
    } else if c == 'n' {
        Some(Piece { color: Color::Black, kind: PieceKind::Knight })
    } else if c == 'b' {
        Some(Piece { color: Color::Black, kind: PieceKind::Bishop })
    } else if c == 'r' {
        Some(Piece { color: Color::Black, kind: PieceKind::Rook })
    } else if c == 'q' {
        Some(Piece { color: Color::Black, kind: PieceKind::Queen })
    } else if c == 'k' {
        Some(Piece { color: Color::Black, kind: PieceKind::King })
    } else {
        None
    }
}

/// A digit usable inside a placement rank: a run of one to eight empties.
pub open spec fn is_fen_digit(c: char) -> bool {
    49 <= c as u32 <= 56
}

proof fn lemma_piece_char_facts(pc: Piece)
    ensures
        piece_of_char(piece_char(pc)) == Some(pc),
        !is_fen_digit(piece_char(pc)),
        piece_char(pc) != ' ',
        piece_char(pc) != '/',
{
}

/// A run of `n` empty squares.
pub open spec fn empty_run(n: int) -> Seq<Option<Piece>> {
    Seq::new(n as nat, |i: int| None::<Piece>)
}

/// The digit flushed for `pending` accumulated empty squares (nothing for
/// zero).
pub open spec fn flush(pending: int) -> Seq<char> {
    if pending == 0 {
        Seq::<char>::empty()
    } else {
        seq![digit_char(pending)]
    }
}

/// One rank's text from square `i` on, with `pending` empties not yet
/// written: pieces as letters, runs of empties as single digits.
pub open spec fn rank_str_from(row: Seq<Option<Piece>>, i: int, pending: int) -> Seq<char>
    decreases 8 - i,
{
    if i >= 8 {
        flush(pending)
    } else {
        match row[i] {
            None => rank_str_from(row, i + 1, pending + 1),
            Some(pc) => flush(pending) + seq![piece_char(pc)] + rank_str_from(row, i + 1, 0),
        }
    }
}

pub open spec fn rank_str(row: Seq<Option<Piece>>) -> Seq<char> {
    rank_str_from(row, 0, 0)
}

/// The eight squares of rank `r` (rank 0 first in the placement sequence).
pub open spec fn row_of(b: Seq<Option<Piece>>, r: int) -> Seq<Option<Piece>> {
    b.subrange(r * 8, r * 8 + 8)
}

/// Placement text of ranks 7 down to `r`, separated by '/'.
pub open spec fn placement_from(b: Seq<Option<Piece>>, r: int) -> Seq<char>
    decreases 8 - r,
{
    if r >= 7 {
        rank_str(row_of(b, 7))
    } else {
        placement_from(b, r + 1) + seq!['/'] + rank_str(row_of(b, r))
    }
}

/// The placement field: ranks written top down.
pub open spec fn placement_str(b: Seq<Option<Piece>>) -> Seq<char> {
    placement_from(b, 0)
}

/// Reads one rank's text onto an accumulator of squares.
pub open spec fn parse_rank_rec(t: Seq<char>, acc: Seq<Option<Piece>>) -> Option<
    Seq<Option<Piece>>,
>
    decreases t.len(),
{
    if t.len() == 0 {
        Some(acc)
    } else if is_fen_digit(t[0]) {
        parse_rank_rec(t.drop_first(), acc + empty_run(digit_val(t[0])))
    } else {
        match piece_of_char(t[0]) {
            Some(pc) => parse_rank_rec(t.drop_first(), acc.push(Some(pc))),
            None => None,
        }
    }
}

/// Reads rank tokens, highest rank first, into a placement sequence; every
/// rank must come to exactly eight squares.
pub open spec fn parse_ranks(rs: Seq<Seq<char>>) -> Option<Seq<Option<Piece>>>
    decreases rs.len(),
{
    if rs.len() == 0 {
        Some(Seq::<Option<Piece>>::empty())
    } else {
        match (parse_ranks(rs.drop_first()), parse_rank_rec(rs[0], Seq::empty())) {
            (Some(rest), Some(row)) => if row.len() == 8 {
                Some(rest + row)
            } else {
                None
            },
            _ => None,
        }
    }
}

/// The placement field read back: eight '/'-separated ranks.
pub open spec fn parse_placement(t: Seq<char>) -> Option<Seq<Option<Piece>>> {
    let rs = spec_split(t, '/');
    if rs.len() != 8 {
        None
    } else {
        parse_ranks(rs)
    }
}

pub open spec fn side_char(c: Color) -> char {
    match c {
        Color::White => 'w',
        Color::Black => 'b',
    }
}

pub open spec fn parse_side(t: Seq<char>) -> Option<Color> {
    if t == seq!['w'] {
        Some(Color::White)
    } else if t == seq!['b'] {
        Some(Color::Black)
    } else {
        None
    }
}

/// The castling field: '-' when no right is left, else the letters of the
/// remaining rights in the fixed order K, Q, k, q.
pub open spec fn castle_str(c: CastlingRights) -> Seq<char> {
    if !c.any() {
        seq!['-']
    } else {
        (if c.white_king_side {
            seq!['K']
        } else {
            Seq::<char>::empty()
        }) + (if c.white_queen_side {
            seq!['Q']
        } else {
            Seq::<char>::empty()
        }) + (if c.black_king_side {
            seq!['k']
        } else {
            Seq::<char>::empty()
        }) + (if c.black_queen_side {
            seq!['q']
        } else {
            Seq::<char>::empty()
        })
    }
}

pub open spec fn parse_castle_rec(t: Seq<char>, acc: CastlingRights) -> Option<CastlingRights>
    decreases t.len(),
{
    if t.len() == 0 {
        Some(acc)
    } else if t[0] == 'K' {
        parse_castle_rec(t.drop_first(), CastlingRights { white_king_side: true, ..acc })
    } else if t[0] == 'Q' {
        parse_castle_rec(t.drop_first(), CastlingRights { white_queen_side: true, ..acc })
    } else if t[0] == 'k' {
        parse_castle_rec(t.drop_first(), CastlingRights { black_king_side: true, ..acc })
    } else if t[0] == 'q' {
        parse_castle_rec(t.drop_first(), CastlingRights { black_queen_side: true, ..acc })
    } else {
        None
    }
}

pub open spec fn no_rights() -> CastlingRights {
    CastlingRights {
        white_king_side: false,
        white_queen_side: false,
        black_king_side: false,
        black_queen_side: false,
    }
}

pub open spec fn parse_castle(t: Seq<char>) -> Option<CastlingRights> {
    if t == seq!['-'] {
        Some(no_rights())
    } else if t.len() == 0 {
        None
    } else {
        parse_castle_rec(t, no_rights())
    }
}

/// The en-passant field: '-' or the target square's name.
pub open spec fn ep_str(e: Option<Square>) -> Seq<char> {
    match e {
        None => seq!['-'],
        Some(sq) => square_str(sq),
    }
}

pub open spec fn parse_ep(t: Seq<char>) -> Option<Option<Square>> {
    if t == seq!['-'] {
        Some(None)
    } else {
        match parse_square(t) {
            Some(sq) => Some(Some(sq)),
            None => None,
        }
    }
}

/// The full six-field encoding of a position.
pub open spec fn fen_of(p: PositionModel) -> Seq<char> {
    placement_str(p.board) + seq![' '] + seq![side_char(p.to_move)] + seq![' '] + castle_str(
        p.castling,
    ) + seq![' '] + ep_str(p.en_passant) + seq![' '] + dec_str(p.halfmove_clock as int) + seq![' ']
        + dec_str(p.fullmove_number as int)
}

/// The position a six-field encoding describes, if well formed.
pub open spec fn parse_fen(s: Seq<char>) -> Option<PositionModel> {
    let fields = spec_split(s, ' ');
    if fields.len() != 6 {
        None
    } else {
        match (
            parse_placement(fields[0]),
            parse_side(fields[1]),
            parse_castle(fields[2]),
            parse_ep(fields[3]),
            parse_dec(fields[4]),
            parse_dec(fields[5]),
        ) {
            (Some(board), Some(to_move), Some(castling), Some(en_passant), Some(h), Some(f)) => {
                if f >= 1 {
                    Some(
                        PositionModel {
                            board,
                            to_move,
                            castling,
                            en_passant,
                            halfmove_clock: h,
                            fullmove_number: f,
                        },
                    )
                } else {
                    None
                }
            },
            _ => None,
        }
    }
}

proof fn lemma_rank_str_chars(row: Seq<Option<Piece>>, i: int, pending: int)
    requires
        0 <= pending <= i <= 8,
    ensures
        forall|j: int|
            0 <= j < rank_str_from(row, i, pending).len() ==> (#[trigger] rank_str_from(
                row,
                i,
                pending,
            )[j]) != ' ' && rank_str_from(row, i, pending)[j] != '/',
    decreases 8 - i,
{
    let t = rank_str_from(row, i, pending);
    if i >= 8 {
    } else {
        match row[i] {
            None => {
                lemma_rank_str_chars(row, i + 1, pending + 1);
                assert forall|j: int| 0 <= j < t.len() implies t[j] != ' ' && t[j] != '/' by {
                    assert(t[j] == rank_str_from(row, i + 1, pending + 1)[j]);
                }
            },
            Some(pc) => {
                lemma_piece_char_facts(pc);
                lemma_rank_str_chars(row, i + 1, 0);
                let a = flush(pending);
                let rest = rank_str_from(row, i + 1, 0);
                assert forall|j: int| 0 <= j < t.len() implies t[j] != ' ' && t[j] != '/' by {
                    if j < a.len() {
                        assert(t[j] == digit_char(pending));
                    } else if j == a.len() {
                        assert(t[j] == piece_char(pc));
                    } else {
                        assert(t[j] == rest[j - a.len() - 1]);
                    }
                }
            },
        }
    }
}

proof fn lemma_placement_chars(b: Seq<Option<Piece>>, r: int)
    ensures
        forall|j: int|
            0 <= j < placement_from(b, r).len() ==> (#[trigger] placement_from(b, r)[j]) != ' ',
    decreases 8 - r,
{
    let t = placement_from(b, r);
    if r >= 7 {
        lemma_rank_str_chars(row_of(b, 7), 0, 0);
        assert forall|j: int| 0 <= j < t.len() implies t[j] != ' ' by {
            assert(t[j] == rank_str_from(row_of(b, 7), 0, 0)[j]);
        }
    } else {
        lemma_placement_chars(b, r + 1);
        lemma_rank_str_chars(row_of(b, r), 0, 0);
        let a = placement_from(b, r + 1);
        let rest = rank_str_from(row_of(b, r), 0, 0);
        assert forall|j: int| 0 <= j < t.len() implies t[j] != ' ' by {
            if j < a.len() {
                assert(t[j] == a[j]);
            } else if j == a.len() {
                assert(t[j] == '/');
            } else {
                assert(t[j] == rest[j - a.len() - 1]);
            }
        }
    }
}

/// The rank codec round-trips, one rank at a time.
#[verifier::rlimit(100)]
proof fn lemma_rank_round_trip(row: Seq<Option<Piece>>, i: int, pending: int, acc: Seq<
    Option<Piece>,
>)
    requires
        row.len() == 8,
        0 <= pending <= i <= 8,
    ensures
        parse_rank_rec(rank_str_from(row, i, pending), acc) == Some(
            acc + empty_run(pending) + row.skip(i),
        ),
    decreases 8 - i,
{
    if i >= 8 {
        if pending == 0 {
            assert(acc + empty_run(0) + row.skip(8) =~= acc);
            assert(rank_str_from(row, i, pending) =~= Seq::<char>::empty());
        } else {
            let c = digit_char(pending);
            assert(is_fen_digit(c) && digit_val(c) == pending);
            assert(seq![c].drop_first() =~= Seq::<char>::empty());
            assert(parse_rank_rec(seq![c], acc) == parse_rank_rec(
                Seq::<char>::empty(),
                acc + empty_run(pending),
            ));
            assert(acc + empty_run(pending) + row.skip(8) =~= acc + empty_run(pending));
        }
    } else {
        match row[i] {
            None => {
                lemma_rank_round_trip(row, i + 1, pending + 1, acc);
                assert(acc + empty_run(pending + 1) + row.skip(i + 1) =~= acc + empty_run(pending)
                    + row.skip(i));
            },
            Some(pc) => {
                lemma_piece_char_facts(pc);
                let acc2 = acc + empty_run(pending);
                lemma_rank_round_trip(row, i + 1, 0, acc2 + seq![Some(pc)]);
                let t = rank_str_from(row, i, pending);
                let rest = rank_str_from(row, i + 1, 0);
                let after = seq![piece_char(pc)] + rest;
                if pending == 0 {
                    assert(t =~= after);
                    assert(acc2 =~= acc);
                } else {
                    let c = digit_char(pending);
                    assert(is_fen_digit(c) && digit_val(c) == pending);
                    assert(t[0] == c);
                    assert(t.drop_first() =~= after);
                    assert(parse_rank_rec(t, acc) == parse_rank_rec(after, acc2));
                }
                assert(after[0] == piece_char(pc));
                assert(after.drop_first() =~= rest);
                assert(parse_rank_rec(after, acc2) == parse_rank_rec(rest, acc2.push(Some(pc))));
                assert(acc2.push(Some(pc)) =~= acc2 + seq![Some(pc)]);
                assert(parse_rank_rec(rest, acc2 + seq![Some(pc)]) == Some(
                    acc2 + seq![Some(pc)] + empty_run(0) + row.skip(i + 1),
                ));
                assert(acc2 + seq![Some(pc)] + empty_run(0) + row.skip(i + 1) =~= acc
                    + empty_run(pending) + row.skip(i));
            },
        }
    }
}

/// The rank tokens of a placement, highest rank first.
pub open spec fn rank_tokens(b: Seq<Option<Piece>>) -> Seq<Seq<char>> {
    Seq::new(8, |k: int| rank_str(row_of(b, 7 - k)))
}

proof fn lemma_placement_join(b: Seq<Option<Piece>>, r: int)
    requires
        0 <= r <= 7,
    ensures
        placement_from(b, r) == join_with(rank_tokens(b).take(8 - r), '/'),
    decreases 8 - r,
{
    if r == 7 {
        assert(rank_tokens(b).take(1) =~= seq![rank_str(row_of(b, 7))]);
    } else {
        lemma_placement_join(b, r + 1);
        let ts = rank_tokens(b).take(8 - r);
        assert(ts.drop_last() =~= rank_tokens(b).take(7 - r));
        assert(ts.last() == rank_str(row_of(b, r)));
    }
}

proof fn lemma_parse_ranks_round_trip(b: Seq<Option<Piece>>, k: int)
    requires
        b.len() == 64,
        0 <= k <= 8,
    ensures
        parse_ranks(rank_tokens(b).skip(k)) == Some(b.subrange(0, (8 - k) * 8)),
    decreases 8 - k,
{
    let ts = rank_tokens(b);
    if k == 8 {
        assert(ts.skip(8) =~= Seq::<Seq<char>>::empty());
        assert(b.subrange(0, 0) =~= Seq::<Option<Piece>>::empty());
    } else {
        lemma_parse_ranks_round_trip(b, k + 1);
        assert(ts.skip(k).drop_first() =~= ts.skip(k + 1));
        assert(ts.skip(k)[0] == rank_str(row_of(b, 7 - k)));
        lemma_rank_round_trip(row_of(b, 7 - k), 0, 0, Seq::empty());
        assert(Seq::empty() + empty_run(0) + row_of(b, 7 - k).skip(0) =~= row_of(b, 7 - k));
        assert(b.subrange(0, (7 - k) * 8) + row_of(b, 7 - k) =~= b.subrange(0, (8 - k) * 8));
    }
}

proof fn lemma_placement_round_trip(b: Seq<Option<Piece>>)
    requires
        b.len() == 64,
    ensures
        parse_placement(placement_str(b)) == Some(b),
{
    lemma_placement_join(b, 0);
    assert(rank_tokens(b).take(8) =~= rank_tokens(b));
    assert forall|i: int, j: int|
        0 <= i < rank_tokens(b).len() && 0 <= j < rank_tokens(b)[i].len() implies rank_tokens(
        b,
    )[i][j] != '/' by {
        lemma_rank_str_chars(row_of(b, 7 - i), 0, 0);
    }
    lemma_split_of_join(rank_tokens(b), '/');
    lemma_parse_ranks_round_trip(b, 0);
    assert(rank_tokens(b).skip(0) =~= rank_tokens(b));
    assert(b.subrange(0, 64) =~= b);
}

proof fn lemma_castle_round_trip(c: CastlingRights)
    ensures
        parse_castle(castle_str(c)) == Some(c),
        forall|j: int|
            0 <= j < castle_str(c).len() ==> (#[trigger] castle_str(c)[j]) != ' ',
{
    reveal_with_fuel(parse_castle_rec, 6);
    if !c.any() {
        assert(castle_str(c) == seq!['-']);
        assert(no_rights() == c);
    } else {
        assert(parse_castle_rec(castle_str(c), no_rights()) == Some(c));
        assert(castle_str(c) != seq!['-']) by {
            assert(castle_str(c)[0] == 'K' || castle_str(c)[0] == 'Q' || castle_str(c)[0] == 'k'
                || castle_str(c)[0] == 'q');
        }
        assert(castle_str(c).len() != 0);
    }
}

/// Encoding a well-formed position and parsing the text back returns the
/// position unchanged.
pub proof fn lemma_fen_round_trip(p: PositionModel)
    requires
        p.wf(),
    ensures
        parse_fen(fen_of(p)) == Some(p),
{
    let fields = seq![
        placement_str(p.board),
        seq![side_char(p.to_move)],
        castle_str(p.castling),
        ep_str(p.en_passant),
        dec_str(p.halfmove_clock as int),
        dec_str(p.fullmove_number as int),
    ];
    assert(fen_of(p) == join_with(fields, ' ')) by {
        reveal_with_fuel(join_with, 7);
        assert(fields.drop_last() =~= fields.take(5));
        assert(join_with(fields, ' ') =~= fen_of(p));
    }
    assert forall|i: int, j: int|
        0 <= i < fields.len() && 0 <= j < fields[i].len() implies fields[i][j] != ' ' by {
        if i == 0 {
            lemma_placement_chars(p.board, 0);
        } else if i == 2 {
            lemma_castle_round_trip(p.castling);
        } else if i == 4 {
            lemma_dec_str_digits(p.halfmove_clock as int);
            assert(is_digit(fields[4][j]));
        } else if i == 5 {
            lemma_dec_str_digits(p.fullmove_number as int);
            assert(is_digit(fields[5][j]));
        }
    }
    lemma_split_of_join(fields, ' ');
    lemma_placement_round_trip(p.board);
    lemma_castle_round_trip(p.castling);
    lemma_dec_round_trip(p.halfmove_clock);
    lemma_dec_round_trip(p.fullmove_number);
    assert(parse_side(seq![side_char(p.to_move)]) == Some(p.to_move)) by {
        match p.to_move {
            Color::White => {
                assert(seq![side_char(p.to_move)] =~= seq!['w']);
            },
            Color::Black => {
                assert(seq![side_char(p.to_move)] =~= seq!['b']);
                assert(seq!['b'] != seq!['w']) by {
                    assert(seq!['b'][0] == 'b' && seq!['w'][0] == 'w');
                }
            },
        }
    }
    assert(parse_ep(ep_str(p.en_passant)) == Some(p.en_passant)) by {
        match p.en_passant {
            None => {},
            Some(sq) => {
                crate::board::lemma_square_round_trip(sq);
                assert(square_str(sq) != seq!['-']) by {
                    assert(square_str(sq)[0] as u32 >= 97);
                }
            },
        }
    }
    match parse_fen(fen_of(p)) {
        Some(q) => {
            assert(q =~= p);
        },
        None => {
            assert(false);
        },
    }
}

fn piece_from_char(c: char) -> (r: Option<Piece>)
    ensures
        r == piece_of_char(c),
{
    if c == 'P' {
        Some(Piece { color: Color::White, kind: PieceKind::Pawn })
    } else if c == 'N' {
        Some(Piece { color: Color::White, kind: PieceKind::Knight })
    } else if c == 'B' {
        Some(Piece { color: Color::White, kind: PieceKind::Bishop })
    } else if c == 'R' {
        Some(Piece { color: Color::White, kind: PieceKind::Rook })
    } else if c == 'Q' {
        Some(Piece { color: Color::White, kind: PieceKind::Queen })
    } else if c == 'K' {
        Some(Piece { color: Color::White, kind: PieceKind::King })
    } else if c == 'p' {
        Some(Piece { color: Color::Black, kind: PieceKind::Pawn })
    } else if c == 'n' {
        Some(Piece { color: Color::Black, kind: PieceKind::Knight })
    } else if c == 'b' {
        Some(Piece { color: Color::Black, kind: PieceKind::Bishop })
    } else if c == 'r' {
        Some(Piece { color: Color::Black, kind: PieceKind::Rook })
    } else if c == 'q' {
        Some(Piece { color: Color::Black, kind: PieceKind::Queen })
    } else if c == 'k' {
        Some(Piece { color: Color::Black, kind: PieceKind::King })
    } else {
        None
    }
}

fn char_of_piece(pc: Piece) -> (c: char)
    ensures
        c == piece_char(pc),
{
    match (pc.color, pc.kind) {
        (Color::White, PieceKind::Pawn) => 'P',
        (Color::White, PieceKind::Knight) => 'N',
        (Color::White, PieceKind::Bishop) => 'B',
        (Color::White, PieceKind::Rook) => 'R',
        (Color::White, PieceKind::Queen) => 'Q',
        (Color::White, PieceKind::King) => 'K',
        (Color::Black, PieceKind::Pawn) => 'p',
        (Color::Black, PieceKind::Knight) => 'n',
        (Color::Black, PieceKind::Bishop) => 'b',
        (Color::Black, PieceKind::Rook) => 'r',
        (Color::Black, PieceKind::Queen) => 'q',
        (Color::Black, PieceKind::King) => 'k',
    }
}

fn parse_rank_chars(t: &Vec<char>) -> (r: Option<Vec<Option<Piece>>>)
    ensures
        match r {
            Some(v) => parse_rank_rec(t@, Seq::empty()) == Some(v@),
            None => parse_rank_rec(t@, Seq::empty()) is None,
        },
{
    let mut acc: Vec<Option<Piece>> = Vec::new();
    let mut i: usize = 0;
    proof {
        assert(t@.skip(0) =~= t@);
    }
    while i < t.len()
        invariant
            i <= t@.len(),
            parse_rank_rec(t@, Seq::empty()) == parse_rank_rec(t@.skip(i as int), acc@),
        decreases t@.len() - i,
    {
        let c = t[i];
        proof {
            assert(t@.skip(i as int)[0] == c);
            assert(t@.skip(i as int).drop_first() =~= t@.skip(i as int + 1));
        }
        let cv = c as u32;
        if 49 <= cv && cv <= 56 {
            let d = (cv - 48) as usize;
            let ghost acc0 = acc@;
            let mut k: usize = 0;
            while k < d
                invariant
                    k <= d,
                    acc@ == acc0 + empty_run(k as int),
                decreases d - k,
            {
                acc.push(None);
                k += 1;
                proof {
                    assert(acc@ =~= acc0 + empty_run(k as int));
                }
            }
            proof {
                assert(is_fen_digit(c) && digit_val(c) == d as int);
            }
        } else {
            match piece_from_char(c) {
                Some(pc) => {
                    proof {
                        assert(!is_fen_digit(c));
                    }
                    acc.push(Some(pc));
                },
                None => {
                    proof {
                        assert(!is_fen_digit(c));
                    }
                    return None;
                },
            }
        }
        i += 1;
    }
    proof {
        assert(t@.skip(t@.len() as int) =~= Seq::<char>::empty());
    }
    Some(acc)
}

proof fn lemma_parse_ranks_suffix_none(rs: Seq<Seq<char>>, j: int)
    requires
        0 <= j <= rs.len(),
        parse_ranks(rs.skip(j)) is None,
    ensures
        parse_ranks(rs) is None,
    decreases j,
{
    if j > 0 {
        assert(rs.skip(j - 1).drop_first() =~= rs.skip(j));
        lemma_parse_ranks_suffix_none(rs, j - 1);
    } else {
        assert(rs.skip(0) =~= rs);
    }
}

fn parse_placement_chars(t: &Vec<char>) -> (r: Option<Vec<Option<Piece>>>)
    ensures
        match r {
            Some(v) => parse_placement(t@) == Some(v@) && v@.len() == 64,
            None => parse_placement(t@) is None,
        },
{
    let rs = split_chars(t, '/');
    let ghost rsv = rs.deep_view();
    if rs.len() != 8 {
        return None;
    }
    let mut board: Vec<Option<Piece>> = Vec::new();
    let mut j: usize = 8;
    proof {
        assert(rsv.skip(8) =~= Seq::<Seq<char>>::empty());
    }
    while j > 0
        invariant
            j <= 8,
            rs@.len() == 8,
            rsv == rs.deep_view(),
            rsv == spec_split(t@, '/'),
            rsv.len() == 8,
            parse_ranks(rsv.skip(j as int)) == Some(board@),
            board@.len() == 8 * (8 - j),
        decreases j,
    {
        j -= 1;
        proof {
            assert(rsv.skip(j as int).drop_first() =~= rsv.skip(j as int + 1));
            assert(rsv.skip(j as int)[0] == rs@[j as int]@);
        }
        let row = parse_rank_chars(&rs[j]);
        match row {
            None => {
                proof {
                    assert(rsv.len() == 8);
                    assert(parse_rank_rec(rsv.skip(j as int)[0], Seq::empty()) is None);
                    assert(parse_ranks(rsv.skip(j as int)) is None);
                    lemma_parse_ranks_suffix_none(rsv, j as int);
                    assert(parse_ranks(rsv) is None);
                    assert(parse_placement(t@) is None);
                }
                return None;
            },
            Some(mut v) => {
                if v.len() != 8 {
                    proof {
                        assert(parse_rank_rec(rsv.skip(j as int)[0], Seq::empty()) == Some(v@));
                        assert(parse_ranks(rsv.skip(j as int)) is None);
                        lemma_parse_ranks_suffix_none(rsv, j as int);
                        assert(parse_placement(t@) is None);
                    }
                    return None;
                }
                board.append(&mut v);
            },
        }
    }
    proof {
        assert(rsv.skip(0) =~= rsv);
    }
    Some(board)
}

fn parse_castle_chars(t: &Vec<char>) -> (r: Option<CastlingRights>)
    ensures
        r == parse_castle(t@),
{
    if t.len() == 1 && t[0] == '-' {
        proof {
            assert(t@ =~= seq!['-']);
        }
        return Some(
            CastlingRights {
                white_king_side: false,
                white_queen_side: false,
                black_king_side: false,
                black_queen_side: false,
            },
        );
    }
    proof {
        if t@ == seq!['-'] {
            assert(t@.len() == 1 && t@[0] == '-');
        }
        assert(t@ != seq!['-']);
    }
    if t.len() == 0 {
        return None;
    }
    let mut acc = CastlingRights {
        white_king_side: false,
        white_queen_side: false,
        black_king_side: false,
        black_queen_side: false,
    };
    let mut i: usize = 0;
    proof {
        assert(t@.skip(0) =~= t@);
    }
    while i < t.len()
        invariant
            i <= t@.len(),
            t@.len() > 0,
            t@ != seq!['-'],
            parse_castle_rec(t@, no_rights()) == parse_castle_rec(t@.skip(i as int), acc),
        decreases t@.len() - i,
    {
        let c = t[i];
        proof {
            assert(t@.skip(i as int)[0] == c);
            assert(t@.skip(i as int).drop_first() =~= t@.skip(i as int + 1));
        }
        if c == 'K' {
            acc = CastlingRights { white_king_side: true, ..acc };
        } else if c == 'Q' {
            acc = CastlingRights { white_queen_side: true, ..acc };
        } else if c == 'k' {
            acc = CastlingRights { black_king_side: true, ..acc };
        } else if c == 'q' {
            acc = CastlingRights { black_queen_side: true, ..acc };
        } else {
            proof {
                assert(parse_castle_rec(t@.skip(i as int), acc) is None);
                assert(parse_castle_rec(t@, no_rights()) is None);
                assert(t@ != seq!['-']);
                assert(parse_castle(t@) is None);
            }
            return None;
        }
        i += 1;
    }
    proof {
        assert(t@.skip(t@.len() as int) =~= Seq::<char>::empty());
    }
    Some(acc)
}

fn parse_ep_chars(t: &Vec<char>) -> (r: Option<Option<Square>>)
    ensures
        r == parse_ep(t@),
{
    if t.len() == 1 && t[0] == '-' {
        proof {
            assert(t@ =~= seq!['-']);
        }
        return Some(None);
    }
    proof {
        if t@ == seq!['-'] {
            assert(t@.len() == 1 && t@[0] == '-');
        }
    }
    if t.len() != 2 {
        return None;
    }
    proof {
        assert(t@.subrange(0, 2) =~= t@);
    }
    match read_square(t, 0) {
        Some(sq) => Some(Some(sq)),
        None => None,
    }
}

/// Any text in the image of the encoder parses, and re-encoding what it
/// parses to gives the very same text: the codec round-trips on valid
/// encodings.
pub proof fn lemma_encode_after_parse(s: Seq<char>)
    requires
        exists|p: PositionModel| p.wf() && s == fen_of(p),
    ensures
        parse_fen(s) is Some,
        fen_of(parse_fen(s)->Some_0) == s,
        parse_fen(s)->Some_0.wf(),
{
    let p = choose|p: PositionModel| p.wf() && s == fen_of(p);
    lemma_fen_round_trip(p);
}

fn push_rank(b: &Vec<Option<Piece>>, r: usize, out: &mut Vec<char>)
    requires
        b@.len() == 64,
        r < 8,
    ensures
        final(out)@ == old(out)@ + rank_str(row_of(b@, r as int)),
{
    let ghost row = row_of(b@, r as int);
    let mut pending: usize = 0;
    let mut f: usize = 0;
    while f < 8
        invariant
            f <= 8,
            pending <= f,
            r < 8,
            b@.len() == 64,
            row == row_of(b@, r as int),
            old(out)@ + rank_str_from(row, 0, 0) == out@ + rank_str_from(
                row,
                f as int,
                pending as int,
            ),
        decreases 8 - f,
    {
        proof {
            assert(row[f as int] == b@[r * 8 + f]);
        }
        match b[r * 8 + f] {
            None => {
                pending += 1;
            },
            Some(pc) => {
                let ghost o0 = out@;
                let ghost p0 = pending as int;
                if pending > 0 {
                    out.push((48 + pending as u8) as char);
                    pending = 0;
                }
                out.push(char_of_piece(pc));
                proof {
                    assert(out@ =~= o0 + flush(p0) + seq![piece_char(pc)]);
                    assert(rank_str_from(row, f as int, p0) == flush(p0) + seq![piece_char(pc)]
                        + rank_str_from(row, f as int + 1, 0));
                    assert(o0 + (flush(p0) + seq![piece_char(pc)] + rank_str_from(
                        row,
                        f as int + 1,
                        0,
                    )) =~= (o0 + flush(p0) + seq![piece_char(pc)]) + rank_str_from(
                        row,
                        f as int + 1,
                        0,
                    ));
                }
            },
        }
        f += 1;
    }
    if pending > 0 {
        out.push((48 + pending as u8) as char);
    }
    proof {
        assert(final(out)@ =~= old(out)@ + rank_str(row));
    }
}

fn push_castle(c: CastlingRights, out: &mut Vec<char>)
    ensures
        final(out)@ == old(out)@ + castle_str(c),
{
    if !(c.white_king_side || c.white_queen_side || c.black_king_side || c.black_queen_side) {
        out.push('-');
        proof {
            assert(final(out)@ =~= old(out)@ + castle_str(c));
        }
    } else {
        if c.white_king_side {
            out.push('K');
        }
        proof {
            assert(out@ =~= old(out)@ + (if c.white_king_side {
                seq!['K']
            } else {
                Seq::<char>::empty()
            }));
        }
        if c.white_queen_side {
            out.push('Q');
        }
        proof {
            assert(out@ =~= old(out)@ + (if c.white_king_side {
                seq!['K']
            } else {
                Seq::<char>::empty()
            }) + (if c.white_queen_side {
                seq!['Q']
            } else {
                Seq::<char>::empty()
            }));
        }
        if c.black_king_side {
            out.push('k');
        }
        proof {
            assert(out@ =~= old(out)@ + (if c.white_king_side {
                seq!['K']
            } else {
                Seq::<char>::empty()
            }) + (if c.white_queen_side {
                seq!['Q']
            } else {
                Seq::<char>::empty()
            }) + (if c.black_king_side {
                seq!['k']
            } else {
                Seq::<char>::empty()
            }));
        }
        if c.black_queen_side {
            out.push('q');
        }
        proof {
            assert(final(out)@ =~= old(out)@ + castle_str(c));
        }
    }
}

impl Position {
    /// Parses a six-field board description into a position; any malformed
    /// field is surfaced as an error, never defaulted.
    pub fn from_fen(s: &str) -> (r: Result<Position, String>)
        ensures
            r matches Ok(p) ==> parse_fen(s@) == Some(p@) && p@.wf(),
            r is Err <==> parse_fen(s@) is None,
    {
        let cs = chars_of(s);
        let fields = split_chars(&cs, ' ');
        let ghost fv = fields.deep_view();
        if fields.len() != 6 {
            return Err(String::from_str("board description must have six fields"));
        }
        proof {
            assert(fv[0] == fields@[0]@);
            assert(fv[1] == fields@[1]@);
            assert(fv[2] == fields@[2]@);
            assert(fv[3] == fields@[3]@);
            assert(fv[4] == fields@[4]@);
            assert(fv[5] == fields@[5]@);
        }
        let board = match parse_placement_chars(&fields[0]) {
            Some(b) => b,
            None => {
                return Err(String::from_str("malformed piece placement"));
            },
        };
        let side = &fields[1];
        let to_move = if side.len() == 1 && side[0] == 'w' {
            proof {
                assert(fv[1] =~= seq!['w']);
            }
            Color::White
        } else if side.len() == 1 && side[0] == 'b' {
            proof {
                assert(fv[1] =~= seq!['b']);
                assert(seq!['b'][0] == 'b' && seq!['w'][0] == 'w');
            }
            Color::Black
        } else {
            proof {
                if fv[1] == seq!['w'] {
                    assert(fv[1].len() == 1 && fv[1][0] == 'w');
                }
                if fv[1] == seq!['b'] {
                    assert(fv[1].len() == 1 && fv[1][0] == 'b');
                }
            }
            return Err(String::from_str("malformed side to move"));
        };
        let castling = match parse_castle_chars(&fields[2]) {
            Some(c) => c,
            None => {
                return Err(String::from_str("malformed castling rights"));
            },
        };
        let en_passant = match parse_ep_chars(&fields[3]) {
            Some(e) => e,
            None => {
                return Err(String::from_str("malformed en-passant target"));
            },
        };
        let halfmove_clock = match parse_u64(&fields[4]) {
            Some(h) => h,
            None => {
                return Err(String::from_str("malformed halfmove clock"));
            },
        };
        let fullmove_number = match parse_u64(&fields[5]) {
            Some(f) => f,
            None => {
                return Err(String::from_str("malformed fullmove number"));
            },
        };
        if fullmove_number < 1 {
            return Err(String::from_str("fullmove number must be positive"));
        }
        let p = Position { board, to_move, castling, en_passant, halfmove_clock, fullmove_number };
        proof {
            assert(parse_fen(s@) matches Some(q) && q =~= p@);
            match p@.en_passant {
                Some(sq) => {
                    crate::board::lemma_parse_square_wf(fv[3]);
                },
                None => {},
            }
            assert(p@.wf());
        }
        Ok(p)
    }

    /// Renders the six-field description of this position; parsing it back
    /// returns the position unchanged.
    pub fn to_fen(&self) -> (r: String)
        requires
            self@.wf(),
        ensures
            r@ == fen_of(self@),
    {
        let mut out: Vec<char> = Vec::new();
        let mut k: usize = 0;
        while k < 8
            invariant
                k <= 8,
                self@.wf(),
                k == 0 ==> out@ == Seq::<char>::empty(),
                k >= 1 ==> out@ == placement_from(self@.board, 8 - k),
            decreases 8 - k,
        {
            let r = 7 - k;
            if k > 0 {
                out.push('/');
            }
            push_rank(&self.board, r, &mut out);
            k += 1;
            proof {
                if k > 1 {
                    assert(out@ =~= placement_from(self@.board, 8 - k));
                }
            }
        }
        let ghost o_placement = out@;
        proof {
            assert(o_placement == placement_str(self@.board));
        }
        out.push(' ');
        match self.to_move {
            Color::White => out.push('w'),
            Color::Black => out.push('b'),
        }
        let ghost o_side = out@;
        proof {
            assert(o_side =~= o_placement + seq![' '] + seq![side_char(self@.to_move)]);
        }
        out.push(' ');
        push_castle(self.castling, &mut out);
        let ghost o_castle = out@;
        out.push(' ');
        match self.en_passant {
            None => out.push('-'),
            Some(sq) => push_square(sq, &mut out),
        }
        let ghost o_ep = out@;
        proof {
            assert(o_ep =~= o_castle + seq![' '] + ep_str(self@.en_passant));
        }
        out.push(' ');
        let mut h = format_u64(self.halfmove_clock);
        out.append(&mut h);
        out.push(' ');
        let mut f = format_u64(self.fullmove_number);
        out.append(&mut f);
        proof {
            assert(out@ =~= fen_of(self@));
        }
        string_from_chars(&out)
    }
}

} // verus!
