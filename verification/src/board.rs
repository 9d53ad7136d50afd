//! The board-position data model: pieces, squares, castling rights, and the
//! fully specified `Position` value that one session step works on.

use vstd::prelude::*;

verus! {

#[derive(Clone, Copy, PartialEq, Eq, Structural, Debug)]
pub enum Color {
    White,
    Black,
}

impl Color {
    pub open spec fn spec_opposite(self) -> Color {
        match self {
            Color::White => Color::Black,
            Color::Black => Color::White,
        }
    }

    pub fn opposite(self) -> (r: Color)
        ensures
            r == self.spec_opposite(),
    {
        match self {
            Color::White => Color::Black,
            Color::Black => Color::White,
        }
    }

    /// The rank index a pawn of this color promotes on.
    pub open spec fn promotion_rank(self) -> int {
        match self {
            Color::White => 7,
            Color::Black => 0,
        }
    }

    /// The rank index of this color's back rank (king and rooks at the start).
    pub open spec fn home_rank(self) -> int {
        match self {
            Color::White => 0,
            Color::Black => 7,
        }
    }
}

#[derive(Clone, Copy, PartialEq, Eq, Structural, Debug)]
pub enum PieceKind {
    Pawn,
    Knight,
    Bishop,
    Rook,
    Queen,
    King,
}

#[derive(Clone, Copy, PartialEq, Eq, Structural, Debug)]
pub struct Piece {
    pub color: Color,
    pub kind: PieceKind,
}

/// One of the 64 board squares; file 0 is the queen-side edge, rank 0 is the
/// rank the white pieces start on.
#[derive(Clone, Copy, PartialEq, Eq, Structural, Debug)]
pub struct Square {
    pub file: u8,
    pub rank: u8,
}

impl Square {
    pub open spec fn wf(self) -> bool {
        self.file < 8 && self.rank < 8
    }

    /// Index of this square in the 64-entry placement sequence.
    pub open spec fn index(self) -> int {
        self.rank * 8 + self.file
    }
}

/// The four independent castling permissions.
#[derive(Clone, Copy, PartialEq, Eq, Structural, Debug)]
pub struct CastlingRights {
    pub white_king_side: bool,
    pub white_queen_side: bool,
    pub black_king_side: bool,
    pub black_queen_side: bool,
}

impl CastlingRights {
    pub open spec fn any(self) -> bool {
        self.white_king_side || self.white_queen_side || self.black_king_side
            || self.black_queen_side
    }
}

/// The mathematical value of a `Position`: what the contracts speak about.
#[verifier::ext_equal]
pub ghost struct PositionModel {
    pub board: Seq<Option<Piece>>,
    pub to_move: Color,
    pub castling: CastlingRights,
    pub en_passant: Option<Square>,
    pub halfmove_clock: u64,
    pub fullmove_number: u64,
}

impl PositionModel {
    pub open spec fn wf(self) -> bool {
        &&& self.board.len() == 64
        &&& (self.en_passant matches Some(sq) ==> sq.wf())
        &&& self.fullmove_number >= 1
    }

    pub open spec fn at(self, sq: Square) -> Option<Piece> {
        self.board[sq.index()]
    }
}

/// One fully specified board state: piece placement for the 64 squares
/// (indexed rank-major from white's back rank), side to move, castling
/// rights, en-passant target, halfmove clock and fullmove number.
#[derive(PartialEq, Clone, Debug)]
pub struct Position {
    pub board: Vec<Option<Piece>>,
    pub to_move: Color,
    pub castling: CastlingRights,
    pub en_passant: Option<Square>,
    pub halfmove_clock: u64,
    pub fullmove_number: u64,
}

impl DeepView for Position {
    type V = PositionModel;

    open spec fn deep_view(&self) -> PositionModel {
        self.view()
    }
}

impl View for Position {
    type V = PositionModel;

    open spec fn view(&self) -> PositionModel {
        PositionModel {
            board: self.board@,
            to_move: self.to_move,
            castling: self.castling,
            en_passant: self.en_passant,
            halfmove_clock: self.halfmove_clock,
            fullmove_number: self.fullmove_number,
        }
    }
}

/// The piece standing on square `i` of the placement sequence in the
/// universally known starting arrangement.
pub open spec fn initial_piece(i: int) -> Option<Piece> {
    let rank = i / 8;
    let file = i % 8;
    if rank == 1 {
        Some(Piece { color: Color::White, kind: PieceKind::Pawn })
    } else if rank == 6 {
        Some(Piece { color: Color::Black, kind: PieceKind::Pawn })
    } else if rank == 0 || rank == 7 {
        let color = if rank == 0 {
            Color::White
        } else {
            Color::Black
        };
        let kind = if file == 0 || file == 7 {
            PieceKind::Rook
        } else if file == 1 || file == 6 {
            PieceKind::Knight
        } else if file == 2 || file == 5 {
            PieceKind::Bishop
        } else if file == 3 {
            PieceKind::Queen
        } else {
            PieceKind::King
        };
        Some(Piece { color, kind })
    } else {
        None
    }
}

/// The starting arrangement as a model value.
pub open spec fn initial_model() -> PositionModel {
    PositionModel {
        board: Seq::new(64, |i: int| initial_piece(i)),
        to_move: Color::White,
        castling: CastlingRights {
            white_king_side: true,
            white_queen_side: true,
            black_king_side: true,
            black_queen_side: true,
        },
        en_passant: None,
        halfmove_clock: 0,
        fullmove_number: 1,
    }
}

pub proof fn lemma_initial_model_wf()
    ensures
        initial_model().wf(),
{
}

/// The file letter of file index `f`: 'a' for 0 up to 'h' for 7.
pub open spec fn file_char(f: int) -> char {
    ((97 + f) as u8) as char
}

/// The rank digit of rank index `r`: '1' for 0 up to '8' for 7.
pub open spec fn rank_char(r: int) -> char {
    ((49 + r) as u8) as char
}

/// The two-character algebraic name of a square: file letter, rank digit.
pub open spec fn square_str(sq: Square) -> Seq<char> {
    seq![file_char(sq.file as int), rank_char(sq.rank as int)]
}

/// The square named by a two-character token, if it is one.
pub open spec fn parse_square(t: Seq<char>) -> Option<Square> {
    if t.len() != 2 {
        None
    } else {
        let fv = t[0] as u32;
        let rv = t[1] as u32;
        if 97 <= fv <= 104 && 49 <= rv <= 56 {
            Some(Square { file: (fv - 97) as u8, rank: (rv - 49) as u8 })
        } else {
            None
        }
    }
}

pub broadcast proof fn lemma_parse_square_wf(t: Seq<char>)
    ensures
        (#[trigger] parse_square(t)) matches Some(sq) ==> sq.wf(),
{
}

/// The square codec round-trips.
pub proof fn lemma_square_round_trip(sq: Square)
    requires
        sq.wf(),
    ensures
        parse_square(square_str(sq)) == Some(sq),
{
}

/// Reads the square named at positions `i` and `i + 1` of `t`.
pub fn read_square(t: &Vec<char>, i: usize) -> (r: Option<Square>)
    requires
        i + 2 <= t@.len(),
    ensures
        r == parse_square(t@.subrange(i as int, i + 2)),
{
    let n = t.len();
    proof {
        assert(i + 2 <= n);
        assert(t@.subrange(i as int, i + 2).len() == 2);
        assert(t@.subrange(i as int, i + 2)[0] == t@[i as int]);
        assert(t@.subrange(i as int, i + 2)[1] == t@[i + 1]);
    }
    let fv = t[i] as u32;
    let rv = t[i + 1] as u32;
    if 97 <= fv && fv <= 104 && 49 <= rv && rv <= 56 {
        Some(Square { file: (fv - 97) as u8, rank: (rv - 49) as u8 })
    } else {
        None
    }
}

/// Appends the algebraic name of `sq`.
pub fn push_square(sq: Square, out: &mut Vec<char>)
    requires
        sq.wf(),
    ensures
        final(out)@ == old(out)@ + square_str(sq),
{
    out.push((97 + sq.file) as char);
    out.push((49 + sq.rank) as char);
    proof {
        assert(final(out)@ =~= old(out)@ + square_str(sq));
    }
}

fn initial_piece_at(i: usize) -> (r: Option<Piece>)
    requires
        i < 64,
    ensures
        r == initial_piece(i as int),
{
    let rank = i / 8;
    let file = i % 8;
    if rank == 1 {
        Some(Piece { color: Color::White, kind: PieceKind::Pawn })
    } else if rank == 6 {
        Some(Piece { color: Color::Black, kind: PieceKind::Pawn })
    } else if rank == 0 || rank == 7 {
        let color = if rank == 0 {
            Color::White
        } else {
            Color::Black
        };
        let kind = if file == 0 || file == 7 {
            PieceKind::Rook
        } else if file == 1 || file == 6 {
            PieceKind::Knight
        } else if file == 2 || file == 5 {
            PieceKind::Bishop
        } else if file == 3 {
            PieceKind::Queen
        } else {
            PieceKind::King
        };
        Some(Piece { color, kind })
    } else {
        None
    }
}

impl Position {
    /// The fixed, universally known starting arrangement.
    pub fn initial() -> (r: Position)
        ensures
            r@ == initial_model(),
            r@.wf(),
    {
        let mut board: Vec<Option<Piece>> = Vec::new();
        let mut i: usize = 0;
        while i < 64
            invariant
                i <= 64,
                board@.len() == i as int,
                forall|j: int| 0 <= j < i ==> board@[j] == initial_piece(j),
            decreases 64 - i,
        {
            board.push(initial_piece_at(i));
            i += 1;
        }
        let r = Position {
            board,
            to_move: Color::White,
            castling: CastlingRights {
                white_king_side: true,
                white_queen_side: true,
                black_king_side: true,
                black_queen_side: true,
            },
            en_passant: None,
            halfmove_clock: 0,
            fullmove_number: 1,
        };
        proof {
            assert(r@.board =~= initial_model().board);
            assert(r@ =~= initial_model());
        }
        r
    }
}

} // verus!
