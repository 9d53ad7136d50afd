//! One ply and what it does to a position: the compact move-token codec and
//! the operation that applies an already-known-legal move.

use vstd::prelude::*;
use crate::board::{
    CastlingRights, Color, Piece, PieceKind, Position, PositionModel, Square, parse_square,
    square_str, read_square, push_square,
};
use crate::text::{chars_of, string_from_chars};

verus! {

/// One ply: origin square, destination square, and the promotion kind when
/// the move promotes a pawn.
#[derive(Clone, Copy, PartialEq, Eq, Structural, Debug)]
pub struct ChessMove {
    pub origin: Square,
    pub destination: Square,
    pub promotion: Option<PieceKind>,
}

impl ChessMove {
    pub open spec fn wf(self) -> bool {
        self.origin.wf() && self.destination.wf()
    }
}

/// The lower-case letter of a promotion target.
pub open spec fn promo_char(k: PieceKind) -> char {
    match k {
        PieceKind::Queen => 'q',
        PieceKind::Rook => 'r',
        PieceKind::Bishop => 'b',
        PieceKind::Knight => 'n',
        _ => 'q',
    }
}

/// The promotion target a letter stands for; only queen, rook, bishop and
/// knight can be promoted to.
pub open spec fn promo_kind_of_char(c: char) -> Option<PieceKind> {
    if c == 'q' {
        Some(PieceKind::Queen)
    } else if c == 'r' {
        Some(PieceKind::Rook)
    } else if c == 'b' {
        Some(PieceKind::Bishop)
    } else if c == 'n' {
        Some(PieceKind::Knight)
    } else {
        None
    }
}

/// A promotion letter is in place exactly when a pawn moves onto its
/// promotion rank.
pub open spec fn promotion_permitted(p: PositionModel, origin: Square, dest: Square) -> bool {
    match p.at(origin) {
        Some(pc) => pc.kind == PieceKind::Pawn && dest.rank == pc.color.promotion_rank(),
        None => false,
    }
}

/// The text of a move: both squares, then the promotion letter if the move
/// carries one.
pub open spec fn move_str(m: ChessMove) -> Seq<char> {
    square_str(m.origin) + square_str(m.destination) + (match m.promotion {
        None => Seq::<char>::empty(),
        Some(k) => seq![promo_char(k)],
    })
}

/// The move a four- or five-character token names, read against the position
/// it will be played in; the position only decides whether the promotion
/// letter is permitted.
pub open spec fn parse_move(t: Seq<char>, p: PositionModel) -> Option<ChessMove> {
    if t.len() != 4 && t.len() != 5 {
        None
    } else {
        match (parse_square(t.subrange(0, 2)), parse_square(t.subrange(2, 4))) {
            (Some(o), Some(d)) => {
                if t.len() == 4 {
                    Some(ChessMove { origin: o, destination: d, promotion: None })
                } else {
                    match promo_kind_of_char(t[4]) {
                        Some(k) => if promotion_permitted(p, o, d) {
                            Some(ChessMove { origin: o, destination: d, promotion: Some(k) })
                        } else {
                            None
                        },
                        None => None,
                    }
                }
            },
            _ => None,
        }
    }
}

/// A pawn stepping two ranks straight ahead from its current square.
pub open spec fn is_double_pawn_advance(p: PositionModel, m: ChessMove) -> bool {
    match p.at(m.origin) {
        Some(pc) => pc.kind == PieceKind::Pawn && m.origin.file == m.destination.file && (
        m.destination.rank - m.origin.rank == 2 || m.origin.rank - m.destination.rank == 2),
        None => false,
    }
}

/// The square a double pawn advance skips over.
pub open spec fn ep_square(m: ChessMove) -> Square {
    Square { file: m.origin.file, rank: ((m.origin.rank + m.destination.rank) / 2) as u8 }
}

/// A pawn capturing onto the en-passant target square.
pub open spec fn is_ep_capture(p: PositionModel, m: ChessMove) -> bool {
    match p.at(m.origin) {
        Some(pc) => pc.kind == PieceKind::Pawn && p.en_passant == Some(m.destination)
            && m.origin.file != m.destination.file,
        None => false,
    }
}

/// The square of the pawn an en-passant capture removes.
pub open spec fn ep_captured_square(m: ChessMove) -> Square {
    Square { file: m.destination.file, rank: m.origin.rank }
}

/// The king stepping two files sideways from its home square.
pub open spec fn is_castle(p: PositionModel, m: ChessMove) -> bool {
    match p.at(m.origin) {
        Some(pc) => pc.kind == PieceKind::King && m.origin.file == 4 && m.origin.rank
            == pc.color.home_rank() && m.destination.rank == m.origin.rank && (m.destination.file
            == 6 || m.destination.file == 2),
        None => false,
    }
}

pub open spec fn is_pawn_move(p: PositionModel, m: ChessMove) -> bool {
    match p.at(m.origin) {
        Some(pc) => pc.kind == PieceKind::Pawn,
        None => false,
    }
}

/// A capture: the destination was occupied, or a pawn was taken en passant.
pub open spec fn is_capture(p: PositionModel, m: ChessMove) -> bool {
    p.at(m.destination) is Some || is_ep_capture(p, m)
}

/// What ends up on the destination square: the moved piece, or its promotion.
pub open spec fn moved_piece(p: PositionModel, m: ChessMove) -> Option<Piece> {
    match (p.at(m.origin), m.promotion) {
        (Some(pc), Some(k)) => Some(Piece { color: pc.color, kind: k }),
        (Some(pc), None) => Some(pc),
        (None, _) => None,
    }
}

/// The placement after the move: origin emptied, destination filled, the
/// en-passant victim removed, and the rook brought over on castling.
pub open spec fn board_after(p: PositionModel, m: ChessMove) -> Seq<Option<Piece>> {
    let b1 = p.board.update(m.origin.index(), None).update(
        m.destination.index(),
        moved_piece(p, m),
    );
    let b2 = if is_ep_capture(p, m) {
        b1.update(ep_captured_square(m).index(), None)
    } else {
        b1
    };
    if is_castle(p, m) {
        let r = m.origin.rank as int;
        if m.destination.file == 6 {
            b2.update(r * 8 + 7, None).update(r * 8 + 5, p.board[r * 8 + 7])
        } else {
            b2.update(r * 8 + 0, None).update(r * 8 + 3, p.board[r * 8 + 0])
        }
    } else {
        b2
    }
}

/// A right is lost as soon as a move leaves the king's or the rook's home
/// square, or a capture lands on the rook's home square.
pub open spec fn rights_after(p: PositionModel, m: ChessMove) -> CastlingRights {
    CastlingRights {
        white_king_side: p.castling.white_king_side && m.origin != (Square { file: 4, rank: 0 })
            && m.origin != (Square { file: 7, rank: 0 }) && m.destination != (Square {
            file: 7,
            rank: 0,
        }),
        white_queen_side: p.castling.white_queen_side && m.origin != (Square { file: 4, rank: 0 })
            && m.origin != (Square { file: 0, rank: 0 }) && m.destination != (Square {
            file: 0,
            rank: 0,
        }),
        black_king_side: p.castling.black_king_side && m.origin != (Square { file: 4, rank: 7 })
            && m.origin != (Square { file: 7, rank: 7 }) && m.destination != (Square {
            file: 7,
            rank: 7,
        }),
        black_queen_side: p.castling.black_queen_side && m.origin != (Square { file: 4, rank: 7 })
            && m.origin != (Square { file: 0, rank: 7 }) && m.destination != (Square {
            file: 0,
            rank: 7,
        }),
    }
}

/// One more step of a clock, held at the machine bound.
pub open spec fn next_clock(c: u64) -> u64 {
    if c == u64::MAX {
        c
    } else {
        (c + 1) as u64
    }
}

/// The position after playing `m` in `p`: piece relocated, capture removed,
/// castling rights cut down, en-passant target set only by a double pawn
/// advance, halfmove clock reset on a capture or pawn move, fullmove number
/// stepped after black's move, side to move flipped.
pub open spec fn apply_move(p: PositionModel, m: ChessMove) -> PositionModel {
    PositionModel {
        board: board_after(p, m),
        to_move: p.to_move.spec_opposite(),
        castling: rights_after(p, m),
        en_passant: if is_double_pawn_advance(p, m) {
            Some(ep_square(m))
        } else {
            None
        },
        halfmove_clock: if is_capture(p, m) || is_pawn_move(p, m) {
            0
        } else {
            next_clock(p.halfmove_clock)
        },
        fullmove_number: if p.to_move == Color::Black {
            next_clock(p.fullmove_number)
        } else {
            p.fullmove_number
        },
    }
}

/// A promotion kind a pawn can actually be promoted to.
pub open spec fn valid_promotion(p: Option<PieceKind>) -> bool {
    match p {
        None => true,
        Some(k) => k == PieceKind::Queen || k == PieceKind::Rook || k == PieceKind::Bishop || k
            == PieceKind::Knight,
    }
}

/// The move codec round-trips: rendering a move and reading the token back,
/// against the same position, returns the move unchanged. The letter written
/// for a promotion is the letter read, on both paths.
pub proof fn lemma_move_round_trip(m: ChessMove, p: PositionModel)
    requires
        m.wf(),
        valid_promotion(m.promotion),
        m.promotion is Some ==> promotion_permitted(p, m.origin, m.destination),
    ensures
        parse_move(move_str(m), p) == Some(m),
{
    let t = move_str(m);
    crate::board::lemma_square_round_trip(m.origin);
    crate::board::lemma_square_round_trip(m.destination);
    assert(t.subrange(0, 2) =~= square_str(m.origin));
    assert(t.subrange(2, 4) =~= square_str(m.destination));
    match m.promotion {
        None => {
            assert(t.len() == 4);
        },
        Some(k) => {
            assert(t.len() == 5);
            assert(t[4] == promo_char(k));
            assert(promo_kind_of_char(promo_char(k)) == Some(k));
        },
    }
}

/// A two-square pawn advance sets the en-passant target to the skipped
/// square; applying any other move clears it.
pub proof fn lemma_en_passant_after_move(p: PositionModel, m: ChessMove)
    requires
        p.wf(),
        m.wf(),
    ensures
        is_double_pawn_advance(p, m) ==> apply_move(p, m).en_passant == Some(ep_square(m)),
        !is_double_pawn_advance(p, m) ==> apply_move(p, m).en_passant is None,
{
}

fn promo_kind_from_char(c: char) -> (r: Option<PieceKind>)
    ensures
        r == promo_kind_of_char(c),
{
    if c == 'q' {
        Some(PieceKind::Queen)
    } else if c == 'r' {
        Some(PieceKind::Rook)
    } else if c == 'b' {
        Some(PieceKind::Bishop)
    } else if c == 'n' {
        Some(PieceKind::Knight)
    } else {
        None
    }
}

impl ChessMove {
    /// Reads a move token against the position it is to be played in; fails
    /// on anything that is not two squares with at most one permitted
    /// promotion letter.
    pub fn from_uci_long(token: &str, position: &Position) -> (r: Result<ChessMove, String>)
        requires
            position@.wf(),
        ensures
            r matches Ok(m) ==> parse_move(token@, position@) == Some(m) && m.wf(),
            r is Err <==> parse_move(token@, position@) is None,
    {
        let t = chars_of(token);
        move_from_chars(&t, position)
    }
}

/// Reads a move token, given as characters, against the position it is to
/// be played in.
pub fn move_from_chars(t: &Vec<char>, position: &Position) -> (r: Result<ChessMove, String>)
    requires
        position@.wf(),
    ensures
        r matches Ok(m) ==> parse_move(t@, position@) == Some(m) && m.wf(),
        r is Err <==> parse_move(t@, position@) is None,
{
    if !(t.len() == 4 || t.len() == 5) {
        return Err(String::from_str("move token must be four or five characters"));
    }
    let origin = match read_square(&t, 0) {
        Some(o) => o,
        None => {
            return Err(String::from_str("malformed origin square"));
        },
    };
    let destination = match read_square(&t, 2) {
        Some(d) => d,
        None => {
            return Err(String::from_str("malformed destination square"));
        },
    };
    proof {
        crate::board::lemma_parse_square_wf(t@.subrange(0, 2));
        crate::board::lemma_parse_square_wf(t@.subrange(2, 4));
    }
    if t.len() == 4 {
        Ok(ChessMove { origin, destination, promotion: None })
    } else {
        let k = match promo_kind_from_char(t[4]) {
            Some(k) => k,
            None => {
                return Err(String::from_str("unsupported promotion letter"));
            },
        };
        let idx = (origin.rank as usize) * 8 + (origin.file as usize);
        let permitted = match &self_board_at(position, idx) {
            Some(pc) => {
                let target: u8 = match pc.color {
                    Color::White => 7,
                    Color::Black => 0,
                };
                match pc.kind {
                    PieceKind::Pawn => destination.rank == target,
                    _ => false,
                }
            },
            None => false,
        };
        proof {
            assert(position@.at(origin) == position@.board[idx as int]);
        }
        if permitted {
            Ok(ChessMove { origin, destination, promotion: Some(k) })
        } else {
            Err(String::from_str("promotion letter not permitted here"))
        }
    }
}

impl ChessMove {
    /// Renders the move token; the position parameter mirrors the reading
    /// direction and is not needed once the move carries its promotion kind.
    pub fn to_uci_long(&self, position: &Position) -> (r: String)
        requires
            self.wf(),
        ensures
            r@ == move_str(*self),
    {
        let _ = position;
        let mut out: Vec<char> = Vec::new();
        push_square(self.origin, &mut out);
        push_square(self.destination, &mut out);
        match self.promotion {
            None => (),
            Some(k) => {
                let c = match k {
                    PieceKind::Queen => 'q',
                    PieceKind::Rook => 'r',
                    PieceKind::Bishop => 'b',
                    PieceKind::Knight => 'n',
                    _ => 'q',
                };
                out.push(c);
            },
        }
        proof {
            assert(out@ =~= move_str(*self));
        }
        string_from_chars(&out)
    }
}

fn self_board_at(position: &Position, idx: usize) -> (r: Option<Piece>)
    requires
        position@.wf(),
        idx < 64,
    ensures
        r == position@.board[idx as int],
{
    position.board[idx]
}

impl Position {
    /// The position after playing an already-known-legal move; an unsound
    /// move still yields a definite position, with no claim to its meaning.
    pub fn after_move(&self, m: &ChessMove) -> (r: Position)
        requires
            self@.wf(),
            m.wf(),
        ensures
            r@ == apply_move(self@, *m),
            r@.wf(),
    {
        let mut board: Vec<Option<Piece>> = Vec::new();
        let mut i: usize = 0;
        while i < 64
            invariant
                i <= 64,
                self@.wf(),
                board@ == self@.board.take(i as int),
            decreases 64 - i,
        {
            board.push(self.board[i]);
            i += 1;
            proof {
                assert(board@ =~= self@.board.take(i as int));
            }
        }
        proof {
            assert(board@ =~= self@.board);
        }
        let oi = (m.origin.rank as usize) * 8 + (m.origin.file as usize);
        let di = (m.destination.rank as usize) * 8 + (m.destination.file as usize);
        let piece_at_origin = self_board_at(self, oi);
        proof {
            assert(self@.at(m.origin) == self@.board[oi as int]);
            assert(self@.at(m.destination) == self@.board[di as int]);
        }
        let moving: Option<Piece> = match (piece_at_origin, m.promotion) {
            (Some(pc), Some(k)) => Some(Piece { color: pc.color, kind: k }),
            (Some(pc), None) => Some(pc),
            (None, _) => None,
        };
        board[oi] = None;
        board[di] = moving;
        let pawn_moving = match piece_at_origin {
            Some(pc) => matches!(pc.kind, PieceKind::Pawn),
            None => false,
        };
        let same_file = m.origin.file == m.destination.file;
        let two_ranks = m.destination.rank == m.origin.rank + 2 || m.origin.rank
            == m.destination.rank + 2;
        let double_advance = pawn_moving && same_file && two_ranks;
        let ep_capture = pawn_moving && !same_file && (match self.en_passant {
            Some(sq) => sq.file == m.destination.file && sq.rank == m.destination.rank,
            None => false,
        });
        proof {
            assert(ep_capture == is_ep_capture(self@, *m));
            assert(double_advance == is_double_pawn_advance(self@, *m));
        }
        if ep_capture {
            let ci = (m.origin.rank as usize) * 8 + (m.destination.file as usize);
            board[ci] = None;
        }
        let castling_move = (match piece_at_origin {
            Some(pc) => matches!(pc.kind, PieceKind::King) && m.origin.rank == (match pc.color {
                Color::White => 0u8,
                Color::Black => 7u8,
            }),
            None => false,
        }) && m.origin.file == 4 && m.destination.rank == m.origin.rank && (m.destination.file == 6
            || m.destination.file == 2);
        proof {
            assert(castling_move == is_castle(self@, *m));
        }
        if castling_move {
            let r = m.origin.rank as usize;
            if m.destination.file == 6 {
                let rook = self_board_at(self, r * 8 + 7);
                board[r * 8 + 7] = None;
                board[r * 8 + 5] = rook;
            } else {
                let rook = self_board_at(self, r * 8);
                board[r * 8] = None;
                board[r * 8 + 3] = rook;
            }
        }
        proof {
            assert(board@ =~= board_after(self@, *m));
        }
        let dest_occupied_before = match self_board_at(self, di) {
            Some(_) => true,
            None => false,
        };
        let capture = dest_occupied_before || ep_capture;
        let castling = CastlingRights {
            white_king_side: self.castling.white_king_side && !(m.origin.file == 4 && m.origin.rank
                == 0) && !(m.origin.file == 7 && m.origin.rank == 0) && !(m.destination.file == 7
                && m.destination.rank == 0),
            white_queen_side: self.castling.white_queen_side && !(m.origin.file == 4
                && m.origin.rank == 0) && !(m.origin.file == 0 && m.origin.rank == 0) && !(
            m.destination.file == 0 && m.destination.rank == 0),
            black_king_side: self.castling.black_king_side && !(m.origin.file == 4 && m.origin.rank
                == 7) && !(m.origin.file == 7 && m.origin.rank == 7) && !(m.destination.file == 7
                && m.destination.rank == 7),
            black_queen_side: self.castling.black_queen_side && !(m.origin.file == 4
                && m.origin.rank == 7) && !(m.origin.file == 0 && m.origin.rank == 7) && !(
            m.destination.file == 0 && m.destination.rank == 7),
        };
        proof {
            assert(castling == rights_after(self@, *m));
        }
        let en_passant: Option<Square> = if double_advance {
            Some(
                Square {
                    file: m.origin.file,
                    rank: ((m.origin.rank + m.destination.rank) / 2) as u8,
                },
            )
        } else {
            None
        };
        let halfmove_clock: u64 = if capture || pawn_moving {
            0
        } else if self.halfmove_clock == u64::MAX {
            self.halfmove_clock
        } else {
            self.halfmove_clock + 1
        };
        let fullmove_number: u64 = match self.to_move {
            Color::Black => if self.fullmove_number == u64::MAX {
                self.fullmove_number
            } else {
                self.fullmove_number + 1
            },
            Color::White => self.fullmove_number,
        };
        let r = Position {
            board,
            to_move: self.to_move.opposite(),
            castling,
            en_passant,
            halfmove_clock,
            fullmove_number,
        };
        proof {
            assert(r@ =~= apply_move(self@, *m));
        }
        r
    }
}

} // verus!
