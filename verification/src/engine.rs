//! The search collaborator's adapter: the one place where the session asks
//! an engine to pick a move for the current position.

use vstd::prelude::*;
use crate::board::PositionModel;
use crate::fen::fen_of;
use libchessticot::Player;

verus! {

/// A text some well-formed position encodes to: exactly what the session
/// hands the collaborator.
pub open spec fn is_valid_encoding(s: Seq<char>) -> bool {
    exists|p: PositionModel| p.wf() && s == fen_of(p)
}

/// The collaborator's answer for the position `fen` describes: the token of
/// the move it picks, or nothing when the position admits no legal move.
/// Both are functions of the encoding alone (see `engine_move_token`).
pub uninterp spec fn engine_token_of(fen: Seq<char>) -> Option<Seq<char>>;

/// Asks the search collaborator for a move in the position `fen` describes,
/// and hands back the chosen move's token, or nothing when the position
/// admits no move.
///
/// Relies on libchessticot: `Position::from_fen` reads a six-field board
/// description (it aborts on malformed text, so a valid encoding is
/// required); `Position::all_legal_moves` lists the position's legal moves;
/// `Player::offer_move` on `BetterEvaluationPlayer` picks one of them, and
/// aborts when there is none, hence the guard; `ChessMove::to_uci_long`
/// writes the chosen move's origin and destination squares as four
/// lower-case characters (it writes no promotion letter). The whole body is
/// deterministic in `fen`: move generation order is fixed, the evaluation
/// minimum is order-independent, and no randomness is involved, so its
/// result bears the name `engine_token_of`.
#[verifier::external_body]
pub(crate) fn engine_move_token(fen: &str) -> (r: Option<String>)
    requires
        is_valid_encoding(fen@),
    ensures
        r matches Some(t) ==> engine_token_of(fen@) == Some(t@) && t@.len() == 4,
        r is None <==> engine_token_of(fen@) is None,
{
    let position = libchessticot::Position::from_fen(fen);
    if position.all_legal_moves().is_empty() {
        None
    } else {
        let player = libchessticot::BetterEvaluationPlayer {};
        let chosen = player.offer_move(&position);
        Some(chosen.to_uci_long(&position))
    }
}

} // verus!
