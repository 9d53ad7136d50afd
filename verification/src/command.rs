//! The protocol's command parser: one trimmed line in, one structured
//! command out. A position-setup line carries the position it describes,
//! with its trailing move list already replayed, left to right.

use vstd::prelude::*;
use crate::board::{Position, PositionModel, initial_model};
use crate::fen::parse_fen;
use crate::moves::{apply_move, parse_move};
use crate::text::{chars_of, join_with, spec_split, split_chars, string_from_chars};
use vstd::string::StringExecFns;

verus! {

/// What a parsed line means: the five command families.
pub ghost enum CommandModel {
    Identify,
    SetPosition(PositionModel),
    StartSearch,
    StopSearch,
    Terminate,
}

impl CommandModel {
    pub open spec fn wf(self) -> bool {
        match self {
            CommandModel::SetPosition(p) => p.wf(),
            _ => true,
        }
    }
}

/// Replaying a move list is a strict left fold: each token is read against
/// the position reached so far, then applied.
pub open spec fn replay(p: PositionModel, toks: Seq<Seq<char>>) -> Option<PositionModel>
    decreases toks.len(),
{
    if toks.len() == 0 {
        Some(p)
    } else {
        match parse_move(toks[0], p) {
            Some(m) => replay(apply_move(p, m), toks.drop_first()),
            None => None,
        }
    }
}

/// The left-fold law: replaying two lists in a row is replaying their
/// concatenation, so a trailing move list reaches exactly the position that
/// applying its moves one at a time, each against the position so far, does.
pub proof fn lemma_replay_left_fold(p: PositionModel, ts1: Seq<Seq<char>>, ts2: Seq<Seq<char>>)
    ensures
        replay(p, ts1 + ts2) == (match replay(p, ts1) {
            Some(q) => replay(q, ts2),
            None => None,
        }),
    decreases ts1.len(),
{
    if ts1.len() == 0 {
        assert(ts1 + ts2 =~= ts2);
    } else {
        assert((ts1 + ts2)[0] == ts1[0]);
        assert((ts1 + ts2).drop_first() =~= ts1.drop_first() + ts2);
        match parse_move(ts1[0], p) {
            Some(m) => {
                lemma_replay_left_fold(apply_move(p, m), ts1.drop_first(), ts2);
            },
            None => {},
        }
    }
}

/// An optional trailing move list: nothing more, or the literal marker token
/// and then one token per move.
pub open spec fn after_moves(base: PositionModel, rest: Seq<Seq<char>>) -> Option<PositionModel> {
    if rest.len() == 0 {
        Some(base)
    } else if rest[0] == "moves"@ {
        replay(base, rest.drop_first())
    } else {
        None
    }
}

/// The position named by the tokens after the set-position keyword: the
/// starting arrangement, or a six-token board description, then the optional
/// move list.
pub open spec fn position_of_tokens(toks: Seq<Seq<char>>) -> Option<PositionModel> {
    if toks.len() < 1 {
        None
    } else if toks[0] == "startpos"@ {
        after_moves(initial_model(), toks.drop_first())
    } else if toks[0] == "fen"@ {
        if toks.len() < 7 {
            None
        } else {
            match parse_fen(join_with(toks.subrange(1, 7), ' ')) {
                Some(base) => after_moves(base, toks.skip(7)),
                None => None,
            }
        }
    } else {
        None
    }
}

/// A set-position line whose six board-description fields name the starting
/// arrangement, followed by a move list, reaches exactly the position that
/// the starting-layout keyword followed by the same move list reaches: both
/// replay the moves from the same base.
pub proof fn lemma_fen_start_matches_startpos(fen_fields: Seq<Seq<char>>, ms: Seq<Seq<char>>)
    requires
        fen_fields.len() == 6,
        parse_fen(join_with(fen_fields, ' ')) == Some(initial_model()),
    ensures
        position_of_tokens(seq!["fen"@] + fen_fields + seq!["moves"@] + ms) == position_of_tokens(
            seq!["startpos"@, "moves"@] + ms,
        ),
{
    reveal_strlit("fen");
    reveal_strlit("startpos");
    let lt = seq!["fen"@] + fen_fields + seq!["moves"@] + ms;
    let rt = seq!["startpos"@, "moves"@] + ms;
    assert(lt[0] == "fen"@);
    assert("fen"@.len() == 3 && "startpos"@.len() == 8);
    assert(lt.subrange(1, 7) =~= fen_fields);
    assert(lt.skip(7) =~= seq!["moves"@] + ms);
    assert(lt.skip(7)[0] == "moves"@);
    assert(lt.skip(7).drop_first() =~= ms);
    assert(rt[0] == "startpos"@);
    assert(rt.drop_first() =~= seq!["moves"@] + ms);
    assert(rt.drop_first()[0] == "moves"@);
    assert(rt.drop_first().drop_first() =~= ms);
    assert(position_of_tokens(lt) == replay(initial_model(), ms));
    assert(position_of_tokens(rt) == replay(initial_model(), ms));
}

/// Whether a line's first token names any command family at all.
pub open spec fn known_first_token(s: Seq<char>) -> bool {
    let first = spec_split(s, ' ')[0];
    first == "uci"@ || first == "quit"@ || first == "go"@ || first == "stop"@ || first
        == "position"@
}

/// What one input line parses to: the first token picks the family, and only
/// a set-position line carries a payload. Unknown first tokens parse to
/// nothing.
pub open spec fn command_of(s: Seq<char>) -> Option<CommandModel> {
    let toks = spec_split(s, ' ');
    if toks[0] == "uci"@ {
        Some(CommandModel::Identify)
    } else if toks[0] == "quit"@ {
        Some(CommandModel::Terminate)
    } else if toks[0] == "go"@ {
        Some(CommandModel::StartSearch)
    } else if toks[0] == "stop"@ {
        Some(CommandModel::StopSearch)
    } else if toks[0] == "position"@ {
        match position_of_tokens(toks.drop_first()) {
            Some(p) => Some(CommandModel::SetPosition(p)),
            None => None,
        }
    } else {
        None
    }
}

/// One parsed input line.
#[derive(PartialEq, Debug)]
pub enum UciCommandIn {
    Uci,
    Position(Position),
    Quit,
    Go,
    Stop,
}

impl View for UciCommandIn {
    type V = CommandModel;

    open spec fn view(&self) -> CommandModel {
        match self {
            UciCommandIn::Uci => CommandModel::Identify,
            UciCommandIn::Position(p) => CommandModel::SetPosition(p@),
            UciCommandIn::Quit => CommandModel::Terminate,
            UciCommandIn::Go => CommandModel::StartSearch,
            UciCommandIn::Stop => CommandModel::StopSearch,
        }
    }
}

/// Whether token `t` is exactly the word `s`.
fn token_is(t: &Vec<char>, s: &str) -> (r: bool)
    ensures
        r == (t@ == s@),
{
    let cs = chars_of(s);
    if t.len() != cs.len() {
        proof {
            if t@ == s@ {
                assert(t@.len() == s@.len());
            }
        }
        return false;
    }
    let mut i: usize = 0;
    while i < t.len()
        invariant
            i <= t@.len(),
            t@.len() == cs@.len(),
            cs@ == s@,
            forall|j: int| 0 <= j < i ==> t@[j] == cs@[j],
        decreases t@.len() - i,
    {
        if t[i] != cs[i] {
            proof {
                if t@ == s@ {
                    assert(t@[i as int] == s@[i as int]);
                }
            }
            return false;
        }
        i += 1;
    }
    proof {
        assert(t@ =~= s@);
    }
    true
}

/// The position named by a full set-position line, already split in tokens;
/// the first token is the keyword itself.
fn position_from_tokens(toks: &Vec<Vec<char>>) -> (r: Result<Position, String>)
    requires
        toks@.len() >= 1,
    ensures
        r matches Ok(p) ==> position_of_tokens(toks.deep_view().drop_first()) == Some(p@)
            && p@.wf(),
        r is Err <==> position_of_tokens(toks.deep_view().drop_first()) is None,
{
    let ghost tv = toks.deep_view();
    let ghost rest = tv.drop_first();
    proof {
        assert(rest.len() == tv.len() - 1);
        if toks@.len() >= 2 {
            assert(rest[0] == tv[1]);
            assert(tv[1] == toks@[1]@);
        }
    }
    if toks.len() < 2 {
        return Err(String::from_str("position mode is missing"));
    }
    let base: Position;
    let move_marker_index: usize;
    if token_is(&toks[1], "startpos") {
        base = Position::initial();
        move_marker_index = 2;
        proof {
            crate::board::lemma_initial_model_wf();
        }
    } else if token_is(&toks[1], "fen") {
        if toks.len() < 8 {
            return Err(String::from_str("board description needs six fields"));
        }
        let mut fenchars: Vec<char> = Vec::new();
        let mut i: usize = 2;
        while i < 8
            invariant
                2 <= i <= 8,
                toks@.len() >= 8,
                tv == toks.deep_view(),
                i == 2 ==> fenchars@ == Seq::<char>::empty(),
                i > 2 ==> fenchars@ == join_with(tv.subrange(2, i as int), ' '),
            decreases 8 - i,
        {
            let ghost before = fenchars@;
            if i > 2 {
                fenchars.push(' ');
            }
            let tok = &toks[i];
            let ghost sofar = fenchars@;
            let mut j: usize = 0;
            while j < tok.len()
                invariant
                    j <= tok@.len(),
                    fenchars@ == sofar + tok@.take(j as int),
                decreases tok@.len() - j,
            {
                fenchars.push(tok[j]);
                j += 1;
                proof {
                    assert(fenchars@ =~= sofar + tok@.take(j as int));
                }
            }
            proof {
                assert(tok@.take(tok@.len() as int) =~= tok@);
                assert(tv.subrange(2, i as int + 1).drop_last() =~= tv.subrange(2, i as int));
                assert(tv.subrange(2, i as int + 1).last() == tv[i as int]);
                assert(tv[i as int] == toks@[i as int]@);
                if i == 2 {
                    assert(tv.subrange(2, 3) =~= seq![tv[2]]);
                    assert(fenchars@ =~= join_with(tv.subrange(2, 3), ' '));
                } else {
                    assert(fenchars@ =~= join_with(tv.subrange(2, i as int + 1), ' '));
                }
            }
            i += 1;
        }
        proof {
            assert(tv.subrange(2, 8) =~= rest.subrange(1, 7));
        }
        let fen = string_from_chars(&fenchars);
        base = match Position::from_fen(fen.as_str()) {
            Ok(p) => p,
            Err(e) => {
                return Err(e);
            },
        };
        move_marker_index = 8;
    } else {
        return Err(String::from_str("unsupported position mode"));
    }
    proof {
        if move_marker_index == 2 {
            assert(rest.drop_first() =~= tv.skip(2));
        } else {
            assert(rest.skip(7) =~= tv.skip(8));
        }
    }
    if toks.len() == move_marker_index {
        proof {
            assert(tv.skip(move_marker_index as int).len() == 0);
        }
        return Ok(base);
    }
    proof {
        assert(tv.skip(move_marker_index as int)[0] == toks@[move_marker_index as int]@);
        assert(tv.skip(move_marker_index as int).drop_first() =~= tv.skip(
            move_marker_index as int + 1,
        ));
    }
    if !token_is(&toks[move_marker_index], "moves") {
        return Err(String::from_str("unexpected token after position"));
    }
    let ghost mtoks = tv.skip(move_marker_index as int + 1);
    let ghost base_model = base@;
    let mut current = base;
    let mut k: usize = move_marker_index + 1;
    proof {
        assert(mtoks.skip(0) =~= mtoks);
        if move_marker_index == 2 {
            assert(position_of_tokens(rest) == after_moves(initial_model(), tv.skip(2)));
            assert(position_of_tokens(rest) == replay(base_model, mtoks));
        } else {
            assert(position_of_tokens(rest) == after_moves(base_model, rest.skip(7)));
            assert(position_of_tokens(rest) == replay(base_model, mtoks));
        }
    }
    while k < toks.len()
        invariant
            move_marker_index + 1 <= k <= toks@.len(),
            tv == toks.deep_view(),
            rest == tv.drop_first(),
            mtoks == tv.skip(move_marker_index as int + 1),
            mtoks.len() == toks@.len() - move_marker_index - 1,
            current@.wf(),
            position_of_tokens(rest) == replay(base_model, mtoks),
            replay(base_model, mtoks) == replay(current@, tv.skip(k as int)),
        decreases toks@.len() - k,
    {
        proof {
            assert(tv.skip(k as int)[0] == tv[k as int]);
            assert(tv[k as int] == toks@[k as int]@);
            assert(tv.skip(k as int).drop_first() =~= tv.skip(k as int + 1));
        }
        let m = match crate::moves::move_from_chars(&toks[k], &current) {
            Ok(m) => m,
            Err(e) => {
                return Err(e);
            },
        };
        current = current.after_move(&m);
        k += 1;
    }
    proof {
        assert(tv.skip(toks@.len() as int) =~= Seq::<Seq<char>>::empty());
    }
    Ok(current)
}

/// Parses one trimmed input line; the first token picks the command family,
/// and anything unrecognized is an error, never silently ignored.
pub fn to_uci_command_in(input: &str) -> (r: Result<UciCommandIn, String>)
    ensures
        r matches Ok(c) ==> command_of(input@) == Some(c@) && c@.wf(),
        r is Err <==> command_of(input@) is None,
        !known_first_token(input@) ==> (r matches Err(e) && e@ == "Unsupported command"@),
{
    let cs = chars_of(input);
    let toks = split_chars(&cs, ' ');
    let ghost tv = toks.deep_view();
    proof {
        crate::text::lemma_split_nonempty(input@, ' ');
        assert(tv[0] == toks@[0]@);
    }
    let first = &toks[0];
    if token_is(first, "uci") {
        Ok(UciCommandIn::Uci)
    } else if token_is(first, "quit") {
        Ok(UciCommandIn::Quit)
    } else if token_is(first, "go") {
        Ok(UciCommandIn::Go)
    } else if token_is(first, "stop") {
        Ok(UciCommandIn::Stop)
    } else if token_is(first, "position") {
        match position_from_tokens(&toks) {
            Ok(p) => Ok(UciCommandIn::Position(p)),
            Err(e) => Err(e),
        }
    } else {
        Err(String::from_str("Unsupported command"))
    }
}

/// The position named by a full set-position line.
pub fn position_from_command(command: &str) -> (r: Result<Position, String>)
    ensures
        r matches Ok(p) ==> command_of(command@) == Some(CommandModel::SetPosition(p@))
            && p@.wf(),
        r is Err <==> !(command_of(command@) matches Some(c) && c is SetPosition),
{
    match to_uci_command_in(command) {
        Ok(UciCommandIn::Position(p)) => Ok(p),
        Ok(c) => {
            proof {
                assert(command_of(command@) == Some(c@));
            }
            Err(String::from_str("not a position command"))
        },
        Err(e) => Err(e),
    }
}

} // verus!
