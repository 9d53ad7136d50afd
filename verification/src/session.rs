//! The session dispatcher: maps each parsed command to its ordered actions
//! and executes them against the session's two optional fields, one line at
//! a time, until a terminate command.

use vstd::prelude::*;
use vstd::string::StringExecFns;
use crate::board::{Position, PositionModel};
use crate::command::{CommandModel, UciCommandIn, command_of, to_uci_command_in};
use crate::engine::{engine_move_token, engine_token_of, is_valid_encoding};
use crate::fen::fen_of;
use crate::moves::{ChessMove, move_str, parse_move};

verus! {

/// The dispatcher's unit of work; a command maps to an ordered list of
/// these, executed strictly in order.
#[derive(PartialEq, Debug)]
pub enum Action {
    SendMessage(String),
    SetPosition(Position),
    Quit,
    FindBestMove,
    SendBestMove,
}

/// The ordered actions one command produces: the identification sequence for
/// an identify, one state change or one piece of work for the rest.
pub fn process_command(command: UciCommandIn) -> (r: Vec<Action>)
    ensures
        command is Uci ==> r@.len() == 3 && (r@[0] matches Action::SendMessage(s) && s@
            == "id name chessticot"@) && (r@[1] matches Action::SendMessage(s) && s@
            == "id author Simisticot"@) && (r@[2] matches Action::SendMessage(s) && s@
            == "uciok"@),
        command matches UciCommandIn::Position(p) ==> r@.len() == 1 && (r@[0] matches
            Action::SetPosition(q) && q@ == p@),
        command is Quit ==> r@.len() == 1 && r@[0] is Quit,
        command is Go ==> r@.len() == 1 && r@[0] is FindBestMove,
        command is Stop ==> r@.len() == 1 && r@[0] is SendBestMove,
{
    match command {
        UciCommandIn::Uci => vec![
            Action::SendMessage(String::from_str("id name chessticot")),
            Action::SendMessage(String::from_str("id author Simisticot")),
            Action::SendMessage(String::from_str("uciok")),
        ],
        UciCommandIn::Quit => vec![Action::Quit],
        UciCommandIn::Position(position) => vec![Action::SetPosition(position)],
        UciCommandIn::Go => vec![Action::FindBestMove],
        UciCommandIn::Stop => vec![Action::SendBestMove],
    }
}

/// The mathematical value of a session: its two optional fields.
#[verifier::ext_equal]
pub ghost struct SessionModel {
    pub current_position: Option<PositionModel>,
    pub best_move: Option<ChessMove>,
}

/// A session with nothing set yet.
pub open spec fn fresh_session() -> SessionModel {
    SessionModel { current_position: None, best_move: None }
}

/// What a search stores: the collaborator's move for `p`, read back through
/// the move codec; the kept move is untouched when the collaborator has no
/// move, or hands back a token that does not parse (neither happens under
/// the collaborator contract).
pub open spec fn searched_move(p: PositionModel, kept: Option<ChessMove>) -> Option<ChessMove> {
    match engine_token_of(fen_of(p)) {
        Some(t) => match parse_move(t, p) {
            Some(m) => Some(m),
            None => kept,
        },
        None => kept,
    }
}

/// The two fatal sequencing preconditions of the dispatcher: a search needs
/// a position, and a result needs a computed move.
pub open spec fn step_pre(s: SessionModel, c: CommandModel) -> bool {
    match c {
        CommandModel::StartSearch => s.current_position is Some,
        CommandModel::StopSearch => s.best_move is Some && s.current_position is Some,
        _ => true,
    }
}

/// The dispatch table: for one command, the session after it, the lines it
/// emits, and whether it terminates the session.
pub open spec fn step_model(s: SessionModel, c: CommandModel) -> (SessionModel, Seq<Seq<char>>, bool) {
    match c {
        CommandModel::Identify => (
            s,
            seq!["id name chessticot"@, "id author Simisticot"@, "uciok"@],
            false,
        ),
        CommandModel::SetPosition(p) => (
            SessionModel { current_position: Some(p), best_move: s.best_move },
            Seq::empty(),
            false,
        ),
        CommandModel::StartSearch => (
            SessionModel {
                current_position: s.current_position,
                best_move: searched_move(s.current_position->Some_0, s.best_move),
            },
            Seq::empty(),
            false,
        ),
        CommandModel::StopSearch => (
            s,
            seq!["bestmove "@ + move_str(s.best_move->Some_0)],
            false,
        ),
        CommandModel::Terminate => (s, Seq::empty(), true),
    }
}

/// One run's state: the current position once one has been set, and the most
/// recently computed move.
pub struct Session {
    pub current_position: Option<Position>,
    pub best_move: Option<ChessMove>,
}

impl View for Session {
    type V = SessionModel;

    open spec fn view(&self) -> SessionModel {
        SessionModel {
            current_position: self.current_position.deep_view(),
            best_move: self.best_move,
        }
    }
}

impl Session {
    pub open spec fn wf(self) -> bool {
        &&& (self.current_position matches Some(p) ==> p@.wf())
        &&& (self.best_move matches Some(m) ==> m.wf())
    }

    /// A fresh session: no position set, no move computed yet.
    pub fn new() -> (s: Session)
        ensures
            s.wf(),
            s@ == fresh_session(),
    {
        let s = Session { current_position: None, best_move: None };
        proof {
            assert(s@ =~= fresh_session());
        }
        s
    }

    /// Executes one command's actions (see `process_command`) in order, as
    /// `step_model` describes: identify emits its three fixed lines whatever
    /// the state, set-position replaces the current position, start-search
    /// stores the collaborator's move for the current position, stop-search
    /// emits the stored move, terminate sets the quit flag. Starting a
    /// search with no position set, or asking for a result before any
    /// search, is a contract violation and ruled out here.
    pub fn step(&mut self, command: UciCommandIn) -> (r: (Vec<String>, bool))
        requires
            old(self).wf(),
            command matches UciCommandIn::Position(p) ==> p@.wf(),
            step_pre(old(self)@, command@),
        ensures
            final(self).wf(),
            final(self)@ == step_model(old(self)@, command@).0,
            r.0.deep_view() == step_model(old(self)@, command@).1,
            r.1 == step_model(old(self)@, command@).2,
            r.1 == (command is Quit),
    {
        match command {
            UciCommandIn::Uci => {
                let mut out: Vec<String> = Vec::new();
                out.push(String::from_str("id name chessticot"));
                out.push(String::from_str("id author Simisticot"));
                out.push(String::from_str("uciok"));
                proof {
                    assert(out.deep_view() =~~= step_model(old(self)@, command@).1);
                }
                (out, false)
            },
            UciCommandIn::Position(p) => {
                self.current_position = Some(p);
                let out: Vec<String> = Vec::new();
                proof {
                    assert(self@ =~= step_model(old(self)@, command@).0);
                    assert(out.deep_view() =~~= Seq::<Seq<char>>::empty());
                }
                (out, false)
            },
            UciCommandIn::Go => {
                match &self.current_position {
                    Some(p) => {
                        let fen = p.to_fen();
                        proof {
                            assert(p@.wf() && fen@ == fen_of(p@));
                            assert(is_valid_encoding(fen@));
                            assert(old(self)@.current_position->Some_0 == p@);
                        }
                        match engine_move_token(fen.as_str()) {
                            None => {
                                proof {
                                    assert(self@ =~= step_model(old(self)@, command@).0);
                                }
                            },
                            Some(tok) => {
                                match ChessMove::from_uci_long(tok.as_str(), p) {
                                    Ok(m) => {
                                        self.best_move = Some(m);
                                        proof {
                                            assert(searched_move(p@, old(self).best_move) == Some(
                                                m,
                                            ));
                                            assert(self@ =~= step_model(old(self)@, command@).0);
                                        }
                                    },
                                    Err(_) => {
                                        proof {
                                            assert(self@ =~= step_model(old(self)@, command@).0);
                                        }
                                    },
                                }
                            },
                        }
                    },
                    None => {
                        proof {
                            assert(false);
                        }
                    },
                }
                let out: Vec<String> = Vec::new();
                proof {
                    assert(out.deep_view() =~~= Seq::<Seq<char>>::empty());
                }
                (out, false)
            },
            UciCommandIn::Stop => {
                let line = match (&self.best_move, &self.current_position) {
                    (Some(m), Some(p)) => {
                        let tok = m.to_uci_long(p);
                        String::from_str("bestmove ").concat(tok.as_str())
                    },
                    _ => {
                        proof {
                            assert(false);
                        }
                        String::from_str("")
                    },
                };
                let mut out: Vec<String> = Vec::new();
                out.push(line);
                proof {
                    assert(out.deep_view() =~~= step_model(old(self)@, command@).1);
                }
                (out, false)
            },
            UciCommandIn::Quit => {
                let out: Vec<String> = Vec::new();
                proof {
                    assert(out.deep_view() =~~= Seq::<Seq<char>>::empty());
                }
                (out, true)
            },
        }
    }
}

/// The whole run as a fold over the input lines, from a given session: it
/// succeeds exactly when every line up to and including the first terminate
/// parses to a command and meets the sequencing preconditions; its outputs
/// are the per-command emissions, concatenated in order; its flag says
/// whether a terminate command ended the run. Terminate is absorbing: lines
/// after it play no part.
pub open spec fn run_model(s: SessionModel, lines: Seq<Seq<char>>) -> Option<
    (Seq<Seq<char>>, bool),
>
    decreases lines.len(),
{
    if lines.len() == 0 {
        Some((Seq::empty(), false))
    } else {
        match command_of(lines[0]) {
            None => None,
            Some(c) => if !step_pre(s, c) {
                None
            } else {
                let stepped = step_model(s, c);
                if stepped.2 {
                    Some((stepped.1, true))
                } else {
                    match run_model(stepped.0, lines.drop_first()) {
                        None => None,
                        Some(rest) => Some((stepped.1 + rest.0, rest.1)),
                    }
                }
            },
        }
    }
}

/// Feeds each line of `lines` to a fresh session in order, exactly as
/// `run_model` folds them: one line at a time, each command's emissions
/// appended before the next line is touched, stopping at the first terminate
/// command. A line that parses to nothing, a search begun before any
/// position is set, and a result requested before any search are each
/// surfaced as an error (and nothing of the sort is skipped or defaulted);
/// the error carries no collected output.
pub fn run_session(lines: &Vec<String>) -> (r: Result<(Vec<String>, bool), String>)
    ensures
        (r is Ok <==> run_model(fresh_session(), lines.deep_view()) is Some),
        r matches Ok(o) ==> run_model(fresh_session(), lines.deep_view()) matches Some(m)
            && o.0.deep_view() == m.0 && o.1 == m.1,
{
    let ghost gl = lines.deep_view();
    let mut session = Session::new();
    let mut outputs: Vec<String> = Vec::new();
    let mut i: usize = 0;
    proof {
        assert(gl.skip(0) =~= gl);
        assert(outputs.deep_view() =~~= Seq::<Seq<char>>::empty());
        match run_model(session@, gl) {
            None => {},
            Some(m) => {
                assert(Seq::<Seq<char>>::empty() + m.0 =~= m.0);
            },
        }
    }
    while i < lines.len()
        invariant
            session.wf(),
            i <= lines@.len(),
            gl == lines.deep_view(),
            match run_model(session@, gl.skip(i as int)) {
                None => run_model(fresh_session(), gl) is None,
                Some(m) => run_model(fresh_session(), gl) == Some(
                    (outputs.deep_view() + m.0, m.1),
                ),
            },
        decreases lines@.len() - i,
    {
        proof {
            assert(gl.skip(i as int)[0] == lines@[i as int]@);
            assert(gl.skip(i as int).drop_first() =~= gl.skip(i as int + 1));
        }
        let cmd = match to_uci_command_in(lines[i].as_str()) {
            Ok(c) => c,
            Err(e) => {
                proof {
                    assert(run_model(session@, gl.skip(i as int)) is None);
                }
                return Err(e);
            },
        };
        if matches!(cmd, UciCommandIn::Go) && session.current_position.is_none() {
            proof {
                assert(!step_pre(session@, cmd@));
                assert(run_model(session@, gl.skip(i as int)) is None);
            }
            return Err(String::from_str("should initialize position before asking for move"));
        }
        if matches!(cmd, UciCommandIn::Stop) && (session.best_move.is_none()
            || session.current_position.is_none()) {
            proof {
                assert(!step_pre(session@, cmd@));
                assert(run_model(session@, gl.skip(i as int)) is None);
            }
            return Err(String::from_str("should have just computed best move"));
        }
        let ghost s_before = session@;
        let ghost outputs_before = outputs.deep_view();
        let (mut outs, quit) = session.step(cmd);
        proof {
            assert(run_model(s_before, gl.skip(i as int)) == (if step_model(s_before, cmd@).2 {
                Some((step_model(s_before, cmd@).1, true))
            } else {
                match run_model(step_model(s_before, cmd@).0, gl.skip(i as int + 1)) {
                    None => None::<(Seq<Seq<char>>, bool)>,
                    Some(rest) => Some((step_model(s_before, cmd@).1 + rest.0, rest.1)),
                }
            }));
        }
        outputs.append(&mut outs);
        proof {
            assert(outputs.deep_view() =~~= outputs_before + step_model(s_before, cmd@).1);
        }
        if quit {
            proof {
                assert(run_model(fresh_session(), gl) == Some(
                    (outputs_before + step_model(s_before, cmd@).1, true),
                ));
            }
            return Ok((outputs, true));
        }
        i += 1;
        proof {
            match run_model(session@, gl.skip(i as int)) {
                None => {},
                Some(m) => {
                    assert(outputs_before + (step_model(s_before, cmd@).1 + m.0)
                        =~= outputs.deep_view() + m.0);
                },
            }
        }
    }
    proof {
        assert(gl.skip(lines@.len() as int) =~= Seq::<Seq<char>>::empty());
        match run_model(session@, gl.skip(lines@.len() as int)) {
            None => {},
            Some(m) => {
                assert(outputs.deep_view() + m.0 =~= outputs.deep_view());
            },
        }
    }
    Ok((outputs, false))
}

} // verus!
