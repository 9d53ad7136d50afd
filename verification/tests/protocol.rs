use chessticot_uci::board::Position;
use chessticot_uci::command::{to_uci_command_in, position_from_command, UciCommandIn};
use chessticot_uci::moves::ChessMove;
use chessticot_uci::session::{process_command, run_session, Action};

#[test]
fn non_existent_uci_command_returns_error() {
    assert!(to_uci_command_in("skibidi").is_err());
}

#[test]
fn can_parse_uci_command() {
    assert!(to_uci_command_in("uci").is_ok_and(|command| command == UciCommandIn::Uci));
}

#[test]
fn can_parse_quit_command() {
    assert!(to_uci_command_in("quit").is_ok_and(|command| command == UciCommandIn::Quit));
}

#[test]
fn can_parse_position_command_initial_position() {
    assert!(
        to_uci_command_in("position startpos")
            .is_ok_and(|command| command == UciCommandIn::Position(Position::initial()))
    )
}

#[test]
fn can_parse_initial_position_with_additional_moves() {
    // The fullmove number steps after black's move, so two plies from the
    // start reach fullmove 2.
    assert_eq!(
        to_uci_command_in("position startpos moves e2e4 e7e5").unwrap(),
        UciCommandIn::Position(
            Position::from_fen("rnbqkbnr/pppp1ppp/8/4p3/4P3/8/PPPP1PPP/RNBQKBNR w KQkq e6 0 2")
                .unwrap()
        )
    )
}

#[test]
fn can_parse_fen_position_with_additional_moves() {
    assert_eq!(
        to_uci_command_in(
            "position fen rnbqkbnr/pppppppp/8/8/8/8/PPPPPPPP/RNBQKBNR w KQkq - 0 1 moves e2e4 e7e5"
        )
        .unwrap(),
        UciCommandIn::Position(
            Position::from_fen("rnbqkbnr/pppp1ppp/8/4p3/4P3/8/PPPP1PPP/RNBQKBNR w KQkq e6 0 2")
                .unwrap()
        )
    )
}

#[test]
fn can_parse_position_command_with_fen() {
    assert!(
        to_uci_command_in(
            "position fen rnbqkbnr/pp2pppp/2p5/3pP3/3P4/8/PPP2PPP/RNBQKBNR b KQkq - 0 1"
        )
        .is_ok_and(|command| command
            == UciCommandIn::Position(
                Position::from_fen(
                    "rnbqkbnr/pp2pppp/2p5/3pP3/3P4/8/PPP2PPP/RNBQKBNR b KQkq - 0 1"
                )
                .unwrap()
            ))
    )
}

#[test]
fn responds_to_uci_command() {
    let actions = process_command(UciCommandIn::Uci);
    assert_eq!(
        actions,
        vec![
            Action::SendMessage("id name chessticot".to_string()),
            Action::SendMessage("id author Simisticot".to_string()),
            Action::SendMessage("uciok".to_string()),
        ]
    );
}

#[test]
fn quits_on_quit_command() {
    assert_eq!(process_command(UciCommandIn::Quit), vec![Action::Quit]);
}

#[test]
fn get_first_move() {
    let input: Vec<String> = vec![
        "uci".to_string(),
        "position startpos".to_string(),
        "go".to_string(),
        "stop".to_string(),
        "quit".to_string(),
    ];
    let (outputs, quit) = run_session(&input).expect("should not fail");
    let mut rendered = String::new();
    for line in outputs {
        rendered.push_str(&line);
        rendered.push('\n');
    }
    assert_eq!(
        "id name chessticot\nid author Simisticot\nuciok\nbestmove e2e4\n",
        rendered
    );
    assert!(quit);
}

#[test]
fn initial_position_renders_to_starting_encoding() {
    assert_eq!(
        Position::initial().to_fen(),
        "rnbqkbnr/pppppppp/8/8/8/8/PPPPPPPP/RNBQKBNR w KQkq - 0 1"
    );
}

#[test]
fn encoding_round_trips_through_parse() {
    let samples = [
        "rnbqkbnr/pppppppp/8/8/8/8/PPPPPPPP/RNBQKBNR w KQkq - 0 1",
        "rnbqkbnr/pppp1ppp/8/4p3/4P3/8/PPPP1PPP/RNBQKBNR w KQkq e6 0 2",
        "8/7P/8/8/8/8/8/8 w - - 0 1",
        "rnbqkbnr/pp2pppp/2p5/3pP3/3P4/8/PPP2PPP/RNBQKBNR b Kq - 13 42",
    ];
    for s in samples {
        assert_eq!(Position::from_fen(s).unwrap().to_fen(), s);
    }
}

#[test]
fn malformed_encodings_are_rejected() {
    // wrong field count
    assert!(Position::from_fen("rnbqkbnr/pppppppp/8/8/8/8/PPPPPPPP/RNBQKBNR w KQkq -").is_err());
    // bad placement character
    assert!(Position::from_fen("rnbqkbnr/ppppXppp/8/8/8/8/PPPPPPPP/RNBQKBNR w KQkq - 0 1").is_err());
    // a rank with the wrong number of squares
    assert!(Position::from_fen("rnbqkbnr/ppppppp/8/8/8/8/PPPPPPPP/RNBQKBNR w KQkq - 0 1").is_err());
    // bad side to move
    assert!(Position::from_fen("rnbqkbnr/pppppppp/8/8/8/8/PPPPPPPP/RNBQKBNR x KQkq - 0 1").is_err());
    // bad castling letter
    assert!(Position::from_fen("rnbqkbnr/pppppppp/8/8/8/8/PPPPPPPP/RNBQKBNR w KQxq - 0 1").is_err());
    // bad en-passant square
    assert!(Position::from_fen("rnbqkbnr/pppppppp/8/8/8/8/PPPPPPPP/RNBQKBNR w KQkq z9 0 1").is_err());
    // bad clock
    assert!(Position::from_fen("rnbqkbnr/pppppppp/8/8/8/8/PPPPPPPP/RNBQKBNR w KQkq - x 1").is_err());
    // fullmove number must be positive
    assert!(Position::from_fen("rnbqkbnr/pppppppp/8/8/8/8/PPPPPPPP/RNBQKBNR w KQkq - 0 0").is_err());
}

#[test]
fn double_pawn_advance_sets_en_passant_target() {
    let start = Position::initial();
    let skip = ChessMove::from_uci_long("e2e4", &start).unwrap();
    let after = start.after_move(&skip);
    assert_eq!(after.to_fen(), "rnbqkbnr/pppppppp/8/8/4P3/8/PPPP1PPP/RNBQKBNR b KQkq e3 0 1");
}

#[test]
fn other_moves_clear_en_passant_target() {
    let start = Position::initial();
    let skip = ChessMove::from_uci_long("e2e4", &start).unwrap();
    let after = start.after_move(&skip);
    let knight = ChessMove::from_uci_long("b8c6", &after).unwrap();
    let after2 = after.after_move(&knight);
    assert!(after2.en_passant.is_none());
    assert_eq!(after2.to_fen(), "r1bqkbnr/pppppppp/2n5/8/4P3/8/PPPP1PPP/RNBQKBNR w KQkq - 1 2");
}

#[test]
fn move_list_is_a_left_fold_of_single_applications() {
    let replayed = match to_uci_command_in("position startpos moves e2e4 e7e5").unwrap() {
        UciCommandIn::Position(p) => p,
        _ => panic!("expected a set-position command"),
    };
    let start = Position::initial();
    let first = ChessMove::from_uci_long("e2e4", &start).unwrap();
    let after_first = start.after_move(&first);
    let second = ChessMove::from_uci_long("e7e5", &after_first).unwrap();
    let stepwise = after_first.after_move(&second);
    assert_eq!(replayed, stepwise);
}

#[test]
fn fen_start_and_startpos_replay_identically() {
    let via_fen = to_uci_command_in(
        "position fen rnbqkbnr/pppppppp/8/8/8/8/PPPPPPPP/RNBQKBNR w KQkq - 0 1 moves e2e4 e7e5",
    )
    .unwrap();
    let via_startpos = to_uci_command_in("position startpos moves e2e4 e7e5").unwrap();
    assert_eq!(via_fen, via_startpos);
}

#[test]
fn promotion_letter_parses_and_renders() {
    let position = Position::from_fen("8/7P/8/8/8/8/8/8 w - - 0 1").unwrap();
    let promotion = ChessMove::from_uci_long("h7h8q", &position).unwrap();
    assert_eq!(promotion.to_uci_long(&position), "h7h8q");
    // a promotion letter where no pawn promotes is rejected
    assert!(ChessMove::from_uci_long("e2e4q", &Position::initial()).is_err());
    // malformed squares are rejected
    assert!(ChessMove::from_uci_long("z9e4", &Position::initial()).is_err());
    assert!(ChessMove::from_uci_long("e2", &Position::initial()).is_err());
}

#[test]
fn position_from_command_rejects_other_commands() {
    assert!(position_from_command("position startpos").is_ok());
    assert!(position_from_command("go").is_err());
    assert!(position_from_command("position sideways").is_err());
    assert!(position_from_command("position fen too few fields").is_err());
    assert!(position_from_command("position startpos garbage").is_err());
}

#[test]
fn run_session_quits_without_output_on_quit() {
    let input: Vec<String> = vec!["quit".to_string()];
    let (outputs, quit) = run_session(&input).expect("should not fail");
    assert!(outputs.is_empty());
    assert!(quit);
}

#[test]
fn run_session_surfaces_unknown_commands() {
    let input: Vec<String> = vec!["skibidi".to_string()];
    assert!(run_session(&input).is_err());
}

#[test]
fn run_session_rejects_search_without_position() {
    let input: Vec<String> = vec!["go".to_string()];
    assert!(run_session(&input).is_err());
}

#[test]
fn run_session_rejects_stop_without_search() {
    let input: Vec<String> = vec!["position startpos".to_string(), "stop".to_string()];
    assert!(run_session(&input).is_err());
}
