use muhle_intelligence::commands::{
    debug, execute_command, go, parse_i32, parse_u32, position, setoption, tokenize_command_input, Command,
    GoParameters,
};
use muhle_intelligence::game::{Move, Node, Player, Position};
use muhle_intelligence::coordinator::Coordinator;
use muhle_intelligence::messages::option;
use muhle_intelligence::options::{Check, Combo, Spin, String_};

fn toks(line: &str) -> Vec<String> {
    tokenize_command_input(line)
}

#[test]
fn tokenize_splits_on_blanks() {
    assert_eq!(tokenize_command_input("  go \t depth 3\n"), vec!["go", "depth", "3"]);
    assert!(tokenize_command_input(" \t ").is_empty());
    assert_eq!(tokenize_command_input("quit"), vec!["quit"]);
}

#[test]
fn numbers_parse_like_std() {
    assert_eq!(parse_u32("4294967295"), Some(u32::MAX));
    assert_eq!(parse_u32("4294967296"), None);
    assert_eq!(parse_u32("+7"), Some(7));
    assert_eq!(parse_u32("-7"), None);
    assert_eq!(parse_u32(""), None);
    assert_eq!(parse_u32("12a"), None);
    assert_eq!(parse_i32("-2147483648"), Some(i32::MIN));
    assert_eq!(parse_i32("2147483648"), None);
    assert_eq!(parse_i32("-0"), Some(0));
    assert_eq!(parse_i32("-"), None);
    assert_eq!(parse_i32("-+3"), None);
    for text in ["0", "15", "-15", "+15", "x", "99999999999"] {
        assert_eq!(parse_i32(text), text.parse::<i32>().ok(), "{}", text);
        assert_eq!(parse_u32(text), text.parse::<u32>().ok(), "{}", text);
    }
}

#[test]
fn go_parameters() {
    assert_eq!(
        go(&toks("go wtime 1000 btime 2000 depth 4 movetime 300 ponder")).unwrap(),
        GoParameters { ponder: true, wtime: Some(1000), btime: Some(2000), depth: Some(4), movetime: Some(300) }
    );
    assert_eq!(
        go(&toks("go")).unwrap(),
        GoParameters { ponder: false, wtime: None, btime: None, depth: None, movetime: None }
    );
    assert!(go(&toks("go depth")).is_err());
    assert!(go(&toks("go wtime x")).is_err());
    assert!(go(&toks("go movetime -1")).is_err());
}

#[test]
fn position_command() {
    let (p, moves) = position(&toks("position startpos moves a7 d7 g7xa7")).unwrap();
    assert_eq!(p, Position::default());
    assert_eq!(
        moves,
        vec![
            Move::Place { place_index: 0 },
            Move::Place { place_index: 1 },
            Move::PlaceCapture { place_index: 2, capture_index: 0 }
        ]
    );
    let (p, moves) = position(&toks("position pos b:wa7:bg1:2")).unwrap();
    assert_eq!(p.player, Player::Black);
    assert_eq!(p.plies, 3);
    assert_eq!(p.board[0], Node::White);
    assert_eq!(p.board[23], Node::Black);
    assert!(moves.is_empty());
    assert!(position(&toks("position")).is_err());
    assert!(position(&toks("position pos")).is_err());
    assert!(position(&toks("position somewhere")).is_err());
    assert!(position(&toks("position startpos moves a7 z9")).is_err());
}

#[test]
fn debug_and_setoption() {
    assert_eq!(debug(&toks("debug on")), Ok(true));
    assert_eq!(debug(&toks("debug off")), Ok(false));
    assert!(debug(&toks("debug maybe")).is_err());
    assert!(debug(&toks("debug")).is_err());
    assert_eq!(
        setoption(&toks("setoption name TwelveMensMorris value true")).unwrap(),
        (String::from("TwelveMensMorris"), Some(String::from("true")))
    );
    assert_eq!(setoption(&toks("setoption name Clear")).unwrap(), (String::from("Clear"), None));
    assert!(setoption(&toks("setoption")).is_err());
    assert!(setoption(&toks("setoption name")).is_err());
    assert!(setoption(&toks("setoption name X value")).is_err());
}

#[test]
fn commands_dispatch() {
    assert!(matches!(execute_command(&toks("gbgp")), Ok(Command::Gbgp)));
    assert!(matches!(execute_command(&toks("isready")), Ok(Command::IsReady)));
    assert!(matches!(execute_command(&toks("newgame")), Ok(Command::NewGame)));
    assert!(matches!(execute_command(&toks("stop")), Ok(Command::Stop)));
    assert!(matches!(execute_command(&toks("ponderhit")), Ok(Command::PonderHit)));
    assert!(matches!(execute_command(&toks("quit")), Ok(Command::Quit)));
    assert!(matches!(execute_command(&toks("debug on")), Ok(Command::Debug(true))));
    assert!(matches!(execute_command(&toks("go depth 2")), Ok(Command::Go(GoParameters { depth: Some(2), .. }))));
    assert!(matches!(execute_command(&toks("position startpos")), Ok(Command::Position { .. })));
    assert!(matches!(execute_command(&toks("setoption name A value b")), Ok(Command::SetOption { .. })));
    assert!(execute_command(&toks("jump")).is_err());
    assert!(execute_command(&Vec::new()).is_err());
    assert!(execute_command(&toks("go depth")).is_err());
}

#[test]
fn option_values() {
    let mut check = Check::new(false);
    assert!(check.set("true").is_ok());
    assert!(check.value);
    assert!(check.set("yes").is_err());
    assert!(check.value);
    assert!(check.set("false").is_ok());
    assert!(!check.value);

    let mut spin = Spin::new(5, 1, 10);
    assert!(spin.set("7").is_ok());
    assert_eq!(spin.value, 7);
    assert!(spin.set("11").is_err());
    assert!(spin.set("x").is_err());
    assert_eq!(spin.value, 7);

    let mut combo = Combo::new("a", vec![String::from("a"), String::from("b")]);
    assert!(combo.set("b").is_ok());
    assert_eq!(combo.value, "b");
    assert!(combo.set("c").is_err());
    assert_eq!(combo.value, "b");

    let mut text = String_::new("x");
    text.set("y");
    assert_eq!(text.value, "y");
    assert_eq!(text.default, "x");
}

#[test]
fn option_descriptions() {
    let check = Check::new(false);
    assert_eq!(option("TwelveMensMorris", &check.display()), "option name TwelveMensMorris type check default false\n");
    assert_eq!(Spin::new(128, 1, -5).display(), "type spin default 128 min 1 max -5");
    let combo = Combo::new("a", vec![String::from("a"), String::from("b")]);
    assert_eq!(combo.display(), "type combo default a var a var b");
    assert_eq!(String_::new("x y").display(), "type string default x y");
}

#[test]
fn coordinator_decisions() {
    use_coordinator();
}

fn use_coordinator() {
    let mut c = Coordinator::new();
    let params = GoParameters { ponder: false, wtime: None, btime: None, depth: Some(2), movetime: None };
    assert!(c.go(params).is_err());
    assert_eq!(c.newgame(), muhle_intelligence::coordinator::Action::StartWorker);
    assert_eq!(c.newgame(), muhle_intelligence::coordinator::Action::Nothing);
    assert_eq!(c.go(params), Ok(muhle_intelligence::coordinator::Action::WakeWorker));
    assert_eq!(c.game.depth, Some(2));
    assert_eq!(c.stop(), muhle_intelligence::coordinator::Action::RaiseStop);
    assert!(c.setoption("TwelveMensMorris", Some("true")).is_ok());
    assert_eq!(c.variant(), muhle_intelligence::game::Variant::Twelve);
    assert!(c.setoption("TwelveMensMorris", None).is_err());
    assert!(c.setoption("Hash", Some("1")).is_err());
    assert_eq!(c.quit(), muhle_intelligence::coordinator::Action::StopWorker);
    assert_eq!(c.quit(), muhle_intelligence::coordinator::Action::Nothing);
}

#[test]
fn handshake_gate_and_option_values() {
    let mut c = Coordinator::new();
    assert!(!c.accepts(&Command::NewGame));
    assert!(!c.accepts(&Command::IsReady));
    assert!(c.accepts(&Command::Gbgp));
    assert!(c.accepts(&Command::Quit));
    c.gbgp();
    assert!(c.accepts(&Command::NewGame));
    assert!(c.setoption("TwelveMensMorris", Some("maybe")).is_err());
    assert!(!c.twelve_mens_morris.value);
    assert!(c.setoption("TwelveMensMorris", Some("false")).is_ok());
}
