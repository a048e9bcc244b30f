use rsbasic::error::{Error, ErrorCode};
use rsbasic::listing::Listing;
use rsbasic::session::{startup, Action, Event, LineAction, LineResult, Session, Startup};

#[test]
fn partial_output_is_folded_into_the_next_prompt() {
    let mut s = Session::new(false);
    assert!(matches!(s.on_event(Event::Print("Why".into())), Action::Print(t) if t == "Why"));
    match s.on_event(Event::Input("? ".into(), false)) {
        Action::ReadInput(p, caps) => {
            assert_eq!(p, "Why? ");
            assert!(!caps);
        }
        _ => panic!("expected input"),
    }
    assert_eq!(s.pending(), "");
}

#[test]
fn only_text_after_the_last_line_end_stays_pending() {
    let mut s = Session::new(false);
    s.on_event(Event::Print("AB".into()));
    s.on_event(Event::Print("C\nDE\nF".into()));
    assert_eq!(s.pending(), "F");
    s.on_event(Event::Print("G".into()));
    assert_eq!(s.pending(), "FG");
    s.on_event(Event::Print("\n".into()));
    assert_eq!(s.pending(), "");
    s.on_event(Event::Print("READY.".into()));
    match s.on_event(Event::Stopped) {
        Action::ReadCommand(p) => assert_eq!(p, "READY."),
        _ => panic!("expected a command prompt"),
    }
    assert_eq!(s.pending(), "");
}

#[test]
fn a_batch_session_ends_when_the_program_stops() {
    let mut s = Session::new(true);
    assert!(matches!(s.on_event(Event::Stopped), Action::Exit));
}

#[test]
fn listing_errors_and_screen_events_clear_the_partial_line() {
    let mut s = Session::new(false);
    s.on_event(Event::Print("x".into()));
    match s.on_event(Event::List("ab".into(), vec![1..2])) {
        Action::PrintLine(t) => assert_eq!(t, "a\u{1b}[4mb\u{1b}[0m"),
        _ => panic!("expected a line"),
    }
    assert_eq!(s.pending(), "");
    s.on_event(Event::Print("x".into()));
    match s.on_event(Event::Errors(vec![Error::new(ErrorCode::SyntaxError, ""), Error::new(ErrorCode::FileNotFound, "a.bas")])) {
        Action::ShowErrors(v) => assert_eq!(
            v,
            vec!["\u{1b}[1m?SYNTAX ERROR\u{1b}[0m", "\u{1b}[1m?FILE NOT FOUND; a.bas\u{1b}[0m"]
        ),
        _ => panic!("expected errors"),
    }
    assert_eq!(s.pending(), "");
    s.on_event(Event::Print("x".into()));
    assert!(matches!(s.on_event(Event::Cls), Action::ClearScreen));
    assert_eq!(s.pending(), "");
    s.on_event(Event::Print("x".into()));
    s.on_failure();
    assert_eq!(s.pending(), "");
}

#[test]
fn file_and_key_events_pass_through() {
    let mut s = Session::new(false);
    s.on_event(Event::Print("x".into()));
    assert!(matches!(s.on_event(Event::Load("a".into())), Action::Load(n, false) if n == "a"));
    assert!(matches!(s.on_event(Event::Run("b".into())), Action::Load(n, true) if n == "b"));
    assert!(matches!(s.on_event(Event::Save("c".into())), Action::Save(n) if n == "c"));
    assert!(matches!(s.on_event(Event::Inkey), Action::ReadKey));
    assert!(matches!(s.on_event(Event::Running), Action::Continue));
    assert_eq!(s.pending(), "x");
}

#[test]
fn ctrl_c_drops_a_command_and_interrupts_input() {
    let mut s = Session::new(false);
    s.on_event(Event::Stopped);
    assert!(matches!(s.on_line(LineResult::Interrupted), LineAction::Reprompt));
    s.on_event(Event::Input("?".into(), true));
    assert!(matches!(s.on_line(LineResult::Interrupted), LineAction::Interrupt));
    s.on_event(Event::Stopped);
    assert!(matches!(s.on_line(LineResult::Line("RUN".into())), LineAction::Enter(t) if t == "RUN"));
    assert!(matches!(s.on_line(LineResult::Eof), LineAction::Exit));
    assert!(matches!(s.on_line(LineResult::Failed), LineAction::Fail));
}

#[test]
fn startup_runs_a_program_or_quits() {
    assert!(matches!(startup(Ok(Listing::new())), Startup::Quit(None)));
    let mut l = Listing::new();
    l.load_str("10 END").unwrap();
    match startup(Ok(l)) {
        Startup::Run(m) => assert_eq!(m.lines(), vec!["10 END"]),
        _ => panic!("expected a run"),
    }
    match startup(Err(Error::new(ErrorCode::FileNotFound, "x.bas"))) {
        Startup::Quit(Some(t)) => {
            let style = nu_ansi_term::Style::new().bold();
            assert_eq!(t, style.paint("?FILE NOT FOUND; x.bas").to_string());
        }
        _ => panic!("expected the error"),
    }
}

#[test]
fn the_partial_line_survives_quiet_events_into_the_prompt() {
    let mut s = Session::new(false);
    s.on_event(Event::Print("A\nB".into()));
    s.on_event(Event::Running);
    s.on_event(Event::Print("C".into()));
    s.on_event(Event::Inkey);
    s.on_event(Event::Save("x".into()));
    match s.on_event(Event::Stopped) {
        Action::ReadCommand(p) => assert_eq!(p, "BC"),
        _ => panic!("expected a command prompt"),
    }
}

#[test]
fn no_stale_partial_line_after_a_clearing_event() {
    let mut s = Session::new(false);
    s.on_event(Event::Print("Why".into()));
    s.on_event(Event::Cls);
    s.on_event(Event::Running);
    s.on_event(Event::Load("a".into()));
    match s.on_event(Event::Input("? ".into(), true)) {
        Action::ReadInput(p, caps) => {
            assert_eq!(p, "? ");
            assert!(caps);
        }
        _ => panic!("expected input"),
    }
}

#[test]
fn errors_are_shown_in_bold() {
    let e = Error::new(ErrorCode::BadFileName, "In line 1 of the patch file.");
    let style = nu_ansi_term::Style::new().bold();
    assert_eq!(e.shown(), style.paint(e.describe()).to_string());
}

#[test]
fn a_machine_error_is_shown_in_its_own_words() {
    let e = Error::new(ErrorCode::Reported, "?DIVISION BY ZERO IN 20");
    assert_eq!(e.describe(), "?DIVISION BY ZERO IN 20");
    let style = nu_ansi_term::Style::new().bold();
    assert_eq!(e.shown(), style.paint("?DIVISION BY ZERO IN 20").to_string());
    let mut s = Session::new(false);
    match s.on_event(Event::Errors(vec![e, Error::new(ErrorCode::SyntaxError, "")])) {
        Action::ShowErrors(v) => {
            assert_eq!(v.len(), 2);
            assert_eq!(v[0], style.paint("?DIVISION BY ZERO IN 20").to_string());
            assert_eq!(v[1], style.paint("?SYNTAX ERROR").to_string());
        }
        _ => panic!("expected the errors"),
    }
}
