use deet::command::{same_chars, DebuggerCommand};
use deet::target::{parse_address, BreakTarget};

#[test]
fn address_parsing() {
    assert_eq!(parse_address("0x401000"), Some(0x401000));
    assert_eq!(parse_address("0X401abc"), Some(0x401abc));
    assert_eq!(parse_address("401ABC"), Some(0x401abc));
    assert_eq!(parse_address("+ff"), Some(0xff));
    assert_eq!(parse_address("ffffffffffffffff"), Some(usize::MAX));
    assert_eq!(parse_address("10000000000000000"), None);
    assert_eq!(parse_address("0x"), None);
    assert_eq!(parse_address(""), None);
    assert_eq!(parse_address("12g4"), None);
}

#[test]
fn break_targets_by_syntax() {
    assert_eq!(BreakTarget::parse("*0x401000"), BreakTarget::Address(0x401000));
    assert_eq!(BreakTarget::parse("*zz"), BreakTarget::BadAddress);
    assert_eq!(BreakTarget::parse("*"), BreakTarget::BadAddress);
    assert_eq!(BreakTarget::parse("12"), BreakTarget::Line(12));
    assert_eq!(BreakTarget::parse("+7"), BreakTarget::Line(7));
    assert_eq!(BreakTarget::parse("main"), BreakTarget::Function("main".to_string()));
    assert_eq!(BreakTarget::parse("12a"), BreakTarget::Function("12a".to_string()));
    assert_eq!(
        BreakTarget::parse("99999999999999999999999"),
        BreakTarget::Function("99999999999999999999999".to_string())
    );
}

fn toks(line: &str) -> Vec<&str> {
    line.split_whitespace().collect()
}

#[test]
fn commands_from_words() {
    assert!(matches!(DebuggerCommand::from_tokens(&toks("q")), Some(DebuggerCommand::Quit)));
    assert!(matches!(DebuggerCommand::from_tokens(&toks("quit")), Some(DebuggerCommand::Quit)));
    assert!(matches!(DebuggerCommand::from_tokens(&toks("cont")), Some(DebuggerCommand::Continue)));
    assert!(matches!(DebuggerCommand::from_tokens(&toks("c")), Some(DebuggerCommand::Continue)));
    assert!(matches!(DebuggerCommand::from_tokens(&toks("bk")), Some(DebuggerCommand::Backtrace)));
    assert!(matches!(DebuggerCommand::from_tokens(&toks("print")), Some(DebuggerCommand::Print)));
    assert!(matches!(DebuggerCommand::from_tokens(&toks("n")), Some(DebuggerCommand::Next)));
    assert!(DebuggerCommand::from_tokens(&toks("frobnicate")).is_none());
    assert!(DebuggerCommand::from_tokens(&toks("b")).is_none());
    assert!(DebuggerCommand::from_tokens(&toks("b main extra")).is_none());
    match DebuggerCommand::from_tokens(&toks("break main")) {
        Some(DebuggerCommand::Break(s)) => assert_eq!(s, "main"),
        _ => panic!("expected a break command"),
    }
    match DebuggerCommand::from_tokens(&toks("r a bb ccc")) {
        Some(DebuggerCommand::Run(args)) => assert_eq!(args, vec!["a", "bb", "ccc"]),
        _ => panic!("expected a run command"),
    }
    match DebuggerCommand::from_tokens(&toks("run")) {
        Some(DebuggerCommand::Run(args)) => assert!(args.is_empty()),
        _ => panic!("expected a run command"),
    }
}

#[test]
fn same_chars_compares_text() {
    assert!(same_chars("main", "main"));
    assert!(!same_chars("main", "mai"));
    assert!(!same_chars("main", "Main"));
    assert!(same_chars("", ""));
}
