use crush::{
    ast, classify_parsed, close_command, complete_parsed, declare, find_command_in_job_list, tokenize,
    CompletionCommand, CompletionError, DirectoryLister, JobListNode, LastArgument, Location, ParseResult,
    ParseState, PartialCommandResult, Scope, TokenType, Value,
};

#[test]
fn close_command_test() {
    assert_eq!(close_command("x (a"), "x (a)");
    assert_eq!(close_command("x {a"), "x {a}");
    assert_eq!(close_command("x (a) {b} {c (d) (e"), "x (a) {b} {c (d) (e)}");
}

#[test]
fn find_command_in_substitution_test() {
    let ast = ast("a (b)").unwrap();
    let cmd = find_command_in_job_list(&ast, 4).unwrap();
    assert_eq!(cmd.location, Location::new(3, 4))
}

#[test]
fn find_command_in_closure_test() {
    let ast = ast("a {b}").unwrap();
    let cmd = find_command_in_job_list(&ast, 4).unwrap();
    assert_eq!(cmd.location, Location::new(3, 4))
}

#[test]
fn find_command_in_complicated_mess_test() {
    let ast = ast("a | b {c:d (e f=g) h=(i j)}").unwrap();
    let cmd = find_command_in_job_list(&ast, 25).unwrap();
    assert_eq!(cmd.location, Location::new(22, 25))
}

#[test]
fn find_command_in_operator() {
    let ast = ast("ps | where {^cpu == (max_)}").unwrap();
    let cmd = find_command_in_job_list(&ast, 25).unwrap();
    assert_eq!(cmd.location, Location::new(21, 25))
}

#[test]
fn close_twice_adds_nothing() {
    for p in ["", "x (a", "x {a (b", "x (a) {b} {c (d) (e", "a ) (", "x 'a(' {"] {
        let once = close_command(p);
        assert_eq!(close_command(&once), once);
    }
}

#[test]
fn close_keeps_balanced_lines() {
    for p in ["", "x (a)", "x {a (b)}", ")", "a \"(\""] {
        assert_eq!(close_command(p), p);
    }
}

#[test]
fn close_ignores_quoted_brackets() {
    assert_eq!(close_command("x \"(\" {"), "x \"(\" {}");
    assert_eq!(close_command("x ({"), "x ({})");
}

#[test]
fn job_falls_back_to_last_command() {
    let ast = ast("a | b").unwrap();
    let cmd = find_command_in_job_list(&ast, 3).unwrap();
    assert_eq!(cmd.location, Location::new(4, 5));
}

#[test]
fn job_list_falls_back_to_last_job() {
    let ast = ast("a; b c").unwrap();
    let cmd = find_command_in_job_list(&ast, 2).unwrap();
    assert_eq!(cmd.location, Location::new(3, 6));
}

#[test]
fn empty_job_list_has_nothing_to_complete() {
    let list = JobListNode { jobs: vec![], location: Location::new(0, 0) };
    assert_eq!(find_command_in_job_list(&list, 0).err(), Some(CompletionError::NothingToComplete));
}

#[test]
fn assignment_is_looked_through() {
    let ast = ast("a x=(b c)").unwrap();
    let cmd = find_command_in_job_list(&ast, 8).unwrap();
    assert_eq!(cmd.location, Location::new(5, 8));
}

#[test]
fn location_contains_both_ends() {
    let l = Location::new(3, 5);
    assert!(!l.contains(2));
    assert!(l.contains(3));
    assert!(l.contains(5));
    assert!(!l.contains(6));
}

#[test]
fn tokens_of_a_line() {
    let t = tokenize("ab:c (d) f=\"g\" ^h == x/y");
    let kinds: Vec<TokenType> = t.iter().map(|t| t.token_type).collect();
    assert_eq!(
        kinds,
        vec![
            TokenType::Label,
            TokenType::Colon,
            TokenType::Label,
            TokenType::SubStart,
            TokenType::Label,
            TokenType::SubEnd,
            TokenType::Label,
            TokenType::Assign,
            TokenType::QuotedString,
            TokenType::Field,
            TokenType::Operator,
            TokenType::Label,
            TokenType::Slash,
            TokenType::Label,
        ]
    );
    assert_eq!(t[8].data, "\"g\"");
    assert_eq!((t[8].start, t[8].end), (11, 14));
}

#[test]
fn parse_error_on_unmatched_closer() {
    assert_eq!(ast("a )").err(), Some(CompletionError::ParseError));
    assert_eq!(ast("(").err(), Some(CompletionError::ParseError));
}

#[test]
fn classify_named_argument() {
    let tree = ast("ab foo=cd").unwrap();
    match classify_parsed(&tree, 9).unwrap() {
        ParseResult::PartialArgument(p) => {
            assert_eq!(p.last_argument_name, Some("foo".to_string()));
            assert!(matches!(p.command, CompletionCommand::Unknown));
            assert!(p.previous_arguments.is_empty());
            match p.last_argument {
                LastArgument::Field(f) => assert_eq!(f, vec!["cd".to_string()]),
                _ => panic!("expected a field"),
            }
        }
        _ => panic!("expected an argument"),
    }
}

#[test]
fn classify_path_and_empty_line() {
    let tree = ast("./a/b").unwrap();
    match classify_parsed(&tree, 5).unwrap() {
        ParseResult::PartialPath(p) => assert_eq!(p, vec![".".to_string(), "a".to_string(), "b".to_string()]),
        _ => panic!("expected a path"),
    }
    let tree = ast("").unwrap();
    assert!(matches!(classify_parsed(&tree, 0).unwrap(), ParseResult::Nothing));
}

#[test]
fn known_command_and_quoted_argument_give_nothing() {
    let mut s = Scope::create_root();
    s.declare("abcd", Value::Empty()).unwrap();
    let lister = DirectoryLister::new();
    let known = ParseResult::PartialArgument(PartialCommandResult {
        command: CompletionCommand::Known(vec!["abcd".to_string()]),
        previous_arguments: vec![],
        last_argument_name: None,
        last_argument: LastArgument::Unknown,
    });
    assert_eq!(complete_parsed(known, 0, &s, &lister).unwrap().len(), 0);
    let quoted = ParseResult::PartialArgument(PartialCommandResult {
        command: CompletionCommand::Unknown,
        previous_arguments: vec![],
        last_argument_name: None,
        last_argument: LastArgument::QuotedString("ab".to_string()),
    });
    assert_eq!(complete_parsed(quoted, 0, &s, &lister).unwrap().len(), 0);
}

#[test]
fn declare_rejects_twice_and_read_only() {
    let mut s = Scope::create_root();
    s.declare("a", Value::Empty()).unwrap();
    assert_eq!(s.declare("a", Value::Empty()).err(), Some(CompletionError::AlreadyDeclared));
    s.set_read_only();
    assert_eq!(s.declare("b", Value::Empty()).err(), Some(CompletionError::ReadOnlyScope));
}

#[test]
fn constants_namespace() {
    let mut root = Scope::create_root();
    root.declare("x", Value::Empty()).unwrap();
    declare(&mut root).unwrap();
    assert_eq!(root.dump(), vec!["x".to_string(), "constants".to_string()]);
    match root.get("constants") {
        Some(Value::Scope(env)) => {
            assert_eq!(env.dump(), vec!["true".to_string(), "false".to_string(), "global".to_string()]);
            match env.get("global") {
                Some(Value::Scope(g)) => assert_eq!(g.dump(), vec!["x".to_string()]),
                _ => panic!("expected a namespace"),
            }
        }
        _ => panic!("expected a namespace"),
    }
    assert_eq!(declare(&mut root).err(), Some(CompletionError::AlreadyDeclared));
}

#[test]
fn parse_state_walks_tokens() {
    let mut st = ParseState::new(tokenize("a bc d"));
    assert_eq!(st.location(), Some((0, 1)));
    assert_eq!(st.peek(), Some("bc"));
    assert_eq!(st.next(), Some("bc"));
    assert_eq!(st.location(), Some((2, 4)));
    assert_eq!(st.next(), Some("d"));
    assert_eq!(st.peek(), None);
    assert_eq!(st.next(), None);
    assert_eq!(st.location(), None);
}

#[test]
fn directory_needed_is_the_parent() {
    let s = Scope::create_root();
    let p = crush::parse("ls burrow/ca", 12, &s).unwrap();
    assert_eq!(crush::directory_needed(&p), Some(vec!["burrow".to_string()]));
    let p = crush::parse("bur", 3, &s).unwrap();
    assert_eq!(crush::directory_needed(&p), Some(vec![]));
    let p = crush::parse("a:b", 3, &s).unwrap();
    assert_eq!(crush::directory_needed(&p), None);
    let p = crush::parse("", 0, &s).unwrap();
    assert_eq!(crush::directory_needed(&p), None);
}

#[test]
fn empty_field_path_is_invalid() {
    let s = Scope::create_root();
    let lister = DirectoryLister::new();
    let empty = ParseResult::PartialCommand(vec![]);
    assert_eq!(complete_parsed(empty, 0, &s, &lister).err(), Some(CompletionError::InvalidPath));
    let empty = ParseResult::PartialPath(vec![]);
    assert_eq!(complete_parsed(empty, 0, &s, &lister).err(), Some(CompletionError::InvalidPath));
}

#[test]
fn constants_hold_their_values() {
    let mut root = Scope::create_root();
    declare(&mut root).unwrap();
    match root.get("constants") {
        Some(Value::Scope(env)) => {
            assert!(matches!(env.get("true"), Some(Value::Bool(true))));
            assert!(matches!(env.get("false"), Some(Value::Bool(false))));
            assert!(matches!(env.get("global"), Some(Value::Scope(_))));
        }
        _ => panic!("expected a namespace"),
    }
}

#[test]
fn path_with_trailing_separator_parses() {
    let tree = ast("burrow/").unwrap();
    match classify_parsed(&tree, 7).unwrap() {
        ParseResult::PartialPath(p) => assert_eq!(p, vec!["burrow".to_string(), String::new()]),
        _ => panic!("expected a path"),
    }
}
