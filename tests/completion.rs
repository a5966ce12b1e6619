use crush::{complete, CompletionError, DirectoryLister, Scope, Value};

fn strings(v: &[&str]) -> Vec<String> {
    v.iter().map(|x| x.to_string()).collect()
}

fn lister() -> DirectoryLister {
    let mut res = DirectoryLister::new();
    res.add(strings(&[]), strings(&["burrow"]));
    res.add(strings(&["burrow"]), strings(&["carrot", "lettuce", "table"]));
    res.add(strings(&["burrow", "table"]), strings(&["water"]));
    res
}

fn empty_lister() -> DirectoryLister {
    let mut res = DirectoryLister::new();
    res.add(strings(&[]), strings(&[]));
    res
}

#[test]
fn check_empty() {
    let line = "";
    let cursor = 0;

    let mut s = Scope::create_root();
    s.declare("abcd", Value::Empty()).unwrap();
    let completions = complete(line, cursor, &s, &empty_lister()).unwrap();
    assert_eq!(completions.len(), 1);
    assert_eq!(&completions[0].complete(line), "abcd");
}

#[test]
fn check_empty_token() {
    let line = "a ";
    let cursor = 2;

    let mut s = Scope::create_root();
    s.declare("abcd", Value::Empty()).unwrap();
    let completions = complete(line, cursor, &s, &empty_lister()).unwrap();
    assert_eq!(completions.len(), 1);
    assert_eq!(&completions[0].complete(line), "a abcd");
}

#[test]
fn check_subcommand() {
    let line = "x (a";
    let cursor = 4;

    let mut s = Scope::create_root();
    s.declare("abcd", Value::Empty()).unwrap();
    let completions = complete(line, cursor, &s, &empty_lister()).unwrap();
    assert_eq!(completions.len(), 1);
    assert_eq!(&completions[0].complete(line), "x (abcd");
}

#[test]
fn complete_simple_command() {
    let line = "ab";
    let cursor = 2;

    let mut s = Scope::create_root();
    s.declare("abcd", Value::Empty()).unwrap();
    let completions = complete(line, cursor, &s, &empty_lister()).unwrap();
    assert_eq!(completions.len(), 1);
    assert_eq!(&completions[0].complete(line), "abcd");
}

#[test]
fn complete_simple_file() {
    let line = "bur";
    let cursor = 3;

    let s = Scope::create_root();
    let completions = complete(line, cursor, &s, &lister()).unwrap();
    assert_eq!(completions.len(), 1);
    assert_eq!(&completions[0].complete(line), "burrow");
}

#[test]
fn complete_simple_file_with_dot() {
    let line = "./bur";
    let cursor = 5;

    let s = Scope::create_root();
    let completions = complete(line, cursor, &s, &lister()).unwrap();
    assert_eq!(completions.len(), 1);
    assert_eq!(&completions[0].complete(line), "./burrow");
}

#[test]
fn complete_long_path() {
    let line = "burrow/car";
    let cursor = 10;

    let s = Scope::create_root();
    let completions = complete(line, cursor, &s, &lister()).unwrap();
    assert_eq!(completions.len(), 1);
    assert_eq!(&completions[0].complete(line), "burrow/carrot");
}

#[test]
fn complete_namespaced_command() {
    let line = "abcd:bc";
    let cursor = 7;

    let mut s = Scope::create_root();
    let mut env = Scope::create_root();
    env.declare("bcde", Value::Empty()).unwrap();
    s.declare("abcd", Value::Scope(env)).unwrap();

    let completions = complete(line, cursor, &s, &empty_lister()).unwrap();
    assert_eq!(completions.len(), 1);
    assert_eq!(&completions[0].complete(line), "abcd:bcde");
}

#[test]
fn complete_namespaced_argument() {
    let line = "xxx abcd:bc";
    let cursor = 11;

    let mut s = Scope::create_root();
    let mut env = Scope::create_root();
    env.declare("bcde", Value::Empty()).unwrap();
    s.declare("abcd", Value::Scope(env)).unwrap();

    let completions = complete(line, cursor, &s, &empty_lister()).unwrap();
    assert_eq!(completions.len(), 1);
    assert_eq!(&completions[0].complete(line), "xxx abcd:bcde");
}

#[test]
fn complete_simple_argument() {
    let line = "abcd ab";
    let cursor = 7;

    let mut s = Scope::create_root();
    s.declare("abcd", Value::Empty()).unwrap();
    let completions = complete(line, cursor, &s, &empty_lister()).unwrap();
    assert_eq!(completions.len(), 1);
    assert_eq!(&completions[0].complete(line), "abcd abcd");
}

#[test]
fn check_cursor_in_middle_of_token() {
    let line = "ab";
    let cursor = 1;

    let mut s = Scope::create_root();
    s.declare("abcd", Value::Empty()).unwrap();
    let completions = complete(line, cursor, &s, &empty_lister()).unwrap();
    assert_eq!(completions.len(), 1);
    assert_eq!(&completions[0].complete(line), "abcdb");
}

#[test]
fn check_multiple_token() {
    let line = "ab cd ef";
    let cursor = 5;

    let mut s = Scope::create_root();
    s.declare("cdef", Value::Empty()).unwrap();
    let completions = complete(line, cursor, &s, &empty_lister()).unwrap();
    assert_eq!(completions.len(), 1);
    assert_eq!(&completions[0].complete(line), "ab cdef ef");
}

#[test]
fn check_named_argument() {
    let line = "ab foo=cd";
    let cursor = 9;

    let mut s = Scope::create_root();
    s.declare("cdef", Value::Empty()).unwrap();
    let completions = complete(line, cursor, &s, &empty_lister()).unwrap();
    assert_eq!(completions.len(), 1);
    assert_eq!(&completions[0].complete(line), "ab foo=cdef");
}

#[test]
fn names_come_before_files() {
    let line = "bu";
    let cursor = 2;

    let mut s = Scope::create_root();
    s.declare("bunny", Value::Empty()).unwrap();
    let completions = complete(line, cursor, &s, &lister()).unwrap();
    assert_eq!(completions.len(), 2);
    assert_eq!(&completions[0].complete(line), "bunny");
    assert_eq!(&completions[1].complete(line), "burrow");
}

#[test]
fn names_keep_declaration_order() {
    let mut s = Scope::create_root();
    s.declare("abz", Value::Empty()).unwrap();
    s.declare("xyz", Value::Empty()).unwrap();
    s.declare("aba", Value::Empty()).unwrap();
    let completions = complete("ab", 2, &s, &empty_lister()).unwrap();
    assert_eq!(completions.len(), 2);
    assert_eq!(completions[0].complete("ab"), "abz");
    assert_eq!(completions[1].complete("ab"), "aba");
}

#[test]
fn every_completion_applies_at_the_cursor() {
    let mut s = Scope::create_root();
    s.declare("abcd", Value::Empty()).unwrap();
    s.declare("abce", Value::Empty()).unwrap();
    let line = "ab cd";
    let completions = complete(line, 2, &s, &empty_lister()).unwrap();
    assert_eq!(completions.len(), 2);
    assert_eq!(completions[0].complete(line), "abcd cd");
    assert_eq!(completions[1].complete(line), "abce cd");
}

#[test]
fn exact_name_gives_empty_completion() {
    let mut s = Scope::create_root();
    s.declare("abcd", Value::Empty()).unwrap();
    let completions = complete("abcd", 4, &s, &empty_lister()).unwrap();
    assert_eq!(completions.len(), 1);
    assert_eq!(completions[0].complete("abcd"), "abcd");
}

#[test]
fn unknown_member_is_an_error() {
    let s = Scope::create_root();
    let r = complete("xyz:ab", 6, &s, &empty_lister());
    assert_eq!(r.err(), Some(CompletionError::UnknownMember));
    let r = complete("cmd xyz:ab", 10, &s, &empty_lister());
    assert_eq!(r.err(), Some(CompletionError::UnknownMember));
}

#[test]
fn member_of_plain_value_is_unknown() {
    let mut s = Scope::create_root();
    s.declare("flag", Value::Bool(true)).unwrap();
    let completions = complete("flag:x", 6, &s, &empty_lister()).unwrap();
    assert_eq!(completions.len(), 0);
    let r = complete("flag:x:y", 8, &s, &empty_lister());
    assert_eq!(r.err(), Some(CompletionError::UnknownMember));
}

#[test]
fn quoted_string_command_is_unsupported() {
    let s = Scope::create_root();
    let r = complete("\"ab\"", 4, &s, &empty_lister());
    assert_eq!(r.err(), Some(CompletionError::UnsupportedCompletionTarget));
}

#[test]
fn quoted_string_argument_is_unsupported() {
    let s = Scope::create_root();
    let r = complete("ab \"x\"", 6, &s, &empty_lister());
    assert_eq!(r.err(), Some(CompletionError::UnsupportedCompletionTarget));
}

#[test]
fn quoted_file_and_index_are_unsupported() {
    let s = Scope::create_root();
    let r = complete("'ab'", 4, &s, &empty_lister());
    assert_eq!(r.err(), Some(CompletionError::UnsupportedCompletionTarget));
    let r = complete("a[b]", 4, &s, &empty_lister());
    assert_eq!(r.err(), Some(CompletionError::UnsupportedCompletionTarget));
}

#[test]
fn unparseable_line_is_parse_error() {
    let s = Scope::create_root();
    let r = complete("a )", 3, &s, &empty_lister());
    assert_eq!(r.err(), Some(CompletionError::ParseError));
    let r = complete("\"ab", 3, &s, &empty_lister());
    assert_eq!(r.err(), Some(CompletionError::ParseError));
}

#[test]
fn operator_under_cursor_is_parse_error() {
    let s = Scope::create_root();
    let r = complete("==", 2, &s, &empty_lister());
    assert_eq!(r.err(), Some(CompletionError::ParseError));
}

#[test]
fn computed_member_path_is_invalid() {
    let s = Scope::create_root();
    let r = complete("(a):b", 5, &s, &empty_lister());
    assert_eq!(r.err(), Some(CompletionError::InvalidPath));
}

#[test]
fn unknown_directory_is_io_error() {
    let s = Scope::create_root();
    let r = complete("bur", 3, &s, &DirectoryLister::new());
    assert_eq!(r.err(), Some(CompletionError::IoError));
    let r = complete("nowhere/x", 9, &s, &lister());
    assert_eq!(r.err(), Some(CompletionError::IoError));
}

#[test]
fn closure_argument_completes_inside() {
    let mut s = Scope::create_root();
    s.declare("abcd", Value::Empty()).unwrap();
    let line = "x {y a";
    let completions = complete(line, 6, &s, &empty_lister()).unwrap();
    assert_eq!(completions.len(), 1);
    assert_eq!(completions[0].complete(line), "x {y abcd");
}

#[test]
fn trailing_separator_lists_whole_directory() {
    let s = Scope::create_root();
    let line = "burrow/";
    let completions = complete(line, 7, &s, &lister()).unwrap();
    assert_eq!(completions.len(), 3);
    assert_eq!(completions[0].complete(line), "burrow/carrot");
    assert_eq!(completions[1].complete(line), "burrow/lettuce");
    assert_eq!(completions[2].complete(line), "burrow/table");
}

#[test]
fn blank_prefix_lists_every_name() {
    let mut s = Scope::create_root();
    s.declare("abcd", Value::Empty()).unwrap();
    s.declare("xy", Value::Empty()).unwrap();
    let line = "   ";
    let completions = complete(line, 3, &s, &empty_lister()).unwrap();
    assert_eq!(completions.len(), 2);
    assert_eq!(completions[0].complete(line), "   abcd");
    assert_eq!(completions[1].complete(line), "   xy");
}

#[test]
fn text_after_cursor_is_ignored() {
    let mut s = Scope::create_root();
    s.declare("abcd", Value::Empty()).unwrap();
    let a = complete("ab", 2, &s, &empty_lister()).unwrap();
    let b = complete("ab (((", 2, &s, &empty_lister()).unwrap();
    assert_eq!(a.len(), b.len());
    assert_eq!(b[0].complete("ab (((") , "abcd (((");
}
