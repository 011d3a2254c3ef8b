use dyncomp::alias_map::AliasMap;
use dyncomp::resolve::{
    command_invocation, dispatch, plan_invocation, print_command, subcommand_names, Action,
    DispatchError, Request,
};

fn map_of(pairs: &[(&str, &str)]) -> AliasMap {
    AliasMap::from_pairs(pairs.iter().map(|(k, v)| (k.to_string(), v.to_string())).collect())
}

#[test]
fn quoted_words_stay_whole() {
    let inv = command_invocation("echo \"hello world\"").unwrap();
    assert_eq!(inv.program, "echo");
    assert_eq!(inv.args, vec!["hello world".to_string()]);
}

#[test]
fn escapes_and_single_quotes() {
    let inv = command_invocation("ls -l 'a b' c\\ d  e").unwrap();
    assert_eq!(inv.program, "ls");
    assert_eq!(inv.args, vec!["-l", "a b", "c d", "e"]);
}

#[test]
fn unterminated_quote_is_lex_error() {
    assert_eq!(command_invocation("echo \"oops").unwrap_err(), DispatchError::LexError);
}

#[test]
fn empty_command_is_refused() {
    assert_eq!(command_invocation("").unwrap_err(), DispatchError::EmptyCommand);
    assert_eq!(command_invocation("   ").unwrap_err(), DispatchError::EmptyCommand);
}

#[test]
fn plan_from_words() {
    assert_eq!(plan_invocation(None).unwrap_err(), DispatchError::LexError);
    assert_eq!(plan_invocation(Some(vec![])).unwrap_err(), DispatchError::EmptyCommand);
    let inv = plan_invocation(Some(vec!["git".to_string(), "log".to_string(), "-1".to_string()])).unwrap();
    assert_eq!(inv.program, "git");
    assert_eq!(inv.args, vec!["log", "-1"]);
    let lone = plan_invocation(Some(vec!["make".to_string()])).unwrap();
    assert_eq!(lone.program, "make");
    assert!(lone.args.is_empty());
}

#[test]
fn print_gives_raw_command() {
    let m = map_of(&[("run", "echo hi")]);
    match dispatch(&m, &Request::Print("run".to_string())).unwrap() {
        Action::Print(c) => assert_eq!(c, "echo hi"),
        Action::Execute(_) => panic!("print must not run anything"),
    }
    assert_eq!(print_command(&m, &"run".to_string()).unwrap(), "echo hi");
}

#[test]
fn print_unknown_alias_fails() {
    let m = map_of(&[("run", "echo hi")]);
    assert_eq!(
        dispatch(&m, &Request::Print("walk".to_string())).unwrap_err(),
        DispatchError::UnknownAlias
    );
    assert_eq!(print_command(&AliasMap::new(), &"run".to_string()).unwrap_err(), DispatchError::UnknownAlias);
}

#[test]
fn run_splits_the_command() {
    let m = map_of(&[("greet", "echo 'hello there' now"), ("bad", "echo 'x"), ("none", "")]);
    match dispatch(&m, &Request::Run("greet".to_string())).unwrap() {
        Action::Execute(inv) => {
            assert_eq!(inv.program, "echo");
            assert_eq!(inv.args, vec!["hello there", "now"]);
        }
        Action::Print(_) => panic!("run must not print"),
    }
    assert_eq!(dispatch(&m, &Request::Run("bad".to_string())).unwrap_err(), DispatchError::LexError);
    assert_eq!(dispatch(&m, &Request::Run("none".to_string())).unwrap_err(), DispatchError::EmptyCommand);
    assert_eq!(dispatch(&m, &Request::Run("gone".to_string())).unwrap_err(), DispatchError::UnknownAlias);
}

#[test]
fn print_alias_is_not_a_subcommand() {
    let m = map_of(&[("print", "echo shadowed"), ("build", "cargo build"), ("test", "cargo test")]);
    let mut names = subcommand_names(&m);
    names.sort();
    assert_eq!(names, vec!["build", "test"]);
    assert!(subcommand_names(&AliasMap::new()).is_empty());
}
