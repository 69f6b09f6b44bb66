use kennsh::eval::{VarEnv, evaluate_command_item, subcommand_lines};
use kennsh::parser::parse;
use kennsh::syntax::{CommandItem, CommandSyntax, SyntaxTree};

fn item_of(line: &str) -> CommandItem {
    match parse(line.to_string()).unwrap() {
        SyntaxTree::Command(CommandSyntax::Command(mut items)) => items.remove(0),
        other => panic!("unexpected tree: {:?}", other),
    }
}

#[test]
fn literal_evaluates_to_itself() {
    let env = VarEnv::new();
    let item = item_of("\"a b\"");
    assert_eq!(evaluate_command_item(&item, &env, &vec![]), "a b");
}

#[test]
fn raw_segment_evaluates_to_itself() {
    let env = VarEnv::new();
    let item = item_of("plain");
    assert_eq!(evaluate_command_item(&item, &env, &vec![]), "plain");
}

#[test]
fn variable_resolves_from_environment() {
    let mut env = VarEnv::new();
    env.set_variable("status".to_string(), "0".to_string());
    let item = item_of("$status");
    assert_eq!(evaluate_command_item(&item, &env, &vec![]), "0");
}

#[test]
fn unset_variable_is_empty_not_an_error() {
    let env = VarEnv::new();
    let item = item_of("$missing");
    assert_eq!(evaluate_command_item(&item, &env, &vec![]), "");
}

#[test]
fn variable_set_then_removed() {
    let mut env = VarEnv::new();
    env.set_variable("x".to_string(), "1".to_string());
    env.remove_variable("x");
    assert!(env.read_variable("x").is_none());
}

#[test]
fn newest_variable_value_wins() {
    let mut env = VarEnv::new();
    env.set_variable("x".to_string(), "1".to_string());
    env.set_variable("x".to_string(), "2".to_string());
    assert_eq!(env.read_variable("x").unwrap(), "2");
}

#[test]
fn subcommand_substitution_concatenates() {
    // A variable, literal text and a subcommand glued into one token.
    let mut env = VarEnv::new();
    env.set_variable("X".to_string(), "5".to_string());
    let sub = parse("echo hi".to_string()).unwrap();
    let item = CommandItem::Concatenation(vec![
        CommandItem::VariableReference("X".to_string()),
        CommandItem::RawSegment("-".to_string()),
        CommandItem::Subcommand(Box::new(sub)),
    ]);
    let lines = subcommand_lines(&item);
    assert_eq!(lines, vec!["echo hi".to_string()]);
    let outputs = vec!["hi\n".to_string()];
    assert_eq!(evaluate_command_item(&item, &env, &outputs), "5-hi");
}

#[test]
fn subcommand_output_trims_trailing_whitespace_only() {
    let env = VarEnv::new();
    let sub = parse("x".to_string()).unwrap();
    let item = CommandItem::Subcommand(Box::new(sub));
    let outputs = vec!["  hi \n".to_string()];
    assert_eq!(evaluate_command_item(&item, &env, &outputs), "  hi");
}

#[test]
fn subcommand_lines_in_evaluation_order() {
    let a = parse("a".to_string()).unwrap();
    let b = parse("b".to_string()).unwrap();
    let item = CommandItem::Concatenation(vec![
        CommandItem::Subcommand(Box::new(a)),
        CommandItem::RawSegment("-".to_string()),
        CommandItem::Subcommand(Box::new(b)),
    ]);
    assert_eq!(subcommand_lines(&item), vec!["a".to_string(), "b".to_string()]);
    let env = VarEnv::new();
    let outputs = vec!["1\n".to_string(), "2\n".to_string()];
    assert_eq!(evaluate_command_item(&item, &env, &outputs), "1-2");
}
