use kennsh::parser::{parse, parse_command, parse_command_item, parse_pipe_chain};
use kennsh::syntax::{CommandItem, CommandSyntax, OutputRedirectionKind, SyntaxTree};

fn lit(s: &str) -> CommandItem {
    CommandItem::Literal(s.to_string())
}

fn raw(s: &str) -> CommandItem {
    CommandItem::RawSegment(s.to_string())
}

fn cmd(items: Vec<CommandItem>) -> CommandSyntax {
    CommandSyntax::Command(items)
}

#[test]
fn empty_input_fails_with_span() {
    let e = parse(String::new()).unwrap_err();
    assert!(e.end_index > e.start_index);
    assert_eq!(e.start_index, 0);
    assert_eq!(e.reason, "An empty command was given");
}

#[test]
fn blank_input_fails_with_span() {
    let e = parse("   ".to_string()).unwrap_err();
    assert!(e.end_index > e.start_index);
}

#[test]
fn simple_command_words() {
    let t = parse("echo hi".to_string()).unwrap();
    assert_eq!(t, SyntaxTree::Command(cmd(vec![raw("echo"), raw("hi")])));
}

#[test]
fn quoted_string_is_single_literal() {
    let t = parse("\"abc\"".to_string()).unwrap();
    assert_eq!(t, SyntaxTree::Command(cmd(vec![lit("abc")])));
}

#[test]
fn escaped_quotes_join_into_raw_segment() {
    let t = parse("a`\"b`\"c".to_string()).unwrap();
    assert_eq!(t, SyntaxTree::Command(cmd(vec![raw("a\"b\"c")])));
}

#[test]
fn escape_downgrades_control_letters() {
    let t = parse("a`nb`tc".to_string()).unwrap();
    assert_eq!(t, SyntaxTree::Command(cmd(vec![raw("a\nb\tc")])));
}

#[test]
fn quotes_absorb_spaces() {
    let t = parse("\"a b\" c".to_string()).unwrap();
    assert_eq!(t, SyntaxTree::Command(cmd(vec![lit("a b"), raw("c")])));
}

#[test]
fn redirection_precedence_later_wraps_earlier() {
    let t = parse("echo hi > out.txt < in.txt".to_string()).unwrap();
    let expected = SyntaxTree::Command(CommandSyntax::InputRedirection {
        inner: Box::new(CommandSyntax::OutputRedirection {
            inner: Box::new(cmd(vec![raw("echo"), raw("hi")])),
            file_descriptor: None,
            destination: "out.txt".to_string(),
            kind: OutputRedirectionKind::Create,
        }),
        file_descriptor: None,
        source: "in.txt".to_string(),
    });
    assert_eq!(t, expected);
}

#[test]
fn output_kind_create() {
    let t = parse("x >f".to_string()).unwrap();
    match t {
        SyntaxTree::Command(CommandSyntax::OutputRedirection { destination, kind, .. }) => {
            assert_eq!(destination, "f");
            assert_eq!(kind, OutputRedirectionKind::Create);
        }
        other => panic!("unexpected tree: {:?}", other),
    }
}

#[test]
fn output_kind_append() {
    let t = parse("x >>f".to_string()).unwrap();
    match t {
        SyntaxTree::Command(CommandSyntax::OutputRedirection { destination, kind, .. }) => {
            assert_eq!(destination, "f");
            assert_eq!(kind, OutputRedirectionKind::Append);
        }
        other => panic!("unexpected tree: {:?}", other),
    }
}

#[test]
fn output_kind_overwrite() {
    let t = parse("x >|f".to_string()).unwrap();
    match t {
        SyntaxTree::Command(CommandSyntax::OutputRedirection { destination, kind, .. }) => {
            assert_eq!(destination, "f");
            assert_eq!(kind, OutputRedirectionKind::Overwrite);
        }
        other => panic!("unexpected tree: {:?}", other),
    }
}

#[test]
fn output_fd_two_accepted() {
    let t = parse("x 2>f".to_string()).unwrap();
    match t {
        SyntaxTree::Command(CommandSyntax::OutputRedirection { file_descriptor, .. }) => {
            assert_eq!(file_descriptor, Some(2));
        }
        other => panic!("unexpected tree: {:?}", other),
    }
}

#[test]
fn output_fd_other_rejected() {
    assert!(parse("x 3>f".to_string()).is_err());
}

#[test]
fn input_fd_other_rejected() {
    assert!(parse("x 1<f".to_string()).is_err());
}

#[test]
fn input_ampersand_destination_rejected() {
    assert!(parse("x <&1".to_string()).is_err());
}

#[test]
fn output_ampersand_one_accepted() {
    let t = parse("x >&2".to_string()).unwrap();
    match t {
        SyntaxTree::Command(CommandSyntax::OutputRedirection { destination, .. }) => {
            assert_eq!(destination, "&2");
        }
        other => panic!("unexpected tree: {:?}", other),
    }
}

#[test]
fn output_ampersand_three_rejected() {
    assert!(parse("x >&3".to_string()).is_err());
}

#[test]
fn output_ampersand_garbage_rejected() {
    assert!(parse("x >&y".to_string()).is_err());
}

#[test]
fn missing_redirection_file_rejected() {
    assert!(parse("x >".to_string()).is_err());
    assert!(parse("x <".to_string()).is_err());
}

#[test]
fn one_pipe_gives_two_stages() {
    let t = parse("printf ab | wc -c".to_string()).unwrap();
    match t {
        SyntaxTree::PipeChain(stages) => assert_eq!(stages.len(), 2),
        other => panic!("unexpected tree: {:?}", other),
    }
}

#[test]
fn two_pipes_give_three_stages() {
    let t = parse("a | b | c".to_string()).unwrap();
    match t {
        SyntaxTree::PipeChain(stages) => assert_eq!(stages.len(), 3),
        other => panic!("unexpected tree: {:?}", other),
    }
}

#[test]
fn quoted_pipe_is_not_a_split_point() {
    let t = parse("echo \"a|b\"".to_string()).unwrap();
    assert_eq!(t, SyntaxTree::Command(cmd(vec![raw("echo"), lit("a|b")])));
}

#[test]
fn escaped_pipe_is_not_a_split_point() {
    let t = parse("echo a`|b".to_string()).unwrap();
    assert_eq!(t, SyntaxTree::Command(cmd(vec![raw("echo"), raw("a|b")])));
}

#[test]
fn overwrite_operator_is_not_a_split_point() {
    let t = parse("x >|f".to_string()).unwrap();
    assert!(matches!(t, SyntaxTree::Command(_)));
}

#[test]
fn empty_pipe_side_rejected() {
    assert!(parse("a|".to_string()).is_err());
    assert!(parse("|a".to_string()).is_err());
}

#[test]
fn subcommand_parses_nested_tree() {
    let t = parse("echo (printf hi)".to_string()).unwrap();
    let inner = SyntaxTree::Command(cmd(vec![raw("printf"), raw("hi")]));
    assert_eq!(
        t,
        SyntaxTree::Command(cmd(vec![raw("echo"), CommandItem::Subcommand(Box::new(inner))]))
    );
}

#[test]
fn nested_subcommand_rejected() {
    let e = parse("echo (a (b))".to_string()).unwrap_err();
    assert!(e.reason.contains("Subcommands within subcommands"));
}

#[test]
fn unterminated_quote_rejected() {
    assert!(parse("\"abc".to_string()).is_err());
    assert!(parse("\"".to_string()).is_err());
}

#[test]
fn unterminated_subcommand_rejected() {
    assert!(parse("(echo hi".to_string()).is_err());
}

#[test]
fn stray_close_paren_rejected() {
    let e = parse("ab)".to_string()).unwrap_err();
    assert!(e.end_index > e.start_index);
}

#[test]
fn variable_reference_item() {
    let t = parse("echo $status".to_string()).unwrap();
    assert_eq!(
        t,
        SyntaxTree::Command(cmd(vec![raw("echo"), CommandItem::VariableReference("status".to_string())]))
    );
}

#[test]
fn concatenation_of_quoted_and_raw() {
    let item = parse_command_item(0, "foo\"bar\"").unwrap();
    assert_eq!(item, CommandItem::Concatenation(vec![raw("foo"), lit("bar")]));
}

#[test]
fn parse_command_rejects_blank() {
    assert!(parse_command(0, "  ").is_err());
}

#[test]
fn parse_pipe_chain_matches_parse() {
    let a = parse_pipe_chain(0, "a | b").unwrap();
    let b = parse("a | b".to_string()).unwrap();
    assert_eq!(a, b);
}

#[test]
fn error_offsets_are_absolute() {
    // The bad file descriptor stands in the second pipe stage.
    let e = parse("ok | x 7>f".to_string()).unwrap_err();
    assert_eq!(e.start_index, 7);
    assert_eq!(e.end_index, 8);
}

#[test]
fn round_trip_simple_command() {
    let t = parse("echo hi".to_string()).unwrap();
    let again = parse(t.render()).unwrap();
    assert_eq!(t, again);
}

#[test]
fn round_trip_quoted_literal() {
    let t = parse("echo \"a b\" c".to_string()).unwrap();
    let again = parse(t.render()).unwrap();
    assert_eq!(t, again);
}

#[test]
fn round_trip_pipe_chain() {
    let t = parse("a x | b y | c".to_string()).unwrap();
    let again = parse(t.render()).unwrap();
    assert_eq!(t, again);
}

#[test]
fn round_trip_redirections() {
    let t = parse("echo hi >out.txt <in.txt".to_string()).unwrap();
    let again = parse(t.render()).unwrap();
    assert_eq!(t, again);
}

#[test]
fn round_trip_subcommand_and_variable() {
    let t = parse("echo (printf hi) $x".to_string()).unwrap();
    let again = parse(t.render()).unwrap();
    assert_eq!(t, again);
}

#[test]
fn render_pipe_chain_text() {
    let t = parse("a | b".to_string()).unwrap();
    assert_eq!(t.render(), "a | b");
}

#[test]
fn debug_dump_lists_nodes() {
    let t = parse("echo hi >f | x".to_string()).unwrap();
    let dump = t.debug_render();
    assert!(dump.contains("Pipe chain - Command 1"));
    assert!(dump.contains("Pipe chain - Command 2"));
    assert!(dump.contains("Output redirection"));
    assert!(dump.contains("    Redirect into: f"));
    assert!(dump.contains("Redirect kind: Create"));
    assert!(dump.contains("File descriptor: Default"));
    assert!(dump.contains("Command item 1"));
    assert!(dump.contains("Raw String: echo"));
}
