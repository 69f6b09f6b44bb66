use kennsh::colors::{env_value_is_true, powerline_arrow, powerline_blocks, ANSIColor};
use kennsh::iters::{PeekIterator, SkipLastIterator};
use kennsh::strutil::StringExtensions;
use kennsh::syntax::{CommandItem, OutputRedirectionKind};

#[test]
fn is_blank_rule() {
    assert!("".to_string().is_blank());
    assert!(" \t\n".to_string().is_blank());
    assert!(!" x ".to_string().is_blank());
}

#[test]
fn split_at_multiple_pieces() {
    let s = "a|b|c".to_string();
    let positions = vec![1usize, 3usize];
    let mut it = s.split_at_multiple(&positions);
    assert_eq!(it.next(), Some("a"));
    assert_eq!(it.next(), Some("b"));
    assert_eq!(it.next(), Some("c"));
    assert_eq!(it.next(), None);
}

#[test]
fn peek_iterator_lookahead() {
    let mut it = PeekIterator::new(vec![1, 2, 3]);
    assert_eq!(it.peek(), Some(&1));
    assert_eq!(it.next(), Some(1));
    assert_eq!(it.peek(), Some(&2));
    assert_eq!(it.next(), Some(2));
    assert_eq!(it.next(), Some(3));
    assert_eq!(it.peek(), None);
    assert_eq!(it.next(), None);
}

#[test]
fn skip_last_iterator_withholds_tail() {
    let mut it = SkipLastIterator::new(vec![1, 2, 3, 4], 2);
    assert_eq!(it.next(), Some(1));
    assert_eq!(it.next(), Some(2));
    assert_eq!(it.next(), None);
}

#[test]
fn skip_last_iterator_short_input() {
    let mut it = SkipLastIterator::new(vec![1], 3);
    assert_eq!(it.next(), None);
}

#[test]
fn ansi_color_codes() {
    assert_eq!(ANSIColor::FourBitNormal(1).fg(), "\x1b[31m");
    assert_eq!(ANSIColor::FourBitNormal(1).bg(), "\x1b[41m");
    assert_eq!(ANSIColor::FourBitBright(4).fg(), "\x1b[94m");
    assert_eq!(ANSIColor::FourBitBright(4).bg(), "\x1b[104m");
    assert_eq!(ANSIColor::EightBit(208).fg(), "\x1b[38;5;208m");
    assert_eq!(ANSIColor::EightBit(208).bg(), "\x1b[48;5;208m");
    assert_eq!(ANSIColor::Reset.fg(), "\x1b[39m");
    assert_eq!(ANSIColor::Reset.bg(), "\x1b[49m");
}

#[test]
fn powerline_arrow_paints_transition() {
    let s = powerline_arrow(&ANSIColor::FourBitNormal(1), &ANSIColor::FourBitNormal(2));
    assert_eq!(s, "\x1b[31m\x1b[42m\u{e0b0}\x1b[39m");
}

#[test]
fn powerline_blocks_empty_is_empty() {
    assert_eq!(powerline_blocks(vec![]), "");
}

#[test]
fn powerline_blocks_single_block() {
    let s = powerline_blocks(vec![(" x ".to_string(), ANSIColor::FourBitNormal(5))]);
    let expected = format!(
        "{} x {}{}",
        "\x1b[45m",
        powerline_arrow(&ANSIColor::FourBitNormal(5), &ANSIColor::Reset),
        "\x1b[39m"
    );
    assert_eq!(s, expected);
}

#[test]
fn env_truthiness_rule() {
    assert!(!env_value_is_true(&None));
    assert!(!env_value_is_true(&Some("".to_string())));
    assert!(!env_value_is_true(&Some("  ".to_string())));
    assert!(!env_value_is_true(&Some("0".to_string())));
    assert!(!env_value_is_true(&Some("FALSE".to_string())));
    assert!(!env_value_is_true(&Some(" No ".to_string())));
    assert!(!env_value_is_true(&Some("f".to_string())));
    assert!(!env_value_is_true(&Some("n".to_string())));
    assert!(env_value_is_true(&Some("1".to_string())));
    assert!(env_value_is_true(&Some("yes".to_string())));
    assert!(env_value_is_true(&Some("true".to_string())));
}

#[test]
fn flatten_drops_empty_raw_segments() {
    let item = CommandItem::Concatenation(vec![
        CommandItem::RawSegment(String::new()),
        CommandItem::Literal("x".to_string()),
        CommandItem::RawSegment(String::new()),
    ]);
    assert_eq!(item.flatten(), CommandItem::Literal("x".to_string()));
}

#[test]
fn flatten_splices_nested_concatenations() {
    let nested = CommandItem::Concatenation(vec![
        CommandItem::RawSegment("a".to_string()),
        CommandItem::RawSegment("b".to_string()),
    ]);
    let item = CommandItem::Concatenation(vec![nested, CommandItem::RawSegment("c".to_string())]);
    assert_eq!(
        item.flatten(),
        CommandItem::Concatenation(vec![
            CommandItem::RawSegment("a".to_string()),
            CommandItem::RawSegment("b".to_string()),
            CommandItem::RawSegment("c".to_string()),
        ])
    );
}

#[test]
fn normalize_collapses_singleton() {
    let item = CommandItem::Concatenation(vec![CommandItem::RawSegment("x".to_string())]);
    assert_eq!(item.normalize(), CommandItem::RawSegment("x".to_string()));
}

#[test]
fn output_kind_defaults_to_create() {
    assert_eq!(OutputRedirectionKind::default(), OutputRedirectionKind::Create);
}
