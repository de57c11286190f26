use rivi::action::Action;
use rivi::parser::{Parser, ParserError};

#[test]
fn tokenize_collapses_spaces() {
    let toks = Parser::chop_string("a b  c");
    assert_eq!(toks, vec!["a".to_string(), "b".to_string(), "c".to_string()]);
}

#[test]
fn tokenize_quoted_spaces() {
    let toks = Parser::chop_string("a \"b c\" d");
    assert_eq!(toks, vec!["a".to_string(), "b c".to_string(), "d".to_string()]);
}

#[test]
fn tokenize_unterminated_quote() {
    let toks = Parser::chop_string("\"unterminated");
    assert_eq!(toks, vec!["unterminated".to_string()]);
}

#[test]
fn tokenize_empty_line() {
    let toks = Parser::chop_string("");
    assert!(toks.is_empty());
    let toks = Parser::chop_string("   ");
    assert!(toks.is_empty());
}

#[test]
fn tokenize_join_round_trip() {
    let toks = Parser::chop_string("  a  b   c ");
    let joined = Parser::collect_until_end(&toks, 0);
    assert_eq!(joined, "a b c");
}

#[test]
fn collect_until_end_from_middle() {
    let toks = Parser::chop_string("x y z");
    assert_eq!(Parser::collect_until_end(&toks, 1), "y z");
    assert_eq!(Parser::collect_until_end(&toks, 3), "");
}

#[test]
fn parse_move_with_two_numbers() {
    let r = Parser::parse("m 3 5");
    assert_eq!(r, Ok(vec![Action::MoveTo { line: 3, column: 5 }]));
}

#[test]
fn parse_move_missing_argument() {
    let r = Parser::parse("m 3");
    assert_eq!(r, Err(ParserError::TooFewArguments("m".to_string())));
}

#[test]
fn parse_move_invalid_argument() {
    let r = Parser::parse("m x 5");
    assert_eq!(
        r,
        Err(ParserError::InvalidArgument(
            "invalid digit found in string".to_string()
        ))
    );
}

#[test]
fn parse_move_overflowing_argument() {
    let r = Parser::parse("m 99999999999999999999999999 0");
    assert_eq!(
        r,
        Err(ParserError::InvalidArgument(
            "number too large to fit in target type".to_string()
        ))
    );
}

#[test]
fn parse_move_with_plus_sign() {
    let r = Parser::parse("move +3 5");
    assert_eq!(r, Ok(vec![Action::MoveTo { line: 3, column: 5 }]));
}

#[test]
fn parse_repeated_keyword() {
    let r = Parser::parse("o o o");
    assert_eq!(
        r,
        Ok(vec![Action::MoveUp, Action::MoveUp, Action::MoveUp])
    );
}

#[test]
fn parse_insert_rest_of_line() {
    let r = Parser::parse(". hello world");
    assert_eq!(r, Ok(vec![Action::Insert("hello world".to_string())]));
}

#[test]
fn parse_insert_swallows_trailing_keyword() {
    let r = Parser::parse(". hello world o");
    assert_eq!(r, Ok(vec![Action::Insert("hello world o".to_string())]));
}

#[test]
fn parse_replace_rest_of_line() {
    let r = Parser::parse("= new text");
    assert_eq!(
        r,
        Ok(vec![Action::ReplaceCurrentLine("new text".to_string())])
    );
}

#[test]
fn parse_replace_with_empty_text() {
    let r = Parser::parse("=");
    assert_eq!(r, Ok(vec![Action::ReplaceCurrentLine(String::new())]));
}

#[test]
fn parse_unexpected_command() {
    let r = Parser::parse("zz");
    assert_eq!(r, Err(ParserError::UnexpectedCommand("zz".to_string())));
}

#[test]
fn parse_save_without_path() {
    let r = Parser::parse("save");
    assert_eq!(r, Ok(vec![Action::SaveCurrentFile]));
}

#[test]
fn parse_save_with_path() {
    let r = Parser::parse("save out.txt");
    assert_eq!(r, Ok(vec![Action::Save("out.txt".to_string())]));
}

#[test]
fn parse_load_requires_path() {
    assert_eq!(
        Parser::parse("l"),
        Err(ParserError::TooFewArguments("l".to_string()))
    );
    assert_eq!(
        Parser::parse("load notes.txt"),
        Ok(vec![Action::Load("notes.txt".to_string())])
    );
}

#[test]
fn parse_quoted_path_keeps_spaces() {
    let r = Parser::parse("l \"my file.txt\"");
    assert_eq!(r, Ok(vec![Action::Load("my file.txt".to_string())]));
}

#[test]
fn parse_empty_line_gives_no_actions() {
    assert_eq!(Parser::parse(""), Ok(vec![]));
}

#[test]
fn parse_simple_keywords() {
    assert_eq!(Parser::parse("x"), Ok(vec![Action::Exit]));
    assert_eq!(Parser::parse("exit"), Ok(vec![Action::Exit]));
    assert_eq!(Parser::parse("h"), Ok(vec![Action::Help]));
    assert_eq!(Parser::parse("help"), Ok(vec![Action::Help]));
    assert_eq!(Parser::parse("@!"), Ok(vec![Action::Show]));
    assert_eq!(Parser::parse("show"), Ok(vec![Action::Show]));
    assert_eq!(Parser::parse("@"), Ok(vec![Action::ShowCurrentLine]));
    assert_eq!(Parser::parse("showline"), Ok(vec![Action::ShowCurrentLine]));
    assert_eq!(Parser::parse("v="), Ok(vec![Action::InsertLineBelow]));
    assert_eq!(Parser::parse("^="), Ok(vec![Action::InsertLineAbove]));
    assert_eq!(Parser::parse("lb"), Ok(vec![Action::MoveToBeginning]));
    assert_eq!(Parser::parse("le"), Ok(vec![Action::MoveToEnd]));
    assert_eq!(Parser::parse("u"), Ok(vec![Action::MoveLeft]));
    assert_eq!(Parser::parse("i"), Ok(vec![Action::MoveRight]));
    assert_eq!(Parser::parse("o"), Ok(vec![Action::MoveUp]));
    assert_eq!(Parser::parse("p"), Ok(vec![Action::MoveDown]));
}

#[test]
fn parse_error_aborts_whole_line() {
    let r = Parser::parse("o zz o");
    assert_eq!(r, Err(ParserError::UnexpectedCommand("zz".to_string())));
}

#[test]
fn parse_mixed_commands_in_order() {
    let r = Parser::parse("o p save out.txt u");
    assert_eq!(
        r,
        Ok(vec![
            Action::MoveUp,
            Action::MoveDown,
            Action::Save("out.txt".to_string()),
            Action::MoveLeft,
        ])
    );
}
