use cube_games::reduce;
use cube_games::tokenize;
use cube_games::tokens::parse_usize_token;
use cube_games::OptionExt;

#[test]
fn tokenize_splits_on_all_delimiters() {
    assert_eq!(
        tokenize("Game 1: 3 blue, 4 red; 2 green"),
        vec!["Game", "1", "3", "blue", "4", "red", "2", "green"]
    );
}

#[test]
fn tokenize_drops_empty_pieces() {
    assert_eq!(tokenize(",,a  b,; c"), vec!["a", "b", "c"]);
    assert_eq!(tokenize(""), Vec::<&str>::new());
    assert_eq!(tokenize(" ,;: "), Vec::<&str>::new());
}

#[test]
fn tokenize_trims_surrounding_whitespace() {
    assert_eq!(tokenize("\ta\t,b\r"), vec!["a", "b"]);
    // Whitespace inside a piece stays.
    assert_eq!(tokenize("a\tb,c"), vec!["a\tb", "c"]);
}

#[test]
fn parse_accepts_plain_and_plus_signed_digits() {
    assert_eq!(parse_usize_token("0"), Some(0));
    assert_eq!(parse_usize_token("007"), Some(7));
    assert_eq!(parse_usize_token("+12"), Some(12));
    assert_eq!(parse_usize_token(&usize::MAX.to_string()), Some(usize::MAX));
}

#[test]
fn parse_rejects_non_numbers_and_overflow() {
    assert_eq!(parse_usize_token(""), None);
    assert_eq!(parse_usize_token("+"), None);
    assert_eq!(parse_usize_token("-3"), None);
    assert_eq!(parse_usize_token("1x"), None);
    assert_eq!(parse_usize_token("99999999999999999999999999999"), None);
}

#[test]
fn reduce_combines_only_two_present_values() {
    assert_eq!(reduce(Some(3), Some(5), usize::max), Some(5));
    assert_eq!(reduce(Some(5), Some(3), usize::max), Some(5));
    assert_eq!(reduce(Some(3), None, usize::max), Some(3));
    assert_eq!(reduce(None, Some(5), usize::max), Some(5));
    assert_eq!(reduce::<usize, _>(None, None, usize::max), None);
}

#[test]
fn reduce_method_matches_free_function() {
    assert_eq!(Some(3usize).reduce(Some(5), usize::max), Some(5));
    assert_eq!(None.reduce(Some(5usize), usize::max), Some(5));
}
