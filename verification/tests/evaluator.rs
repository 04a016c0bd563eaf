use cube_games::solve_lines;
use cube_games::ext_solve_lines;
use cube_games::EvalError;

fn lines_of(raw: &[&str]) -> Vec<String> {
    let mut v: Vec<String> = Vec::new();
    for s in raw {
        v.push((*s).to_string());
    }
    v
}

#[test]
fn end_to_end_sample() {
    let lines = lines_of(&[
        "Game 1: 3 blue, 4 red; 1 red, 2 green, 6 blue; 2 green",
        "Game 2: 1 blue, 2 green; 3 green, 4 blue, 1 red; 1 green, 1 blue",
    ]);
    assert_eq!(solve_lines(&lines), Ok(3));
    assert_eq!(ext_solve_lines(&lines), Ok(60));
}

#[test]
fn validity_includes_record_within_limits() {
    let lines = lines_of(&["Game 7: 12 red, 13 green, 14 blue"]);
    assert_eq!(solve_lines(&lines), Ok(7));
}

#[test]
fn validity_excludes_record_over_limit() {
    let red_over = lines_of(&["Game 7: 13 red"]);
    assert_eq!(solve_lines(&red_over), Ok(0));
    let green_over = lines_of(&["Game 7: 14 green"]);
    assert_eq!(solve_lines(&green_over), Ok(0));
    let blue_over = lines_of(&["Game 7: 15 blue"]);
    assert_eq!(solve_lines(&blue_over), Ok(0));
}

#[test]
fn power_of_record_missing_a_color_is_zero() {
    let lines = lines_of(&["Game 1: 3 blue, 4 red"]);
    assert_eq!(ext_solve_lines(&lines), Ok(0));
}

#[test]
fn power_of_full_record() {
    let lines = lines_of(&["Game 1: 3 blue, 4 red; 1 red, 2 green, 6 blue; 2 green"]);
    assert_eq!(ext_solve_lines(&lines), Ok(48));
}

#[test]
fn missing_game_prefix_is_reported() {
    let lines = lines_of(&["Hello 1: 3 blue"]);
    assert_eq!(solve_lines(&lines), Err(EvalError::MissingGamePrefix));
    assert_eq!(ext_solve_lines(&lines), Err(EvalError::MissingGamePrefix));
    let empty = lines_of(&[""]);
    assert_eq!(solve_lines(&empty), Err(EvalError::MissingGamePrefix));
}

#[test]
fn bad_id_is_reported_in_validity_mode_only() {
    let lines = lines_of(&["Game x: 3 red"]);
    assert_eq!(solve_lines(&lines), Err(EvalError::BadGameId));
    // Power mode never reads the id token, so the same line evaluates.
    assert_eq!(ext_solve_lines(&lines), Ok(0));
    let bare = lines_of(&["Game"]);
    assert_eq!(solve_lines(&bare), Err(EvalError::BadGameId));
    assert_eq!(ext_solve_lines(&bare), Ok(0));
}

#[test]
fn bad_count_is_reported() {
    let lines = lines_of(&["Game 1: x red"]);
    assert_eq!(solve_lines(&lines), Err(EvalError::BadCountValue));
    assert_eq!(ext_solve_lines(&lines), Err(EvalError::BadCountValue));
}

#[test]
fn truncated_pair_is_reported() {
    let lines = lines_of(&["Game 1: 3"]);
    assert_eq!(solve_lines(&lines), Err(EvalError::TruncatedPairs));
    assert_eq!(ext_solve_lines(&lines), Err(EvalError::TruncatedPairs));
}

#[test]
fn unknown_color_is_reported() {
    let lines = lines_of(&["Game 1: 3 yellow"]);
    assert_eq!(solve_lines(&lines), Err(EvalError::UnknownColor));
    assert_eq!(ext_solve_lines(&lines), Err(EvalError::UnknownColor));
}

#[test]
fn validity_stops_reading_after_first_violation() {
    // The pair after the violating one is malformed; validity mode never
    // reaches it, power mode does.
    let lines = lines_of(&["Game 1: 100 red, xyz"]);
    assert_eq!(solve_lines(&lines), Ok(0));
    assert_eq!(ext_solve_lines(&lines), Err(EvalError::BadCountValue));
}

#[test]
fn overflowing_id_sum_is_reported() {
    let big = format!("Game {}: 1 red", usize::MAX);
    let lines = lines_of(&[big.as_str(), big.as_str()]);
    assert_eq!(solve_lines(&lines), Err(EvalError::Overflow));
}

#[test]
fn overflowing_power_product_is_reported() {
    let line = format!("Game 1: {} red, {} green", usize::MAX, usize::MAX);
    let lines = lines_of(&[line.as_str()]);
    assert_eq!(ext_solve_lines(&lines), Err(EvalError::Overflow));
}

#[test]
fn overflowing_power_sum_is_reported() {
    let line = format!("Game 1: {} red, 1 green, 1 blue", usize::MAX);
    let lines = lines_of(&[line.as_str(), line.as_str()]);
    assert_eq!(ext_solve_lines(&lines), Err(EvalError::Overflow));
}

#[test]
fn first_violating_line_wins() {
    let lines = lines_of(&["Game 1: 3 yellow", "Game 2: x red"]);
    assert_eq!(solve_lines(&lines), Err(EvalError::UnknownColor));
    let lines2 = lines_of(&["Game 2: x red", "Game 1: 3 yellow"]);
    assert_eq!(solve_lines(&lines2), Err(EvalError::BadCountValue));
}

#[test]
fn empty_input_sums_to_zero() {
    let lines: Vec<String> = Vec::new();
    assert_eq!(solve_lines(&lines), Ok(0));
    assert_eq!(ext_solve_lines(&lines), Ok(0));
}

#[test]
fn plus_signed_counts_are_accepted() {
    let lines = lines_of(&["Game +3: +2 red"]);
    assert_eq!(solve_lines(&lines), Ok(3));
    assert_eq!(ext_solve_lines(&lines), Ok(0));
}
