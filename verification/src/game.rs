//! Interpretation of tokenized game records.
//!
//! A record's tokens must start with `Game`, then an id, then pairs of a
//! count and a color name.  Validity mode checks every pair against fixed
//! per-color limits and sums the ids of the valid records; power mode
//! takes the per-color maximum of each record and sums the products of
//! those maxima.  Any structural violation stops the whole evaluation
//! with a distinct error.

use crate::options::reduce;
use crate::tokens::parse_usize_token;
use crate::tokens::parses_as_usize;
use crate::tokens::tokenize;
use crate::tokens::tokens_of;
use crate::tokens::usize_val;
use vstd::prelude::*;

verus! {

/// The highest count of red cubes a valid record may show.
pub const RED_LIMIT: usize = 12;

/// The highest count of green cubes a valid record may show.
pub const GREEN_LIMIT: usize = 13;

/// The highest count of blue cubes a valid record may show.
pub const BLUE_LIMIT: usize = 14;

/// One of the three cube colors a record may mention.
#[derive(Debug, PartialEq, Eq, Structural, Clone, Copy)]
pub enum Color {
    Red,
    Green,
    Blue,
}

/// The ways a record or an evaluation can fail.
#[derive(Debug, PartialEq, Eq, Structural, Clone, Copy)]
pub enum EvalError {
    /// The first token of a line is not `Game`, or the line is empty.
    MissingGamePrefix,
    /// The token after `Game` is missing or is not a non-negative integer.
    BadGameId,
    /// A pair's count token is not a non-negative integer.
    BadCountValue,
    /// A pair's count token has no color token after it.
    TruncatedPairs,
    /// A pair's color token is none of red, green and blue.
    UnknownColor,
    /// An accumulated sum or product does not fit in `usize`.
    Overflow,
}

/// The literal token that opens every record.
pub open spec fn game_token() -> Seq<char> {
    seq!['G', 'a', 'm', 'e']
}

/// The color named by a token, if any.
pub open spec fn color_of(t: Seq<char>) -> Option<Color> {
    if t == seq!['r', 'e', 'd'] {
        Some(Color::Red)
    } else if t == seq!['g', 'r', 'e', 'e', 'n'] {
        Some(Color::Green)
    } else if t == seq!['b', 'l', 'u', 'e'] {
        Some(Color::Blue)
    } else {
        None
    }
}

/// The fixed ceiling for one color.
pub open spec fn limit_of(c: Color) -> nat {
    match c {
        Color::Red => RED_LIMIT as nat,
        Color::Green => GREEN_LIMIT as nat,
        Color::Blue => BLUE_LIMIT as nat,
    }
}

/// Walks the pairs of a record from token index `r` in validity mode:
/// the first count over its color's limit settles the record as invalid
/// and the remaining pairs are never inspected; a structural violation
/// before that point is an error.
pub open spec fn validity_pairs(toks: Seq<Seq<char>>, r: int) -> Result<bool, EvalError>
    decreases toks.len() - r,
{
    if r >= toks.len() {
        Ok(true)
    } else if !parses_as_usize(toks[r]) {
        Err(EvalError::BadCountValue)
    } else if r + 1 >= toks.len() {
        Err(EvalError::TruncatedPairs)
    } else {
        match color_of(toks[r + 1]) {
            None => Err(EvalError::UnknownColor),
            Some(c) => if usize_val(toks[r]) > limit_of(c) {
                Ok(false)
            } else {
                validity_pairs(toks, r + 2)
            },
        }
    }
}

/// One record in validity mode: its id and whether it is valid, or the
/// first violation hit.
pub open spec fn record_validity(toks: Seq<Seq<char>>) -> Result<(nat, bool), EvalError> {
    if toks.len() < 1 || toks[0] != game_token() {
        Err(EvalError::MissingGamePrefix)
    } else if toks.len() < 2 || !parses_as_usize(toks[1]) {
        Err(EvalError::BadGameId)
    } else {
        match validity_pairs(toks, 2) {
            Ok(v) => Ok((usize_val(toks[1]), v)),
            Err(e) => Err(e),
        }
    }
}

/// A per-color running maximum, absent until its color is first seen.
pub type Maxima = (Option<nat>, Option<nat>, Option<nat>);

/// Merges one observed count into a running maximum.
pub open spec fn merge_max(m: Option<nat>, v: nat) -> Option<nat> {
    match m {
        None => Some(v),
        Some(x) => Some(
            if x >= v {
                x
            } else {
                v
            },
        ),
    }
}

/// Records one pair in the running maxima.
pub open spec fn bump(m: Maxima, c: Color, v: nat) -> Maxima {
    match c {
        Color::Red => (merge_max(m.0, v), m.1, m.2),
        Color::Green => (m.0, merge_max(m.1, v), m.2),
        Color::Blue => (m.0, m.1, merge_max(m.2, v)),
    }
}

/// Walks the pairs of a record from token index `r` in power mode,
/// folding every pair into the running maxima `m`; every pair is
/// inspected, so any structural violation is an error.
pub open spec fn power_pairs(toks: Seq<Seq<char>>, r: int, m: Maxima) -> Result<
    Maxima,
    EvalError,
>
    decreases toks.len() - r,
{
    if r >= toks.len() {
        Ok(m)
    } else if !parses_as_usize(toks[r]) {
        Err(EvalError::BadCountValue)
    } else if r + 1 >= toks.len() {
        Err(EvalError::TruncatedPairs)
    } else {
        match color_of(toks[r + 1]) {
            None => Err(EvalError::UnknownColor),
            Some(c) => power_pairs(toks, r + 2, bump(m, c, usize_val(toks[r]))),
        }
    }
}

/// One record in power mode: its per-color maxima, or the first violation
/// hit.  The id token is never read in this mode.
pub open spec fn record_maxima(toks: Seq<Seq<char>>) -> Result<Maxima, EvalError> {
    if toks.len() < 1 || toks[0] != game_token() {
        Err(EvalError::MissingGamePrefix)
    } else {
        power_pairs(toks, 2, (None, None, None))
    }
}

/// A running maximum as a product factor: 0 when the color was never seen.
pub open spec fn or0(m: Option<nat>) -> nat {
    match m {
        None => 0,
        Some(v) => v,
    }
}

/// The power of a record with maxima `m`: the product of the per-color
/// maxima, an unseen color counting as 0.
pub open spec fn power_value(m: Maxima) -> nat {
    or0(m.0) * or0(m.1) * or0(m.2)
}

/// Whether computing the power of `m` in machine words overflows, the
/// factors being multiplied in color order.
pub open spec fn power_overflows(m: Maxima) -> bool {
    or0(m.0) * or0(m.1) > usize::MAX || or0(m.0) * or0(m.1) * or0(m.2) > usize::MAX
}

/// The validity evaluation over all lines from index `i` on, with `acc`
/// already accumulated: the sum of the ids of the valid records, the
/// first violation, or an overflowing sum.
pub open spec fn validity_run(lines: Seq<Seq<char>>, i: int, acc: nat) -> Result<nat, EvalError>
    decreases lines.len() - i,
{
    if i >= lines.len() {
        Ok(acc)
    } else {
        match record_validity(tokens_of(lines[i])) {
            Err(e) => Err(e),
            Ok((id, v)) => {
                let acc2: nat = if v {
                    acc + id
                } else {
                    acc
                };
                if acc2 > usize::MAX {
                    Err(EvalError::Overflow)
                } else {
                    validity_run(lines, i + 1, acc2)
                }
            },
        }
    }
}

/// The full validity evaluation of a line sequence.
pub open spec fn validity_result(lines: Seq<Seq<char>>) -> Result<nat, EvalError> {
    validity_run(lines, 0, 0)
}

/// The power evaluation over all lines from index `i` on, with `acc`
/// already accumulated: the sum of the records' powers, the first
/// violation, or an overflowing product or sum.
pub open spec fn power_run(lines: Seq<Seq<char>>, i: int, acc: nat) -> Result<nat, EvalError>
    decreases lines.len() - i,
{
    if i >= lines.len() {
        Ok(acc)
    } else {
        match record_maxima(tokens_of(lines[i])) {
            Err(e) => Err(e),
            Ok(m) => if power_overflows(m) || acc + power_value(m) > usize::MAX {
                Err(EvalError::Overflow)
            } else {
                power_run(lines, i + 1, acc + power_value(m))
            },
        }
    }
}

/// The full power evaluation of a line sequence.
pub open spec fn power_result(lines: Seq<Seq<char>>) -> Result<nat, EvalError> {
    power_run(lines, 0, 0)
}

/// A machine-word result widened to the mathematical one it stands for.
pub open spec fn as_nat_result(r: Result<usize, EvalError>) -> Result<nat, EvalError> {
    match r {
        Ok(v) => Ok(v as nat),
        Err(e) => Err(e),
    }
}

/// Every pair from token index `r` on is complete: a count that parses
/// and a known color name, with no token left over.
pub open spec fn pairs_well_formed(toks: Seq<Seq<char>>, r: int) -> bool
    decreases toks.len() - r,
{
    if r >= toks.len() {
        true
    } else {
        &&& parses_as_usize(toks[r])
        &&& r + 1 < toks.len()
        &&& color_of(toks[r + 1]) is Some
        &&& pairs_well_formed(toks, r + 2)
    }
}

/// Every pair from token index `r` on shows a count within its color's
/// limit.
pub open spec fn pairs_within_limits(toks: Seq<Seq<char>>, r: int) -> bool
    decreases toks.len() - r,
{
    if r + 1 >= toks.len() {
        true
    } else {
        usize_val(toks[r]) <= limit_of(color_of(toks[r + 1])->0) && pairs_within_limits(
            toks,
            r + 2,
        )
    }
}

/// A record whose every pair is complete is judged valid exactly when
/// every pair's count is within its color's limit.
pub proof fn lemma_validity_means_within_limits(toks: Seq<Seq<char>>, r: int)
    requires
        pairs_well_formed(toks, r),
    ensures
        validity_pairs(toks, r) == Ok::<bool, EvalError>(pairs_within_limits(toks, r)),
    decreases toks.len() - r,
{
    if r < toks.len() {
        if usize_val(toks[r]) <= limit_of(color_of(toks[r + 1])->0) {
            lemma_validity_means_within_limits(toks, r + 2);
        }
    }
}

/// A line whose record is fully well formed: the `Game` prefix, an id,
/// and complete pairs.
pub open spec fn line_well_formed(line: Seq<char>) -> bool {
    let t = tokens_of(line);
    t.len() >= 2 && t[0] == game_token() && parses_as_usize(t[1]) && pairs_well_formed(t, 2)
}

/// The id of a line's record.
pub open spec fn line_id(line: Seq<char>) -> nat {
    usize_val(tokens_of(line)[1])
}

/// Whether a line's record stays within the per-color limits.
pub open spec fn line_within_limits(line: Seq<char>) -> bool {
    pairs_within_limits(tokens_of(line), 2)
}

/// The sum of the ids of the records within limits, from line `i` on.
pub open spec fn ids_within_sum(lines: Seq<Seq<char>>, i: int) -> nat
    decreases lines.len() - i,
{
    if i >= lines.len() {
        0
    } else {
        (if line_within_limits(lines[i]) {
            line_id(lines[i])
        } else {
            0
        }) + ids_within_sum(lines, i + 1)
    }
}

proof fn lemma_validity_run_sum(lines: Seq<Seq<char>>, i: int, acc: nat)
    requires
        0 <= i <= lines.len(),
        forall|j: int| 0 <= j < lines.len() ==> line_well_formed(#[trigger] lines[j]),
        acc + ids_within_sum(lines, i) <= usize::MAX,
    ensures
        validity_run(lines, i, acc) == Ok::<nat, EvalError>(acc + ids_within_sum(lines, i)),
    decreases lines.len() - i,
{
    if i < lines.len() {
        let t = tokens_of(lines[i]);
        lemma_validity_means_within_limits(t, 2);
        let acc2: nat = if line_within_limits(lines[i]) {
            acc + line_id(lines[i])
        } else {
            acc
        };
        lemma_validity_run_sum(lines, i + 1, acc2);
    }
}

/// A record's id is included in the validity sum exactly when every one
/// of its pairs is within its color's limit; when all records are well
/// formed and the total fits, the evaluation returns that sum.
pub proof fn lemma_validity_sum_is_ids_within(lines: Seq<Seq<char>>)
    requires
        forall|j: int| 0 <= j < lines.len() ==> line_well_formed(#[trigger] lines[j]),
        ids_within_sum(lines, 0) <= usize::MAX,
    ensures
        validity_result(lines) == Ok::<nat, EvalError>(ids_within_sum(lines, 0)),
{
    lemma_validity_run_sum(lines, 0, 0);
}

/// The largest count shown for color `c` among the pairs from token
/// index `r` on, if the color is mentioned there at all.
pub open spec fn max_count(toks: Seq<Seq<char>>, r: int, c: Color) -> Option<nat>
    decreases toks.len() - r,
{
    if r + 1 >= toks.len() {
        None
    } else {
        let rest = max_count(toks, r + 2, c);
        if color_of(toks[r + 1]) == Some(c) {
            merge_max(rest, usize_val(toks[r]))
        } else {
            rest
        }
    }
}

/// Merges two running maxima: absent ones pass through, present ones
/// combine by maximum.
pub open spec fn merge_opt(a: Option<nat>, b: Option<nat>) -> Option<nat> {
    match b {
        None => a,
        Some(v) => merge_max(a, v),
    }
}

proof fn lemma_power_pairs_maxima(toks: Seq<Seq<char>>, r: int, m: Maxima)
    requires
        pairs_well_formed(toks, r),
    ensures
        power_pairs(toks, r, m) == Ok::<Maxima, EvalError>(
            (
                merge_opt(m.0, max_count(toks, r, Color::Red)),
                merge_opt(m.1, max_count(toks, r, Color::Green)),
                merge_opt(m.2, max_count(toks, r, Color::Blue)),
            ),
        ),
    decreases toks.len() - r,
{
    if r < toks.len() {
        let c = color_of(toks[r + 1])->0;
        let v = usize_val(toks[r]);
        lemma_power_pairs_maxima(toks, r + 2, bump(m, c, v));
        assert forall|a: Option<nat>, b: Option<nat>, w: nat| #[trigger] merge_opt(
            merge_max(a, w),
            b,
        ) == merge_opt(a, merge_max(b, w)) by {
            match (a, b) {
                (Some(_), Some(_)) => {},
                _ => {},
            }
        }
    }
}

/// The per-color maxima of a line's record.
pub open spec fn line_maxima(line: Seq<char>) -> Maxima {
    (
        max_count(tokens_of(line), 2, Color::Red),
        max_count(tokens_of(line), 2, Color::Green),
        max_count(tokens_of(line), 2, Color::Blue),
    )
}

/// The power of a line's record.
pub open spec fn line_power(line: Seq<char>) -> nat {
    power_value(line_maxima(line))
}

/// A line whose record power mode accepts: the `Game` prefix and
/// complete pairs (the id token is never read in this mode).
pub open spec fn line_power_well_formed(line: Seq<char>) -> bool {
    let t = tokens_of(line);
    t.len() >= 1 && t[0] == game_token() && pairs_well_formed(t, 2)
}

/// The sum of the record powers from line `i` on.
pub open spec fn powers_sum(lines: Seq<Seq<char>>, i: int) -> nat
    decreases lines.len() - i,
{
    if i >= lines.len() {
        0
    } else {
        line_power(lines[i]) + powers_sum(lines, i + 1)
    }
}

proof fn lemma_power_run_sum(lines: Seq<Seq<char>>, i: int, acc: nat)
    requires
        0 <= i <= lines.len(),
        forall|j: int| 0 <= j < lines.len() ==> line_power_well_formed(#[trigger] lines[j]),
        forall|j: int| 0 <= j < lines.len() ==> !power_overflows(line_maxima(#[trigger] lines[j])),
        acc + powers_sum(lines, i) <= usize::MAX,
    ensures
        power_run(lines, i, acc) == Ok::<nat, EvalError>(acc + powers_sum(lines, i)),
    decreases lines.len() - i,
{
    if i < lines.len() {
        let t = tokens_of(lines[i]);
        lemma_power_pairs_maxima(t, 2, (None, None, None));
        lemma_power_run_sum(lines, i + 1, acc + line_power(lines[i]));
    }
}

/// When every record is well formed for power mode and neither a
/// record's product nor the total outgrows a machine word, the power
/// evaluation returns the sum of the record powers.
pub proof fn lemma_power_sum_is_powers(lines: Seq<Seq<char>>)
    requires
        forall|j: int| 0 <= j < lines.len() ==> line_power_well_formed(#[trigger] lines[j]),
        forall|j: int| 0 <= j < lines.len() ==> !power_overflows(line_maxima(#[trigger] lines[j])),
        powers_sum(lines, 0) <= usize::MAX,
    ensures
        power_result(lines) == Ok::<nat, EvalError>(powers_sum(lines, 0)),
{
    lemma_power_run_sum(lines, 0, 0);
}

/// The power of a well-formed record is the product of the per-color
/// maxima observed in it, with zero substituted for a color that the
/// record never mentions.
pub proof fn lemma_power_is_product_of_maxima(toks: Seq<Seq<char>>)
    requires
        toks.len() >= 1,
        toks[0] == game_token(),
        pairs_well_formed(toks, 2),
    ensures
        record_maxima(toks) == Ok::<Maxima, EvalError>(
            (
                max_count(toks, 2, Color::Red),
                max_count(toks, 2, Color::Green),
                max_count(toks, 2, Color::Blue),
            ),
        ),
        power_value(
            (
                max_count(toks, 2, Color::Red),
                max_count(toks, 2, Color::Green),
                max_count(toks, 2, Color::Blue),
            ),
        ) == or0(max_count(toks, 2, Color::Red)) * or0(max_count(toks, 2, Color::Green)) * or0(
            max_count(toks, 2, Color::Blue),
        ),
{
    lemma_power_pairs_maxima(toks, 2, (None, None, None));
}

fn is_game_token(t: &str) -> (r: bool)
    ensures
        r == (t@ == game_token()),
{
    let n = t.unicode_len();
    let r = n == 4 && t.get_char(0) == 'G' && t.get_char(1) == 'a' && t.get_char(2) == 'm'
        && t.get_char(3) == 'e';
    proof {
        if r {
            assert(t@ =~= game_token());
        }
    }
    r
}

fn color_token(t: &str) -> (r: Option<Color>)
    ensures
        r == color_of(t@),
{
    let n = t.unicode_len();
    if n == 3 && t.get_char(0) == 'r' && t.get_char(1) == 'e' && t.get_char(2) == 'd' {
        proof {
            assert(t@ =~= seq!['r', 'e', 'd']);
        }
        Some(Color::Red)
    } else if n == 5 && t.get_char(0) == 'g' && t.get_char(1) == 'r' && t.get_char(2) == 'e'
        && t.get_char(3) == 'e' && t.get_char(4) == 'n' {
        proof {
            assert(t@ =~= seq!['g', 'r', 'e', 'e', 'n']);
        }
        Some(Color::Green)
    } else if n == 4 && t.get_char(0) == 'b' && t.get_char(1) == 'l' && t.get_char(2) == 'u'
        && t.get_char(3) == 'e' {
        proof {
            assert(t@ =~= seq!['b', 'l', 'u', 'e']);
        }
        Some(Color::Blue)
    } else {
        proof {
            assert(t@ != seq!['r', 'e', 'd']);
            assert(t@ != seq!['g', 'r', 'e', 'e', 'n']);
            assert(t@ != seq!['b', 'l', 'u', 'e']);
        }
        None
    }
}

/// The fixed ceiling for one color, as a machine word.
pub fn limit_for(c: Color) -> (r: usize)
    ensures
        r == limit_of(c),
{
    match c {
        Color::Red => RED_LIMIT,
        Color::Green => GREEN_LIMIT,
        Color::Blue => BLUE_LIMIT,
    }
}

/// Judges one tokenized record in validity mode: `Ok(true)` when every
/// pair is within its color's limit, `Ok(false)` from the first pair over
/// it, an error from the first structural violation before that.
pub fn validity_walk(tokens: &Vec<&str>) -> (r: Result<bool, EvalError>)
    ensures
        r == validity_pairs(tokens.deep_view(), 2),
{
    let ghost toks = tokens.deep_view();
    let mut r: usize = 2;
    while r < tokens.len()
        invariant
            2 <= r,
            toks == tokens.deep_view(),
            toks.len() == tokens.len(),
            validity_pairs(toks, 2) == validity_pairs(toks, r as int),
        decreases tokens.len() - r,
    {
        proof {
            assert(toks[r as int] == tokens@[r as int]@);
        }
        match parse_usize_token(tokens[r]) {
            None => {
                return Err(EvalError::BadCountValue);
            },
            Some(value) => {
                if r + 1 >= tokens.len() {
                    return Err(EvalError::TruncatedPairs);
                }
                proof {
                    assert(toks[r + 1] == tokens@[r + 1]@);
                }
                match color_token(tokens[r + 1]) {
                    None => {
                        return Err(EvalError::UnknownColor);
                    },
                    Some(c) => {
                        let lim = limit_for(c);
                        if value > lim {
                            return Ok(false);
                        }
                    },
                }
                r = r + 2;
            },
        }
    }
    Ok(true)
}

/// Folds one tokenized record's pairs in power mode: the per-color
/// maxima over every pair, or the first structural violation.
pub fn power_walk(tokens: &Vec<&str>) -> (r: Result<
    (Option<usize>, Option<usize>, Option<usize>),
    EvalError,
>)
    ensures
        (match r {
            Ok((a, b, c)) => power_pairs(tokens.deep_view(), 2, (None, None, None)) == Ok::<
                Maxima,
                EvalError,
            >((opt_nat(a), opt_nat(b), opt_nat(c))),
            Err(e) => power_pairs(tokens.deep_view(), 2, (None, None, None)) == Err::<
                Maxima,
                EvalError,
            >(e),
        }),
{
    let ghost toks = tokens.deep_view();
    let mut mr: Option<usize> = None;
    let mut mg: Option<usize> = None;
    let mut mb: Option<usize> = None;
    let mut r: usize = 2;
    while r < tokens.len()
        invariant
            2 <= r,
            toks == tokens.deep_view(),
            toks.len() == tokens.len(),
            power_pairs(toks, 2, (None, None, None)) == power_pairs(
                toks,
                r as int,
                (opt_nat(mr), opt_nat(mg), opt_nat(mb)),
            ),
        decreases tokens.len() - r,
    {
        proof {
            assert(toks[r as int] == tokens@[r as int]@);
        }
        match parse_usize_token(tokens[r]) {
            None => {
                return Err(EvalError::BadCountValue);
            },
            Some(value) => {
                if r + 1 >= tokens.len() {
                    return Err(EvalError::TruncatedPairs);
                }
                proof {
                    assert(toks[r + 1] == tokens@[r + 1]@);
                }
                match color_token(tokens[r + 1]) {
                    None => {
                        return Err(EvalError::UnknownColor);
                    },
                    Some(c) => {
                        let take_max = |x: usize, y: usize| -> (m: usize)
                            ensures
                                m == if x >= y {
                                    x
                                } else {
                                    y
                                },
                            {
                                if x >= y {
                                    x
                                } else {
                                    y
                                }
                            };
                        match c {
                            Color::Red => {
                                mr = reduce(mr, Some(value), take_max);
                            },
                            Color::Green => {
                                mg = reduce(mg, Some(value), take_max);
                            },
                            Color::Blue => {
                                mb = reduce(mb, Some(value), take_max);
                            },
                        }
                    },
                }
                r = r + 2;
            },
        }
    }
    Ok((mr, mg, mb))
}

/// A machine-word running maximum widened to the mathematical one.
pub open spec fn opt_nat(m: Option<usize>) -> Option<nat> {
    match m {
        None => None,
        Some(v) => Some(v as nat),
    }
}

/// Sums the ids of the valid records of the given lines: the validity
/// evaluation of the whole input.
pub fn solve_lines(lines: &Vec<String>) -> (r: Result<usize, EvalError>)
    ensures
        as_nat_result(r) == validity_result(lines.deep_view()),
{
    let ghost ls = lines.deep_view();
    let mut acc: usize = 0;
    let mut i: usize = 0;
    while i < lines.len()
        invariant
            i <= lines.len(),
            ls == lines.deep_view(),
            ls.len() == lines.len(),
            validity_result(ls) == validity_run(ls, i as int, acc as nat),
        decreases lines.len() - i,
    {
        proof {
            assert(ls[i as int] == lines@[i as int]@);
        }
        let tokens = tokenize(lines[i].as_str());
        if tokens.len() < 1 {
            return Err(EvalError::MissingGamePrefix);
        }
        if !is_game_token(tokens[0]) {
            proof {
                assert(tokens.deep_view()[0] == tokens@[0]@);
            }
            return Err(EvalError::MissingGamePrefix);
        }
        proof {
            assert(tokens.deep_view()[0] == tokens@[0]@);
        }
        if tokens.len() < 2 {
            return Err(EvalError::BadGameId);
        }
        proof {
            assert(tokens.deep_view()[1] == tokens@[1]@);
        }
        let id = match parse_usize_token(tokens[1]) {
            None => {
                return Err(EvalError::BadGameId);
            },
            Some(v) => v,
        };
        let valid = match validity_walk(&tokens) {
            Err(e) => {
                return Err(e);
            },
            Ok(v) => v,
        };
        if valid {
            match acc.checked_add(id) {
                None => {
                    return Err(EvalError::Overflow);
                },
                Some(s) => {
                    acc = s;
                },
            }
        }
        i = i + 1;
    }
    Ok(acc)
}

/// Sums the powers of all records of the given lines: the power
/// evaluation of the whole input.
pub fn ext_solve_lines(lines: &Vec<String>) -> (r: Result<usize, EvalError>)
    ensures
        as_nat_result(r) == power_result(lines.deep_view()),
{
    let ghost ls = lines.deep_view();
    let mut acc: usize = 0;
    let mut i: usize = 0;
    while i < lines.len()
        invariant
            i <= lines.len(),
            ls == lines.deep_view(),
            ls.len() == lines.len(),
            power_result(ls) == power_run(ls, i as int, acc as nat),
        decreases lines.len() - i,
    {
        proof {
            assert(ls[i as int] == lines@[i as int]@);
        }
        let tokens = tokenize(lines[i].as_str());
        if tokens.len() < 1 {
            return Err(EvalError::MissingGamePrefix);
        }
        if !is_game_token(tokens[0]) {
            proof {
                assert(tokens.deep_view()[0] == tokens@[0]@);
            }
            return Err(EvalError::MissingGamePrefix);
        }
        proof {
            assert(tokens.deep_view()[0] == tokens@[0]@);
        }
        let (mr, mg, mb) = match power_walk(&tokens) {
            Err(e) => {
                return Err(e);
            },
            Ok(m) => m,
        };
        let vr = mr.unwrap_or(0);
        let vg = mg.unwrap_or(0);
        let vb = mb.unwrap_or(0);
        let p1 = match vr.checked_mul(vg) {
            None => {
                return Err(EvalError::Overflow);
            },
            Some(p) => p,
        };
        let p = match p1.checked_mul(vb) {
            None => {
                return Err(EvalError::Overflow);
            },
            Some(p) => p,
        };
        match acc.checked_add(p) {
            None => {
                return Err(EvalError::Overflow);
            },
            Some(s) => {
                acc = s;
            },
        }
        i = i + 1;
    }
    Ok(acc)
}

} // verus!
