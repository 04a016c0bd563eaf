//! Tokenization of one input line.
//!
//! A line is split at the delimiters space, comma, colon and semicolon;
//! each piece is trimmed of surrounding whitespace and empty pieces are
//! dropped.  The module also parses a token as a non-negative integer the
//! way `str::parse::<usize>` reads one: an optional leading `+`, then one
//! or more decimal digits, with the value in range.

use vstd::prelude::*;

verus! {

/// Characters that separate tokens within a line.
pub open spec fn is_delim(c: char) -> bool {
    c == ' ' || c == ',' || c == ':' || c == ';'
}

/// Whitespace trimmed from the ends of each piece.
pub open spec fn is_space(c: char) -> bool {
    c == ' ' || c == '\t' || c == '\r' || c == '\n'
}

/// The piece with its leading whitespace removed.
pub open spec fn trim_start(p: Seq<char>) -> Seq<char>
    decreases p.len(),
{
    if p.len() > 0 && is_space(p[0]) {
        trim_start(p.drop_first())
    } else {
        p
    }
}

/// The piece with its trailing whitespace removed.
pub open spec fn trim_end(p: Seq<char>) -> Seq<char>
    decreases p.len(),
{
    if p.len() > 0 && is_space(p.last()) {
        trim_end(p.drop_last())
    } else {
        p
    }
}

/// The piece with whitespace removed from both ends.
pub open spec fn trim(p: Seq<char>) -> Seq<char> {
    trim_end(trim_start(p))
}

/// The tokens contributed by one raw piece: the trimmed piece, unless
/// nothing remains of it.
pub open spec fn piece_tokens(p: Seq<char>) -> Seq<Seq<char>> {
    if trim(p).len() == 0 {
        Seq::empty()
    } else {
        seq![trim(p)]
    }
}

/// The tokens of the remaining input `s`, given that `cur` is the piece
/// read so far since the last delimiter.
pub open spec fn tokens_rec(s: Seq<char>, cur: Seq<char>) -> Seq<Seq<char>>
    decreases s.len(),
{
    if s.len() == 0 {
        piece_tokens(cur)
    } else if is_delim(s[0]) {
        piece_tokens(cur) + tokens_rec(s.drop_first(), Seq::empty())
    } else {
        tokens_rec(s.drop_first(), cur.push(s[0]))
    }
}

/// The token sequence of a whole line.
pub open spec fn tokens_of(s: Seq<char>) -> Seq<Seq<char>> {
    tokens_rec(s, Seq::empty())
}

/// A decimal digit.
pub open spec fn is_digit(c: char) -> bool {
    48 <= c as u32 <= 57
}

/// The numeric value of one decimal digit.
pub open spec fn digit_val(c: char) -> nat {
    (c as u32 - 48) as nat
}

/// The value of a digit string read in base ten.
pub open spec fn digits_val(t: Seq<char>) -> nat
    decreases t.len(),
{
    if t.len() == 0 {
        0
    } else {
        digits_val(t.drop_last()) * 10 + digit_val(t.last())
    }
}

/// Every character of the token is a decimal digit.
pub open spec fn all_digits(t: Seq<char>) -> bool {
    forall|j: int| 0 <= j < t.len() ==> is_digit(t[j])
}

/// The token without its optional leading plus sign.
pub open spec fn num_body(t: Seq<char>) -> Seq<char> {
    if t.len() > 0 && t[0] == '+' {
        t.drop_first()
    } else {
        t
    }
}

/// Whether the token reads as a `usize`: an optional `+`, then one or
/// more decimal digits, with a value that fits.
pub open spec fn parses_as_usize(t: Seq<char>) -> bool {
    num_body(t).len() > 0 && all_digits(num_body(t)) && digits_val(num_body(t)) <= usize::MAX
}

/// The numeric value of a token that reads as a `usize`.
pub open spec fn usize_val(t: Seq<char>) -> nat {
    digits_val(num_body(t))
}

proof fn lemma_digits_val_prefix(t: Seq<char>, i: int)
    requires
        0 <= i <= t.len(),
    ensures
        digits_val(t.take(i)) <= digits_val(t),
    decreases t.len() - i,
{
    if i == t.len() {
        assert(t.take(i) =~= t);
    } else {
        assert(t.take(i + 1).drop_last() =~= t.take(i));
        assert(digits_val(t.take(i + 1)) == digits_val(t.take(i)) * 10 + digit_val(
            t.take(i + 1).last(),
        ));
        lemma_digits_val_prefix(t, i + 1);
    }
}

/// Reads a token as a non-negative integer, exactly as the record format
/// demands: `None` when the token is not an integer or does not fit.
pub fn parse_usize_token(t: &str) -> (r: Option<usize>)
    ensures
        parses_as_usize(t@) ==> r == Some((usize_val(t@) as usize)),
        !parses_as_usize(t@) ==> r is None,
{
    let n = t.unicode_len();
    let start: usize = if n > 0 && t.get_char(0) == '+' {
        1
    } else {
        0
    };
    let ghost body = num_body(t@);
    proof {
        assert(body =~= t@.skip(start as int));
    }
    if start >= n {
        proof {
            assert(body.len() == 0);
        }
        return None;
    }
    let mut acc: usize = 0;
    let mut i: usize = start;
    proof {
        assert(body.take(0) =~= Seq::<char>::empty());
    }
    while i < n
        invariant
            start <= i <= n == t@.len(),
            body == num_body(t@),
            body == t@.skip(start as int),
            forall|j: int| 0 <= j < i - start ==> is_digit(body[j]),
            acc == digits_val(body.take(i - start)),
        decreases n - i,
    {
        let c = t.get_char(i);
        let u = c as u32;
        proof {
            assert(body[i - start] == t@[i as int]);
        }
        if u < 48 || u > 57 {
            proof {
                assert(!is_digit(body[i - start]));
                assert(!all_digits(body));
            }
            return None;
        }
        let d = (u - 48) as usize;
        proof {
            assert(body.take(i - start + 1).drop_last() =~= body.take(i - start));
            assert(body.take(i - start + 1).last() == body[i - start]);
        }
        let next = match acc.checked_mul(10) {
            Some(m) => m.checked_add(d),
            None => None,
        };
        match next {
            Some(v) => {
                acc = v;
            },
            None => {
                proof {
                    assert(digits_val(body.take(i - start + 1)) > usize::MAX);
                    lemma_digits_val_prefix(body, i - start + 1);
                }
                return None;
            },
        }
        i = i + 1;
    }
    proof {
        assert(body.take(n - start) =~= body);
        assert(all_digits(body));
        assert(parses_as_usize(t@));
    }
    Some(acc)
}

fn is_delim_char(c: char) -> (r: bool)
    ensures
        r == is_delim(c),
{
    c == ' ' || c == ',' || c == ':' || c == ';'
}

fn is_space_char(c: char) -> (r: bool)
    ensures
        r == is_space(c),
{
    c == ' ' || c == '\t' || c == '\r' || c == '\n'
}

proof fn lemma_trim_start_step(p: Seq<char>, a: int)
    requires
        0 <= a < p.len(),
        is_space(p[a]),
        forall|j: int| 0 <= j < a ==> is_space(p[j]),
    ensures
        trim_start(p.skip(a)) == trim_start(p.skip(a + 1)),
{
    let s = p.skip(a);
    assert(s.len() > 0 && is_space(s[0]));
    assert(s.drop_first() =~= p.skip(a + 1));
}

proof fn lemma_trim_end_step(p: Seq<char>, b: int)
    requires
        0 < b <= p.len(),
        is_space(p[b - 1]),
    ensures
        trim_end(p.take(b)) == trim_end(p.take(b - 1)),
{
    let s = p.take(b);
    assert(s.len() > 0 && is_space(s.last()));
    assert(s.drop_last() =~= p.take(b - 1));
}

/// Returns `(a, b)` with `ps <= a <= b <= pe` such that the piece
/// `line[ps..pe]`, trimmed, is exactly `line[a..b]`.
fn trimmed_bounds(line: &str, ps: usize, pe: usize) -> (r: (usize, usize))
    requires
        ps <= pe <= line@.len(),
    ensures
        ps <= r.0 <= r.1 <= pe,
        trim(line@.subrange(ps as int, pe as int)) == line@.subrange(r.0 as int, r.1 as int),
{
    let ghost p = line@.subrange(ps as int, pe as int);
    let mut a: usize = ps;
    while a < pe && is_space_char(line.get_char(a))
        invariant
            ps <= a <= pe <= line@.len(),
            p == line@.subrange(ps as int, pe as int),
            forall|j: int| ps <= j < a ==> is_space(line@[j]),
            trim_start(p) == trim_start(line@.subrange(a as int, pe as int)),
        decreases pe - a,
    {
        proof {
            assert(p.skip(a - ps) =~= line@.subrange(a as int, pe as int));
            assert(p.skip(a + 1 - ps) =~= line@.subrange(a + 1, pe as int));
            assert(p[a - ps] == line@[a as int]);
            assert(forall|j: int| 0 <= j < a - ps ==> p[j] == line@[j + ps]);
            lemma_trim_start_step(p, a - ps);
        }
        a = a + 1;
    }
    proof {
        let s = line@.subrange(a as int, pe as int);
        if s.len() > 0 {
            assert(s[0] == line@[a as int]);
        }
        assert(trim_start(s) == s);
    }
    let mut b: usize = pe;
    while b > a && is_space_char(line.get_char(b - 1))
        invariant
            a <= b <= pe <= line@.len(),
            trim_end(line@.subrange(a as int, pe as int)) == trim_end(
                line@.subrange(a as int, b as int),
            ),
        decreases b,
    {
        proof {
            let s = line@.subrange(a as int, pe as int);
            assert(s.take(b - a) =~= line@.subrange(a as int, b as int));
            assert(s.take(b - 1 - a) =~= line@.subrange(a as int, b - 1));
            assert(s[b - 1 - a] == line@[b - 1]);
            lemma_trim_end_step(s, b - a);
        }
        b = b - 1;
    }
    proof {
        let s = line@.subrange(a as int, b as int);
        if s.len() > 0 {
            assert(s.last() == line@[b - 1]);
        }
        assert(trim_end(s) == s);
        assert(trim(line@.subrange(ps as int, pe as int)) == line@.subrange(
            a as int,
            b as int,
        ));
    }
    (a, b)
}

/// Splits a line into its tokens: pieces between delimiters, trimmed,
/// with empty pieces dropped.
pub fn tokenize<'a>(line: &'a str) -> (tokens: Vec<&'a str>)
    ensures
        tokens.deep_view() == tokens_of(line@),
{
    let n = line.unicode_len();
    let mut tokens: Vec<&'a str> = Vec::new();
    let mut ps: usize = 0;
    let mut i: usize = 0;
    proof {
        assert(line@.skip(0) =~= line@);
        assert(line@.subrange(0, 0) =~= Seq::<char>::empty());
        assert(tokens.deep_view() =~= Seq::<Seq<char>>::empty());
        assert(tokens.deep_view() + tokens_rec(line@, Seq::empty()) =~= tokens_of(line@));
    }
    while i < n
        invariant
            ps <= i <= n == line@.len(),
            tokens.deep_view() + tokens_rec(
                line@.skip(i as int),
                line@.subrange(ps as int, i as int),
            ) == tokens_of(line@),
        decreases n - i,
    {
        let ghost cur = line@.subrange(ps as int, i as int);
        let ghost rest = line@.skip(i as int);
        let c = line.get_char(i);
        proof {
            assert(rest.len() > 0 && rest[0] == line@[i as int]);
            assert(rest.drop_first() =~= line@.skip(i + 1));
        }
        if is_delim_char(c) {
            let (a, b) = trimmed_bounds(line, ps, i);
            let ghost before = tokens.deep_view();
            if a < b {
                let tok = line.substring_char(a, b);
                tokens.push(tok);
                proof {
                    assert(piece_tokens(cur) =~= seq![trim(cur)]);
                    assert(tokens.deep_view() =~= before.push(tok@));
                    assert(tokens.deep_view() =~= before + piece_tokens(cur));
                }
            } else {
                proof {
                    assert(trim(cur).len() == 0);
                    assert(piece_tokens(cur) =~= Seq::<Seq<char>>::empty());
                    assert(tokens.deep_view() =~= before + piece_tokens(cur));
                }
            }
            proof {
                assert(tokens_rec(rest, cur) == piece_tokens(cur) + tokens_rec(
                    line@.skip(i + 1),
                    Seq::empty(),
                ));
                assert(line@.subrange(i + 1, i + 1) =~= Seq::<char>::empty());
                assert(tokens.deep_view() + tokens_rec(line@.skip(i + 1), Seq::empty())
                    =~= tokens_of(line@));
            }
            ps = i + 1;
        } else {
            proof {
                assert(tokens_rec(rest, cur) == tokens_rec(line@.skip(i + 1), cur.push(
                    line@[i as int],
                )));
                assert(line@.subrange(ps as int, i + 1) =~= cur.push(line@[i as int]));
            }
        }
        i = i + 1;
    }
    let ghost cur = line@.subrange(ps as int, i as int);
    proof {
        assert(line@.skip(n as int) =~= Seq::<char>::empty());
        assert(tokens_rec(Seq::empty(), cur) == piece_tokens(cur));
    }
    let (a, b) = trimmed_bounds(line, ps, n);
    let ghost before = tokens.deep_view();
    if a < b {
        let tok = line.substring_char(a, b);
        tokens.push(tok);
        proof {
            assert(piece_tokens(cur) =~= seq![trim(cur)]);
            assert(tokens.deep_view() =~= before.push(tok@));
            assert(tokens.deep_view() =~= before + piece_tokens(cur));
            assert(tokens.deep_view() =~= tokens_of(line@));
        }
    } else {
        proof {
            assert(trim(cur).len() == 0);
            assert(piece_tokens(cur) =~= Seq::<Seq<char>>::empty());
            assert(tokens.deep_view() =~= before + piece_tokens(cur));
            assert(tokens.deep_view() =~= tokens_of(line@));
        }
    }
    tokens
}

} // verus!
