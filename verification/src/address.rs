//! Node identifiers: the fourth dot-separated field of a node's address,
//! read as a decimal number.

use vstd::prelude::*;

verus! {

broadcast use vstd::string::axiom_spec_iter;

/// Why an address does not name a node.
#[derive(Clone, Copy, Debug, PartialEq, Eq, Structural)]
pub enum IdError {
    /// The address has fewer than four '.'-separated fields.
    WrongFormat,
    /// The fourth field is not a number of the expected type.
    InvalidNumber(NumberError),
}

/// Why a text is not a number, as `str::parse` tells it.
#[derive(Clone, Copy, Debug, PartialEq, Eq, Structural)]
pub enum NumberError {
    /// The text is empty.
    Empty,
    /// A character is not a digit where one is due (a sign alone too).
    InvalidDigit,
    /// The number is too large for the type.
    PosOverflow,
    /// The number is too small for the type.
    NegOverflow,
}

/// The fields of `s` between its '.' separators, in order. As with
/// `str::split`, there is always at least one field.
pub open spec fn dot_fields(s: Seq<char>) -> Seq<Seq<char>>
    decreases s.len(),
{
    if s.len() == 0 {
        seq![Seq::<char>::empty()]
    } else {
        let prior = dot_fields(s.drop_last());
        if s.last() == '.' {
            prior.push(Seq::<char>::empty())
        } else {
            prior.update(prior.len() - 1, prior.last().push(s.last()))
        }
    }
}

/// The field that carries a node's number: the fourth one, if there is one.
pub open spec fn id_field(s: Seq<char>) -> Option<Seq<char>> {
    if dot_fields(s).len() > 3 {
        Some(dot_fields(s)[3])
    } else {
        None
    }
}

proof fn lemma_dot_fields_nonempty(s: Seq<char>)
    ensures
        dot_fields(s).len() >= 1,
    decreases s.len(),
{
    if s.len() > 0 {
        lemma_dot_fields_nonempty(s.drop_last());
    }
}

/// Reading one more character either opens a new, empty field (a '.') or
/// extends the last field.
proof fn lemma_dot_fields_push(s: Seq<char>, c: char)
    ensures
        dot_fields(s).len() >= 1,
        dot_fields(s.push(c)) == (if c == '.' {
            dot_fields(s).push(Seq::<char>::empty())
        } else {
            dot_fields(s).update(dot_fields(s).len() - 1, dot_fields(s).last().push(c))
        }),
{
    lemma_dot_fields_nonempty(s);
    assert(s.push(c).drop_last() =~= s);
}

/// Fields that are already closed by a later '.' never change.
proof fn lemma_dot_fields_closed_stable(s: Seq<char>, t: Seq<char>, k: int)
    requires
        0 <= k < dot_fields(s).len() - 1,
    ensures
        k < dot_fields(s + t).len() - 1,
        dot_fields(s + t)[k] == dot_fields(s)[k],
    decreases t.len(),
{
    if t.len() == 0 {
        assert(s + t =~= s);
    } else {
        let u = t.drop_last();
        lemma_dot_fields_closed_stable(s, u, k);
        assert(s + t =~= (s + u).push(t.last()));
        lemma_dot_fields_push(s + u, t.last());
    }
}

/// The fourth field of `p`, or `None` when `p` has fewer than four fields.
pub fn id_field_of(p: &str) -> (r: Option<Vec<char>>)
    ensures
        match r {
            Some(f) => id_field(p@) == Some(f@),
            None => id_field(p@).is_none(),
        },
{
    let mut dots: usize = 0;
    let mut field: Vec<char> = Vec::new();
    let ghost mut seen: Seq<char> = Seq::empty();
    for c in it: p.chars()
        invariant
            it.seq() == p@,
            seen == p@.take(it.index()),
            dots <= 3,
            dot_fields(seen).len() == dots + 1,
            dots == 3 ==> field@ == dot_fields(seen)[3],
            dots < 3 ==> field@.len() == 0,
    {
        assert(p@.take(it.index() + 1) =~= seen.push(c));
        proof {
            lemma_dot_fields_push(seen, c);
        }
        if c == '.' {
            if dots == 3 {
                // A fifth field begins: the fourth one is complete.
                proof {
                    let done = seen.push(c);
                    let rest = p@.skip(it.index() + 1);
                    assert(p@ =~= done + rest);
                    lemma_dot_fields_closed_stable(done, rest, 3);
                }
                return Some(field);
            }
            dots = dots + 1;
        } else if dots == 3 {
            field.push(c);
        }
        proof { seen = seen.push(c); }
    }
    assert(seen =~= p@);
    if dots == 3 {
        Some(field)
    } else {
        None
    }
}

/// A decimal digit, '0' to '9'.
pub open spec fn is_digit(c: char) -> bool {
    '0' <= c && c <= '9'
}

pub open spec fn all_digits(s: Seq<char>) -> bool {
    forall|i: int| 0 <= i < s.len() ==> is_digit(#[trigger] s[i])
}

/// The number that a string of decimal digits denotes.
pub open spec fn digits_value(s: Seq<char>) -> int
    decreases s.len(),
{
    if s.len() == 0 {
        0
    } else {
        digits_value(s.drop_last()) * 10 + (s.last() as int - '0' as int)
    }
}

/// How many decimal digits `s` starts with.
pub open spec fn leading_digits(s: Seq<char>) -> nat
    decreases s.len(),
{
    if s.len() > 0 && is_digit(s[0]) {
        1 + leading_digits(s.skip(1))
    } else {
        0
    }
}

/// The digits after an optional leading sign, and whether that sign is '-'.
pub open spec fn unsigned_part(s: Seq<char>) -> (bool, Seq<char>) {
    if s.len() > 0 && s[0] == '-' {
        (true, s.skip(1))
    } else if s.len() > 0 && s[0] == '+' {
        (false, s.skip(1))
    } else {
        (false, s)
    }
}

/// How reading the digits `d` against a bound `limit` on their value ends,
/// digit by digit as `str::parse` reads them: the value of the digits read
/// so far (`Ok`), or the error met first: `true` when the value passes the
/// bound, `false` at a character that is not a digit.
pub open spec fn read_digits(d: Seq<char>, limit: int) -> Result<int, bool> {
    let run = d.take(leading_digits(d) as int);
    if digits_value(run) > limit {
        Err(true)
    } else if leading_digits(d) < d.len() {
        Err(false)
    } else {
        Ok(digits_value(d))
    }
}

/// What `str::parse::<i32>` gives: an optional '+' or '-' followed by at
/// least one decimal digit and nothing else, whose value fits in an `i32`.
/// Its error is the first problem met reading from the left.
pub open spec fn decimal_i32(s: Seq<char>) -> Result<i32, NumberError> {
    let (negative, digits) = unsigned_part(s);
    let limit: int = if negative { 0x8000_0000 } else { 0x7fff_ffff };
    if s.len() == 0 {
        Err(NumberError::Empty)
    } else if digits.len() == 0 {
        Err(NumberError::InvalidDigit)
    } else {
        match read_digits(digits, limit) {
            Err(true) => Err(
                if negative {
                    NumberError::NegOverflow
                } else {
                    NumberError::PosOverflow
                },
            ),
            Err(false) => Err(NumberError::InvalidDigit),
            Ok(v) => Ok((if negative { -v } else { v }) as i32),
        }
    }
}

/// What `str::parse::<u32>` gives: an optional '+' followed by at least one
/// decimal digit and nothing else, whose value fits in a `u32`. Its error
/// is the first problem met reading from the left.
pub open spec fn decimal_u32(s: Seq<char>) -> Result<u32, NumberError> {
    let digits = if s.len() > 0 && s[0] == '+' { s.skip(1) } else { s };
    if s.len() == 0 {
        Err(NumberError::Empty)
    } else if digits.len() == 0 {
        Err(NumberError::InvalidDigit)
    } else {
        match read_digits(digits, 0xffff_ffff) {
            Err(true) => Err(NumberError::PosOverflow),
            Err(false) => Err(NumberError::InvalidDigit),
            Ok(v) => Ok(v as u32),
        }
    }
}

proof fn lemma_digits_value_take_step(s: Seq<char>, j: int)
    requires
        0 <= j < s.len(),
    ensures
        digits_value(s.take(j + 1)) == digits_value(s.take(j)) * 10 + (s[j] as int - '0' as int),
{
    assert(s.take(j + 1).drop_last() =~= s.take(j));
}

/// Appending digits never makes the value smaller.
proof fn lemma_digits_value_grows(s: Seq<char>, k: int)
    requires
        all_digits(s),
        0 <= k <= s.len(),
    ensures
        0 <= digits_value(s.take(k)) <= digits_value(s),
    decreases s.len(),
{
    if k == s.len() {
        assert(s.take(k) =~= s);
        if s.len() > 0 {
            lemma_digits_value_grows(s.drop_last(), 0);
        }
    } else {
        let t = s.drop_last();
        assert(all_digits(t)) by {
            assert forall|i: int| 0 <= i < t.len() implies is_digit(#[trigger] t[i]) by {
                assert(is_digit(s[i]));
            }
        }
        assert(is_digit(s[s.len() - 1]));
        lemma_digits_value_grows(t, k);
        lemma_digits_value_grows(t, t.len() as int);
        assert(t.take(k) =~= s.take(k));
        assert(t.take(t.len() as int) =~= t);
    }
}

/// A text that starts with exactly `m` digits has `m` leading digits.
proof fn lemma_leading_digits_exact(s: Seq<char>, m: int)
    requires
        0 <= m <= s.len(),
        forall|i: int| 0 <= i < m ==> is_digit(#[trigger] s[i]),
        m == s.len() || !is_digit(s[m]),
    ensures
        leading_digits(s) == m,
    decreases m,
{
    if m > 0 {
        let t = s.skip(1);
        assert forall|i: int| 0 <= i < m - 1 implies is_digit(#[trigger] t[i]) by {
            assert(t[i] == s[i + 1]);
            assert(is_digit(s[i + 1]));
        }
        if m < s.len() {
            assert(t[m - 1] == s[m]);
        }
        assert(is_digit(s[0]));
        lemma_leading_digits_exact(t, m - 1);
    }
}

/// Reads the digits `s[start..]`, `str::parse` fashion, against `limit`.
fn bounded_digits(s: &Vec<char>, start: usize, limit: u64) -> (r: Result<u64, bool>)
    requires
        start <= s.len(),
        limit <= u32::MAX + 1,
    ensures
        r matches Ok(v) ==> v <= limit && read_digits(s@.skip(start as int), limit as int) == Ok::<
            int,
            bool,
        >(v as int),
        r matches Err(b) ==> read_digits(s@.skip(start as int), limit as int) == Err::<int, bool>(b),
{
    let ghost d = s@.skip(start as int);
    let mut acc: u64 = 0;
    let mut i: usize = start;
    while i < s.len()
        invariant
            start <= i <= s.len(),
            d == s@.skip(start as int),
            limit <= u32::MAX + 1,
            all_digits(d.take(i - start)),
            acc == digits_value(d.take(i - start)),
            acc <= limit,
        decreases s.len() - i,
    {
        let c = s[i];
        assert(d[i - start] == c);
        if !('0' <= c && c <= '9') {
            proof {
                assert forall|j: int| 0 <= j < i - start implies is_digit(#[trigger] d[j]) by {
                    assert(d.take(i - start)[j] == d[j]);
                }
                lemma_leading_digits_exact(d, i - start);
            }
            return Err(false);
        }
        proof {
            lemma_digits_value_take_step(d, i - start);
            assert forall|j: int| 0 <= j < d.take(i - start + 1).len() implies is_digit(
                #[trigger] d.take(i - start + 1)[j],
            ) by {
                if j < i - start {
                    assert(d.take(i - start + 1)[j] == d.take(i - start)[j]);
                }
            }
        }
        let digit = (c as u32 - '0' as u32) as u64;
        acc = acc * 10 + digit;
        i = i + 1;
        if acc > limit {
            proof {
                // The run of leading digits reaches at least this far, and
                // the value only grows along it.
                lemma_leading_digits_facts(d);
                let m = leading_digits(d) as int;
                if m < i - start {
                    assert(d.take(i - start)[m] == d[m]);
                    assert(is_digit(d.take(i - start)[m]));
                }
                let run = d.take(m);
                assert(all_digits(run)) by {
                    assert forall|j: int| 0 <= j < run.len() implies is_digit(#[trigger] run[j]) by {
                        assert(run[j] == d[j]);
                    }
                }
                lemma_digits_value_grows(run, i - start);
                assert(run.take(i - start) =~= d.take(i - start));
            }
            return Err(true);
        }
    }
    proof {
        assert(d.take(i - start) =~= d);
        assert forall|j: int| 0 <= j < d.len() implies is_digit(#[trigger] d[j]) by {
            assert(d.take(i - start)[j] == d[j]);
        }
        lemma_leading_digits_exact(d, d.len() as int);
        assert(d.take(d.len() as int) =~= d);
    }
    Ok(acc)
}

/// The leading digits are digits, and what follows them, if anything, is
/// not.
proof fn lemma_leading_digits_facts(s: Seq<char>)
    ensures
        leading_digits(s) <= s.len(),
        forall|i: int| 0 <= i < leading_digits(s) ==> is_digit(#[trigger] s[i]),
        leading_digits(s) < s.len() ==> !is_digit(s[leading_digits(s) as int]),
    decreases s.len(),
{
    if s.len() > 0 && is_digit(s[0]) {
        let t = s.skip(1);
        lemma_leading_digits_facts(t);
        assert forall|i: int| 0 <= i < leading_digits(s) implies is_digit(#[trigger] s[i]) by {
            if i > 0 {
                assert(s[i] == t[i - 1]);
            }
        }
        if leading_digits(s) < s.len() {
            assert(s[leading_digits(s) as int] == t[leading_digits(t) as int]);
        }
    }
}

/// Reads `s` as `str::parse::<i32>` does.
pub fn parse_i32(s: &Vec<char>) -> (r: Result<i32, NumberError>)
    ensures
        r == decimal_i32(s@),
{
    if s.len() == 0 {
        return Err(NumberError::Empty);
    }
    let negative = s[0] == '-';
    let start: usize = if s[0] == '-' || s[0] == '+' { 1 } else { 0 };
    assert(unsigned_part(s@).1 =~= s@.skip(start as int));
    if start == s.len() {
        return Err(NumberError::InvalidDigit);
    }
    let limit: u64 = if negative { 2147483648 } else { 2147483647 };
    match bounded_digits(s, start, limit) {
        Err(true) => Err(
            if negative {
                NumberError::NegOverflow
            } else {
                NumberError::PosOverflow
            },
        ),
        Err(false) => Err(NumberError::InvalidDigit),
        Ok(v) => {
            if negative {
                if v == 2147483648 {
                    Ok(-2147483648i32)
                } else {
                    Ok(-(v as i32))
                }
            } else {
                Ok(v as i32)
            }
        },
    }
}

/// Reads `s` as `str::parse::<u32>` does.
pub fn parse_u32(s: &Vec<char>) -> (r: Result<u32, NumberError>)
    ensures
        r == decimal_u32(s@),
{
    if s.len() == 0 {
        return Err(NumberError::Empty);
    }
    let start: usize = if s[0] == '+' { 1 } else { 0 };
    assert((if s@.len() > 0 && s@[0] == '+' { s@.skip(1) } else { s@ }) =~= s@.skip(start as int));
    if start == s.len() {
        return Err(NumberError::InvalidDigit);
    }
    match bounded_digits(s, start, 4294967295) {
        Err(true) => Err(NumberError::PosOverflow),
        Err(false) => Err(NumberError::InvalidDigit),
        Ok(v) => Ok(v as u32),
    }
}

} // verus!
