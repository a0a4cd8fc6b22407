//! Reading the short words that nodes exchange: bytes from the network,
//! decoded and stripped of surrounding white space.

use vstd::prelude::*;
use vstd::string::StrSliceExecFns;
use vstd::utf8::{valid_utf8, decode_utf8};

verus! {

/// The characters that Unicode gives the White_Space property, which is
/// what `char::is_whitespace` and `str::trim` go by.
pub open spec fn is_white_space(c: char) -> bool {
    let u = c as u32;
    ||| 0x09 <= u <= 0x0d
    ||| u == 0x20
    ||| u == 0x85
    ||| u == 0xa0
    ||| u == 0x1680
    ||| 0x2000 <= u <= 0x200a
    ||| u == 0x2028
    ||| u == 0x2029
    ||| u == 0x202f
    ||| u == 0x205f
    ||| u == 0x3000
}

/// `s` without its leading white space.
pub open spec fn strip_leading(s: Seq<char>) -> Seq<char>
    decreases s.len(),
{
    if s.len() > 0 && is_white_space(s[0]) {
        strip_leading(s.skip(1))
    } else {
        s
    }
}

/// `s` without its trailing white space.
pub open spec fn strip_trailing(s: Seq<char>) -> Seq<char>
    decreases s.len(),
{
    if s.len() > 0 && is_white_space(s.last()) {
        strip_trailing(s.drop_last())
    } else {
        s
    }
}

/// `s` without leading or trailing white space, as `str::trim` gives it.
pub open spec fn trimmed(s: Seq<char>) -> Seq<char> {
    strip_trailing(strip_leading(s))
}

/// The text that `String::from_utf8_lossy` decodes from `bytes`.
pub uninterp spec fn lossy_text(bytes: Seq<u8>) -> Seq<char>;

/// `String::from_utf8_lossy`. Trusted: the result is `lossy_text` of the
/// bytes, and, where the bytes are valid UTF-8, exactly the characters they
/// encode. What the function puts in place of invalid sequences (U+FFFD) is
/// not stated.
#[verifier::external_body]
pub(crate) fn from_utf8_lossy(bytes: &[u8]) -> (r: String)
    ensures
        r@ == lossy_text(bytes@),
        valid_utf8(bytes@) ==> r@ == decode_utf8(bytes@),
{
    String::from_utf8_lossy(bytes).into_owned()
}

/// Whether `c` is white space, as Unicode defines it.
fn is_white_space_char(c: char) -> (r: bool)
    ensures
        r == is_white_space(c),
{
    let u = c as u32;
    (0x09 <= u && u <= 0x0d) || u == 0x20 || u == 0x85 || u == 0xa0 || u == 0x1680 || (0x2000
        <= u && u <= 0x200a) || u == 0x2028 || u == 0x2029 || u == 0x202f || u == 0x205f || u
        == 0x3000
}

/// Stripping the leading white space of `s` removes its first `a`
/// characters when they are white space and the next one is not.
proof fn lemma_strip_leading_at(s: Seq<char>, a: int)
    requires
        0 <= a <= s.len(),
        forall|i: int| 0 <= i < a ==> is_white_space(#[trigger] s[i]),
        a == s.len() || !is_white_space(s[a]),
    ensures
        strip_leading(s) == s.skip(a),
    decreases a,
{
    if a == 0 {
        assert(s.skip(0) =~= s);
    } else {
        let t = s.skip(1);
        assert(is_white_space(s[0]));
        assert forall|i: int| 0 <= i < a - 1 implies is_white_space(#[trigger] t[i]) by {
            assert(t[i] == s[i + 1]);
            assert(is_white_space(s[i + 1]));
        }
        if a < s.len() {
            assert(t[a - 1] == s[a]);
        }
        lemma_strip_leading_at(t, a - 1);
        assert(t.skip(a - 1) =~= s.skip(a));
    }
}

/// Stripping the trailing white space of `s` keeps its first `b`
/// characters when those after them are white space and the last of them
/// is not.
proof fn lemma_strip_trailing_at(s: Seq<char>, b: int)
    requires
        0 <= b <= s.len(),
        forall|i: int| b <= i < s.len() ==> is_white_space(#[trigger] s[i]),
        b == 0 || !is_white_space(s[b - 1]),
    ensures
        strip_trailing(s) == s.take(b),
    decreases s.len() - b,
{
    if b == s.len() {
        assert(s.take(b) =~= s);
    } else {
        let t = s.drop_last();
        assert(is_white_space(s[s.len() - 1]));
        assert forall|i: int| b <= i < t.len() implies is_white_space(#[trigger] t[i]) by {
            assert(t[i] == s[i]);
        }
        if b > 0 {
            assert(t[b - 1] == s[b - 1]);
        }
        lemma_strip_trailing_at(t, b);
        assert(t.take(b) =~= s.take(b));
    }
}

/// `s` without leading or trailing white space, as `str::trim` gives it.
pub fn trim(s: &str) -> (r: &str)
    ensures
        r@ == trimmed(s@),
{
    let n = s.unicode_len();
    let mut a: usize = 0;
    while a < n && is_white_space_char(s.get_char(a))
        invariant
            n == s@.len(),
            a <= n,
            forall|i: int| 0 <= i < a ==> is_white_space(#[trigger] s@[i]),
        decreases n - a,
    {
        a = a + 1;
    }
    let mut b: usize = n;
    while b > a && is_white_space_char(s.get_char(b - 1))
        invariant
            n == s@.len(),
            a <= b <= n,
            forall|i: int| b <= i < n ==> is_white_space(#[trigger] s@[i]),
        decreases b - a,
    {
        b = b - 1;
    }
    proof {
        lemma_strip_leading_at(s@, a as int);
        let t = s@.skip(a as int);
        assert forall|i: int| b - a <= i < t.len() implies is_white_space(#[trigger] t[i]) by {
            assert(t[i] == s@[a + i]);
        }
        if b > a {
            assert(t[b - a - 1] == s@[b - 1]);
        }
        lemma_strip_trailing_at(t, b - a);
        assert(t.take(b - a) =~= s@.subrange(a as int, b as int));
    }
    s.substring_char(a, b)
}

/// Whether two texts hold the same characters.
pub fn same_text(a: &str, b: &str) -> (r: bool)
    ensures
        r == (a@ == b@),
{
    let n = a.unicode_len();
    if n != b.unicode_len() {
        return false;
    }
    let mut i: usize = 0;
    while i < n
        invariant
            n == a@.len(),
            n == b@.len(),
            i <= n,
            forall|j: int| 0 <= j < i ==> a@[j] == b@[j],
        decreases n - i,
    {
        if a.get_char(i) != b.get_char(i) {
            return false;
        }
        i = i + 1;
    }
    assert(a@ =~= b@);
    true
}

/// The words of the bully algorithm's wire protocol.
#[derive(Clone, Copy, Debug, PartialEq, Eq, Structural)]
pub enum Word {
    /// A challenge: "ELECTION".
    Election,
    /// A victory announcement: "COORDINATOR".
    Coordinator,
    /// A leader check: "HEARTBEAT".
    Heartbeat,
    /// The answer to a challenge or an announcement: "OK".
    Accepted,
    /// The answer to a leader check: "ALIVE".
    Alive,
}

/// The characters of a protocol word.
pub open spec fn word_text(w: Word) -> Seq<char> {
    match w {
        Word::Election => seq!['E', 'L', 'E', 'C', 'T', 'I', 'O', 'N'],
        Word::Coordinator => seq!['C', 'O', 'O', 'R', 'D', 'I', 'N', 'A', 'T', 'O', 'R'],
        Word::Heartbeat => seq!['H', 'E', 'A', 'R', 'T', 'B', 'E', 'A', 'T'],
        Word::Accepted => seq!['O', 'K'],
        Word::Alive => seq!['A', 'L', 'I', 'V', 'E'],
    }
}

impl Word {
    /// The word as it is written on the wire.
    pub fn text(&self) -> (r: &'static str)
        ensures
            r@ == word_text(*self),
    {
        match self {
            Word::Election => {
                proof { reveal_strlit("ELECTION"); }
                "ELECTION"
            },
            Word::Coordinator => {
                proof { reveal_strlit("COORDINATOR"); }
                "COORDINATOR"
            },
            Word::Heartbeat => {
                proof { reveal_strlit("HEARTBEAT"); }
                "HEARTBEAT"
            },
            Word::Accepted => {
                proof { reveal_strlit("OK"); }
                "OK"
            },
            Word::Alive => {
                proof { reveal_strlit("ALIVE"); }
                "ALIVE"
            },
        }
    }
}

/// The text that received bytes carry once decoded and trimmed.
pub open spec fn received_text(bytes: Seq<u8>) -> Seq<char> {
    trimmed(lossy_text(bytes))
}

/// Whether the received bytes carry the word `w`, white space aside.
pub fn carries(bytes: &[u8], w: Word) -> (r: bool)
    ensures
        r == (received_text(bytes@) == word_text(w)),
{
    let text = from_utf8_lossy(bytes);
    let t = trim(text.as_str());
    same_text(t, w.text())
}

} // verus!
