//! Character sequences: their order, decimal notation, and the reading of
//! a path segment as an index.

use vstd::prelude::*;
use vstd::string::*;

verus! {

/// The outcome of a three-way comparison.
#[derive(Clone, Copy, Debug, PartialEq, Eq, Structural)]
pub enum Order {
    Less,
    Equal,
    Greater,
}

impl Order {
    /// The outcome of the same comparison with its sides exchanged.
    pub open spec fn reverse(self) -> Order {
        match self {
            Order::Less => Order::Greater,
            Order::Equal => Order::Equal,
            Order::Greater => Order::Less,
        }
    }
}

/// The order of two integers.
pub open spec fn compare_int(a: int, b: int) -> Order {
    if a < b {
        Order::Less
    } else if a == b {
        Order::Equal
    } else {
        Order::Greater
    }
}

/// Lexicographic order, by code point, of `a[from..]` and `b[from..]`.
pub open spec fn compare_chars(a: Seq<char>, b: Seq<char>, from: int) -> Order
    decreases a.len() - from,
{
    if from < 0 {
        Order::Equal
    } else if from >= a.len() {
        if from >= b.len() {
            Order::Equal
        } else {
            Order::Less
        }
    } else if from >= b.len() {
        Order::Greater
    } else if a[from] == b[from] {
        compare_chars(a, b, from + 1)
    } else if a[from] < b[from] {
        Order::Less
    } else {
        Order::Greater
    }
}

/// The decimal digit that stands for `d`, for `0 <= d < 10`.
pub open spec fn digit_char(d: int) -> char {
    if d == 0 {
        '0'
    } else if d == 1 {
        '1'
    } else if d == 2 {
        '2'
    } else if d == 3 {
        '3'
    } else if d == 4 {
        '4'
    } else if d == 5 {
        '5'
    } else if d == 6 {
        '6'
    } else if d == 7 {
        '7'
    } else if d == 8 {
        '8'
    } else {
        '9'
    }
}

/// The decimal digits of `n`, most significant first, without leading
/// zeros; a single `0` for zero.
pub open spec fn digits(n: nat) -> Seq<char>
    decreases n,
{
    if n < 10 {
        seq![digit_char(n as int)]
    } else {
        digits(n / 10) + seq![digit_char((n % 10) as int)]
    }
}

/// Decimal notation of an integer: a minus sign for a negative number, then
/// the digits of its magnitude.
pub open spec fn decimal(i: int) -> Seq<char> {
    if i < 0 {
        seq!['-'] + digits((-i) as nat)
    } else {
        digits(i as nat)
    }
}

/// Whether `c` is one of the ten decimal digits.
pub open spec fn is_digit(c: char) -> bool {
    '0' <= c <= '9'
}

/// The number that a string of digits denotes; leading zeros count for
/// nothing.
pub open spec fn digits_value(s: Seq<char>) -> nat
    decreases s.len(),
{
    if s.len() == 0 {
        0
    } else {
        (digits_value(s.drop_last()) * 10 + (s.last() as u32 - '0' as u32)) as nat
    }
}

/// A path segment read as an index: `Some` exactly when the segment is a
/// non-empty string of decimal digits.
pub open spec fn parse_index(s: Seq<char>) -> Option<nat> {
    if s.len() > 0 && (forall|i: int| 0 <= i < s.len() ==> is_digit(#[trigger] s[i])) {
        Some(digits_value(s))
    } else {
        None
    }
}

/// Compares two strings with `<` on `str`, which orders strings
/// lexicographically by their bytes and so by their code points. The
/// contract says that the answer is that of [`compare_chars`].
#[verifier::external_body]
pub(crate) fn str_less(a: &str, b: &str) -> (r: bool)
    ensures
        r == (compare_chars(a@, b@, 0) is Less),
{
    a < b
}

/// Two strings differ somewhere, or one is a proper prefix of the other,
/// unless they are equal.
pub proof fn lemma_compare_chars_equal(a: Seq<char>, b: Seq<char>, from: int)
    requires
        0 <= from,
    ensures
        compare_chars(a, b, from) is Equal <==> (a.len() == b.len() || (from >= a.len() && from
            >= b.len())) && forall|i: int| from <= i < a.len() && i < b.len() ==> a[i] == b[i],
    decreases a.len() - from,
{
    if from < a.len() && from < b.len() && a[from] == b[from] {
        lemma_compare_chars_equal(a, b, from + 1);
    }
}

/// Exchanging the sides of a string comparison reverses its outcome.
pub proof fn lemma_compare_chars_reverse(a: Seq<char>, b: Seq<char>, from: int)
    requires
        0 <= from,
    ensures
        compare_chars(b, a, from) == compare_chars(a, b, from).reverse(),
    decreases a.len() - from,
{
    if from < a.len() && from < b.len() && a[from] == b[from] {
        lemma_compare_chars_reverse(a, b, from + 1);
    }
}

/// The order of strings is transitive.
pub proof fn lemma_compare_chars_transitive(a: Seq<char>, b: Seq<char>, c: Seq<char>, from: int)
    requires
        0 <= from,
        compare_chars(a, b, from) is Less,
        compare_chars(b, c, from) is Less,
    ensures
        compare_chars(a, c, from) is Less,
    decreases a.len() - from,
{
    if from < a.len() && from < b.len() && from < c.len() {
        if a[from] == b[from] && b[from] == c[from] {
            lemma_compare_chars_transitive(a, b, c, from + 1);
        }
    }
}

/// Three-way comparison of two strings by code point.
pub fn compare_strings(a: &str, b: &str) -> (r: Order)
    ensures
        r == compare_chars(a@, b@, 0),
{
    proof {
        lemma_compare_chars_reverse(a@, b@, 0);
    }
    if str_less(a, b) {
        Order::Less
    } else if str_less(b, a) {
        Order::Greater
    } else {
        Order::Equal
    }
}

fn digit_str(d: u64) -> (r: &'static str)
    requires
        d < 10,
    ensures
        r@ == seq![digit_char(d as int)],
{
    proof {
        reveal_strlit("0");
        reveal_strlit("1");
        reveal_strlit("2");
        reveal_strlit("3");
        reveal_strlit("4");
        reveal_strlit("5");
        reveal_strlit("6");
        reveal_strlit("7");
        reveal_strlit("8");
        reveal_strlit("9");
    }
    let r = if d == 0 {
        "0"
    } else if d == 1 {
        "1"
    } else if d == 2 {
        "2"
    } else if d == 3 {
        "3"
    } else if d == 4 {
        "4"
    } else if d == 5 {
        "5"
    } else if d == 6 {
        "6"
    } else if d == 7 {
        "7"
    } else if d == 8 {
        "8"
    } else {
        "9"
    };
    assert(r@ =~= seq![digit_char(d as int)]);
    r
}

fn push_digits(out: &mut String, n: u64)
    ensures
        final(out)@ == old(out)@ + digits(n as nat),
    decreases n,
{
    if n >= 10 {
        push_digits(out, n / 10);
    }
    out.append(digit_str(n % 10));
    assert(out@ =~= old(out)@ + digits(n as nat));
}

/// The decimal notation of `n`.
pub fn decimal_string(n: i64) -> (r: String)
    ensures
        r@ == decimal(n as int),
{
    let mut out = String::new();
    if n < 0 {
        proof {
            reveal_strlit("-");
        }
        out.append("-");
        let m: u64 = if n == i64::MIN {
            9223372036854775808u64
        } else {
            (-n) as u64
        };
        push_digits(&mut out, m);
        assert(out@ =~= decimal(n as int));
    } else {
        push_digits(&mut out, n as u64);
        assert(out@ =~= decimal(n as int));
    }
    out
}

/// Reads a path segment as an index. Returns the index where the segment
/// is a string of digits whose value fits in `usize`, and `None` otherwise.
pub fn read_index(s: &str) -> (r: Option<usize>)
    ensures
        r == match parse_index(s@) {
            Some(v) => if v <= usize::MAX {
                Some(v as usize)
            } else {
                None
            },
            None => None,
        },
{
    if !s.is_ascii() {
        assert(parse_index(s@) is None);
        return None;
    }
    let n = s.unicode_len();
    if n == 0 {
        return None;
    }
    let mut value: usize = 0;
    let mut fits = true;
    let mut i: usize = 0;
    while i < n
        invariant
            i <= n,
            n == s@.len(),
            is_ascii(s),
            forall|j: int| 0 <= j < i ==> is_digit(#[trigger] s@[j]),
            fits ==> value == digits_value(s@.take(i as int)),
            !fits ==> digits_value(s@.take(i as int)) > usize::MAX,
        decreases n - i,
    {
        let b = s.get_ascii(i);
        if b < 48 || b > 57 {
            assert(!is_digit(s@[i as int]));
            return None;
        }
        assert(is_digit(s@[i as int]));
        let d: usize = (b - 48) as usize;
        assert(s@.take(i + 1).drop_last() =~= s@.take(i as int));
        assert(s@.take(i + 1).last() == s@[i as int]);
        assert(d == s@[i as int] as u32 - '0' as u32);
        assert(digits_value(s@.take(i + 1)) == digits_value(s@.take(i as int)) * 10 + d);
        if fits {
            match value.checked_mul(10) {
                Some(v10) => match v10.checked_add(d) {
                    Some(v) => {
                        value = v;
                    },
                    None => {
                        fits = false;
                    },
                },
                None => {
                    fits = false;
                },
            }
        }
        i += 1;
    }
    assert(s@.take(n as int) =~= s@);
    if fits {
        Some(value)
    } else {
        None
    }
}

} // verus!
