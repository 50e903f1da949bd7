//! Character-level helpers shared by the codec: conversions between strings
//! and character vectors, and decimal digit sequences for identifiers.

use vstd::prelude::*;
use vstd::string::StrSliceExecFns;

verus! {

/// Collects the characters of a string slice into a vector.
pub fn string_to_chars(s: &str) -> (r: Vec<char>)
    ensures
        r@ == s@,
{
    let n = s.unicode_len();
    let mut out: Vec<char> = Vec::new();
    let mut i: usize = 0;
    while i < n
        invariant
            i <= n,
            n == s@.len(),
            out@ == s@.take(i as int),
        decreases n - i,
    {
        out.push(s.get_char(i));
        i = i + 1;
        proof {
            assert(out@ =~= s@.take(i as int));
        }
    }
    proof {
        assert(s@.take(n as int) =~= s@);
    }
    out
}

/// Relies on `String`'s `FromIterator<char>` implementation: collecting an
/// iterator of characters yields the string made of exactly those characters,
/// in order.
#[verifier::external_body]
pub fn chars_to_string(v: &Vec<char>) -> (s: String)
    ensures
        s@ == v@,
{
    v.iter().collect()
}

/// Compares two character sequences for equality.
pub fn chars_eq(a: &Vec<char>, b: &Vec<char>) -> (r: bool)
    ensures
        r == (a@ == b@),
{
    if a.len() != b.len() {
        return false;
    }
    let n = a.len();
    let mut i: usize = 0;
    while i < n
        invariant
            i <= n,
            n == a@.len() == b@.len(),
            forall|k: int| 0 <= k < i ==> a@[k] == b@[k],
        decreases n - i,
    {
        if a[i] != b[i] {
            return false;
        }
        i = i + 1;
    }
    proof {
        assert(a@ =~= b@);
    }
    true
}

/// Whether a character is a decimal digit.
pub open spec fn is_digit_char(c: char) -> bool {
    48 <= c as u32 <= 57
}

/// The digit character for a value below ten.
pub open spec fn digit_char_of(d: int) -> char {
    ((48 + d) as u8) as char
}

/// The value of a digit character.
pub open spec fn digit_val_char(c: char) -> int {
    c as u32 - 48
}

/// The canonical decimal digit sequence of a non-negative integer:
/// no sign, no leading zeros (except for zero itself).
pub open spec fn dec_digits(n: int) -> Seq<char>
    recommends
        n >= 0,
    decreases n,
{
    if n < 10 {
        seq![digit_char_of(if n >= 0 { n } else { 0 })]
    } else {
        dec_digits(n / 10).push(digit_char_of(n % 10))
    }
}

/// The value of a digit sequence read as a decimal numeral.
pub open spec fn digits_val(s: Seq<char>) -> int
    decreases s.len(),
{
    if s.len() == 0 {
        0
    } else {
        digits_val(s.drop_last()) * 10 + digit_val_char(s.last())
    }
}

/// The end of the run of digit characters that starts at position `i`.
pub open spec fn digit_run_end(s: Seq<char>, i: int) -> int
    recommends
        0 <= i <= s.len(),
    decreases s.len() - i,
{
    if i < s.len() && is_digit_char(s[i]) {
        digit_run_end(s, i + 1)
    } else {
        i
    }
}

/// The decimal digit sequence of `n` is non-empty, consists of digits, and
/// reads back as `n`.
pub proof fn lemma_dec_digits(n: int)
    requires
        n >= 0,
    ensures
        dec_digits(n).len() >= 1,
        forall|k: int| 0 <= k < dec_digits(n).len() ==> is_digit_char(#[trigger] dec_digits(n)[k]),
        digits_val(dec_digits(n)) == n,
    decreases n,
{
    if n < 10 {
        assert(dec_digits(n) =~= seq![digit_char_of(n)]);
        assert(is_digit_char(digit_char_of(n)));
        assert(dec_digits(n).drop_last() =~= Seq::<char>::empty());
        assert(dec_digits(n).last() == digit_char_of(n));
        assert(digit_char_of(n) as u32 == 48 + n);
        assert(digits_val(Seq::<char>::empty()) == 0);
        assert(digits_val(dec_digits(n)) == digit_val_char(digit_char_of(n)));
    } else {
        lemma_dec_digits(n / 10);
        vstd::arithmetic::div_mod::lemma_fundamental_div_mod(n, 10);
        let d = dec_digits(n / 10);
        assert(dec_digits(n) =~= d.push(digit_char_of(n % 10)));
        assert(dec_digits(n).drop_last() =~= d);
        assert(is_digit_char(digit_char_of(n % 10)));
        assert(digit_char_of(n % 10) as u32 == 48 + n % 10);
        assert forall|k: int| 0 <= k < dec_digits(n).len() implies is_digit_char(
            #[trigger] dec_digits(n)[k],
        ) by {
            if k < d.len() {
                assert(dec_digits(n)[k] == d[k]);
            }
        }
    }
}

/// Splitting a suffix: if the characters from `i` on are `x` followed by `y`,
/// then `x` occupies exactly the range from `i` to `i + x.len()`.
pub proof fn lemma_skip_concat(s: Seq<char>, i: int, x: Seq<char>, y: Seq<char>)
    requires
        0 <= i <= s.len(),
        s.skip(i) == x + y,
    ensures
        i + x.len() <= s.len(),
        s.subrange(i, i + x.len()) == x,
        s.skip(i + x.len()) == y,
{
    assert(s.skip(i).len() == s.len() - i);
    assert(s.subrange(i, i + x.len()) =~= x) by {
        assert forall|k: int| 0 <= k < x.len() implies s.subrange(i, i + x.len())[k] == x[k] by {
            assert(s.skip(i)[k] == x[k]);
            assert(s.skip(i)[k] == s[i + k]);
        }
    }
    assert(s.skip(i + x.len()) =~= y) by {
        assert forall|k: int| 0 <= k < y.len() implies s.skip(i + x.len())[k] == y[k] by {
            assert(s.skip(i)[x.len() + k] == (x + y)[x.len() + k]);
            assert(s.skip(i)[x.len() + k] == s[i + x.len() + k]);
        }
    }
}

/// A digit run that is followed by a non-digit (or by the end of the input)
/// ends exactly where the digits end.
pub proof fn lemma_digit_run_of(s: Seq<char>, i: int, d: Seq<char>, r: Seq<char>)
    requires
        0 <= i <= s.len(),
        s.skip(i) == d + r,
        forall|k: int| 0 <= k < d.len() ==> is_digit_char(#[trigger] d[k]),
        r.len() == 0 || !is_digit_char(r[0]),
    ensures
        digit_run_end(s, i) == i + d.len(),
        s.subrange(i, i + d.len()) == d,
    decreases d.len(),
{
    lemma_skip_concat(s, i, d, r);
    if d.len() == 0 {
        if i < s.len() {
            assert(s[i] == s.skip(i)[0]);
            assert(s.skip(i)[0] == r[0]);
        }
    } else {
        assert(s[i] == s.skip(i)[0]);
        assert(s.skip(i)[0] == d[0]);
        assert(is_digit_char(s[i]));
        assert(s.skip(i + 1) =~= d.drop_first() + r) by {
            assert forall|k: int| 0 <= k < s.len() - i - 1 implies s.skip(i + 1)[k] == (
            d.drop_first() + r)[k] by {
                assert(s.skip(i)[k + 1] == (d + r)[k + 1]);
                assert(s.skip(i)[k + 1] == s[i + 1 + k]);
            }
        }
        assert forall|k: int| 0 <= k < d.drop_first().len() implies is_digit_char(
            #[trigger] d.drop_first()[k],
        ) by {
            assert(d.drop_first()[k] == d[k + 1]);
        }
        lemma_digit_run_of(s, i + 1, d.drop_first(), r);
    }
}

/// The value of a digit range grows (weakly) as the range is extended to the
/// right through further digits.
pub proof fn lemma_digits_val_extend(s: Seq<char>, a: int, b: int, c: int)
    requires
        0 <= a <= b <= c <= s.len(),
        forall|k: int| a <= k < c ==> is_digit_char(#[trigger] s[k]),
    ensures
        digits_val(s.subrange(a, b)) <= digits_val(s.subrange(a, c)),
        digits_val(s.subrange(a, b)) >= 0,
    decreases c - b,
{
    if b == c {
        lemma_digits_val_nonneg(s, a, b);
    } else {
        lemma_digits_val_extend(s, a, b, c - 1);
        lemma_digits_val_nonneg(s, a, c - 1);
        assert(s.subrange(a, c).drop_last() =~= s.subrange(a, c - 1));
        assert(s.subrange(a, c).last() == s[c - 1]);
        assert(digit_val_char(s[c - 1]) >= 0);
    }
}

/// The value of a range of digit characters is non-negative.
pub proof fn lemma_digits_val_nonneg(s: Seq<char>, a: int, b: int)
    requires
        0 <= a <= b <= s.len(),
        forall|k: int| a <= k < b ==> is_digit_char(#[trigger] s[k]),
    ensures
        digits_val(s.subrange(a, b)) >= 0,
    decreases b - a,
{
    if a == b {
    } else {
        lemma_digits_val_nonneg(s, a, b - 1);
        assert(s.subrange(a, b).drop_last() =~= s.subrange(a, b - 1));
        assert(s.subrange(a, b).last() == s[b - 1]);
    }
}

/// Whether a character is a decimal digit (run-time check).
pub fn is_digit(c: char) -> (r: bool)
    ensures
        r == is_digit_char(c),
{
    let u = c as u32;
    48 <= u && u <= 57
}

/// The digit character for a value below ten (run-time construction).
fn digit_char(d: usize) -> (r: char)
    requires
        d < 10,
    ensures
        r == digit_char_of(d as int),
{
    ((48 + d) as u8) as char
}

/// Renders an integer as its canonical decimal digit sequence.
pub fn usize_to_chars(n: usize) -> (v: Vec<char>)
    ensures
        v@ == dec_digits(n as int),
    decreases n,
{
    if n < 10 {
        let mut v: Vec<char> = Vec::new();
        v.push(digit_char(n));
        proof {
            assert(v@ =~= seq![digit_char_of(n as int)]);
        }
        v
    } else {
        let mut v = usize_to_chars(n / 10);
        v.push(digit_char(n % 10));
        v
    }
}

/// Reads the run of digit characters that starts at position `i` as a decimal
/// numeral. Returns the value and the position just past the run, or `None`
/// when no digit starts at `i` or the value does not fit in `usize`.
pub fn parse_uint(cs: &Vec<char>, i: usize) -> (r: Option<(usize, usize)>)
    requires
        i <= cs@.len(),
    ensures
        match r {
            Some(p) => {
                &&& i < p.1 <= cs@.len()
                &&& forall|k: int| i <= k < p.1 ==> is_digit_char(#[trigger] cs@[k])
                &&& (p.1 < cs@.len() ==> !is_digit_char(cs@[p.1 as int]))
                &&& p.0 as int == digits_val(cs@.subrange(i as int, p.1 as int))
                &&& p.1 as int == digit_run_end(cs@, i as int)
            },
            None => true,
        },
        ({
            let e = digit_run_end(cs@, i as int);
            (i < cs@.len() && is_digit_char(cs@[i as int]) && digits_val(
                cs@.subrange(i as int, e),
            ) <= usize::MAX) ==> r is Some
        }),
{
    let len = cs.len();
    if i >= len || !is_digit(cs[i]) {
        return None;
    }
    let ghost e = digit_run_end(cs@, i as int);
    proof {
        lemma_digit_run_props(cs@, i as int);
    }
    let mut j: usize = i;
    let mut acc: usize = 0;
    while j < len && is_digit(cs[j])
        invariant
            i <= j <= len,
            len == cs@.len(),
            e == digit_run_end(cs@, i as int),
            e == digit_run_end(cs@, j as int),
            i as int <= e <= len,
            forall|k: int| i <= k < j ==> is_digit_char(#[trigger] cs@[k]),
            forall|k: int| i <= k < e ==> is_digit_char(#[trigger] cs@[k]),
            e as int == digit_run_end(cs@, i as int),
            j <= e,
            acc as int == digits_val(cs@.subrange(i as int, j as int)),
        decreases len - j,
    {
        let d = (cs[j] as u32 as usize) - 48;
        proof {
            assert(digit_run_end(cs@, j as int) == digit_run_end(cs@, j + 1));
            lemma_digit_run_props(cs@, j + 1);
            assert(e >= j + 1);
            assert(cs@.subrange(i as int, j + 1).drop_last() =~= cs@.subrange(i as int, j as int));
            assert(cs@.subrange(i as int, j + 1).last() == cs@[j as int]);
        }
        if acc > (usize::MAX - d) / 10 {
            proof {
                assert(acc * 10 + d > usize::MAX) by (nonlinear_arith)
                    requires
                        acc > (usize::MAX - d) / 10,
                        d <= usize::MAX,
                        (usize::MAX - d) / 10 >= 0,
                ;
                assert(digits_val(cs@.subrange(i as int, j + 1)) == acc * 10 + d);
                lemma_digits_val_extend(cs@, i as int, j + 1, e);
            }
            return None;
        }
        acc = acc * 10 + d;
        j = j + 1;
    }
    proof {
        assert(digit_run_end(cs@, j as int) == j as int);
        assert(j == e);
    }
    Some((acc, j))
}

/// Basic facts about a digit run: it stays within the input and consists of
/// digits, and it is followed by a non-digit unless it reaches the end.
pub proof fn lemma_digit_run_props(s: Seq<char>, i: int)
    requires
        0 <= i <= s.len(),
    ensures
        i <= digit_run_end(s, i) <= s.len(),
        forall|k: int| i <= k < digit_run_end(s, i) ==> is_digit_char(#[trigger] s[k]),
        digit_run_end(s, i) < s.len() ==> !is_digit_char(s[digit_run_end(s, i)]),
    decreases s.len() - i,
{
    if i < s.len() && is_digit_char(s[i]) {
        lemma_digit_run_props(s, i + 1);
    }
}

} // verus!
