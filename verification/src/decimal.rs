//! Decimal text form of `i32` ids: parsing that accepts exactly what
//! `str::parse::<i32>` accepts, and the canonical rendering `i32::to_string`
//! produces.

use vstd::prelude::*;

verus! {

/// `c` is one of the ASCII digits `0` to `9`.
pub open spec fn is_digit(c: char) -> bool {
    '0' <= c && c <= '9'
}

/// Every character of `s` is an ASCII digit.
pub open spec fn all_digits(s: Seq<char>) -> bool {
    forall|i: int| 0 <= i < s.len() ==> is_digit(#[trigger] s[i])
}

/// The value of a digit character.
pub open spec fn digit_value(c: char) -> int {
    (c as int) - ('0' as int)
}

/// The number written by the digit string `s` (most significant digit first).
pub open spec fn digits_value(s: Seq<char>) -> int
    decreases s.len(),
{
    if s.len() == 0 {
        0
    } else {
        digits_value(s.drop_last()) * 10 + digit_value(s.last())
    }
}

/// The text `s` as read by `str::parse::<i32>`: an optional `+` or `-`,
/// then at least one ASCII digit and nothing else, denoting a value within
/// the range of `i32`.
pub open spec fn spec_parse_i32(s: Seq<char>) -> Option<i32> {
    let negative = s.len() > 0 && s[0] == '-';
    let signed = s.len() > 0 && (s[0] == '-' || s[0] == '+');
    let body = if signed { s.drop_first() } else { s };
    let value = if negative { -digits_value(body) } else { digits_value(body) };
    if body.len() > 0 && all_digits(body) && i32::MIN <= value && value <= i32::MAX {
        Some(value as i32)
    } else {
        None
    }
}

/// The digit character for a value below ten.
pub open spec fn digit_char(d: nat) -> char {
    (('0' as nat) + d) as char
}

/// The shortest decimal digit string of `n`.
pub open spec fn decimal_digits(n: nat) -> Seq<char>
    decreases n,
{
    if n < 10 {
        seq![digit_char(n)]
    } else {
        decimal_digits(n / 10).push(digit_char(n % 10))
    }
}

/// The text `i32::to_string` produces: a `-` for negative values, then the
/// shortest decimal digits of the magnitude.
pub open spec fn spec_format_i32(n: i32) -> Seq<char> {
    if n < 0 {
        seq!['-'] + decimal_digits((-n) as nat)
    } else {
        decimal_digits(n as nat)
    }
}

proof fn lemma_digits_prefix_le(s: Seq<char>, k: int)
    requires
        all_digits(s),
        0 <= k <= s.len(),
    ensures
        0 <= digits_value(s.take(k)) <= digits_value(s),
    decreases s.len(),
{
    if s.len() == 0 {
        assert(s.take(k) =~= s);
    } else if k == s.len() {
        assert(s.take(k) =~= s);
        lemma_digits_prefix_le(s.drop_last(), s.len() - 1);
        assert(s.drop_last().take(s.len() - 1) =~= s.drop_last());
    } else {
        assert(all_digits(s.drop_last()));
        lemma_digits_prefix_le(s.drop_last(), k);
        assert(s.drop_last().take(k) =~= s.take(k));
        assert(is_digit(s[s.len() - 1]));
    }
}

proof fn lemma_decimal_digits(n: nat)
    ensures
        all_digits(decimal_digits(n)),
        decimal_digits(n).len() > 0,
        digits_value(decimal_digits(n)) == n,
    decreases n,
{
    if n >= 10 {
        lemma_decimal_digits(n / 10);
        let d = decimal_digits(n);
        assert(d.drop_last() =~= decimal_digits(n / 10));
        assert(digit_value(digit_char(n % 10)) == n % 10);
        assert(n == (n / 10) * 10 + n % 10);
        assert(d.last() == digit_char(n % 10));
        assert(digits_value(d) == digits_value(d.drop_last()) * 10 + digit_value(d.last()));
    } else {
        assert(seq![digit_char(n)].drop_last() =~= Seq::<char>::empty());
        assert(digit_value(digit_char(n)) == n);
        assert(digits_value(Seq::<char>::empty()) == 0);
    }
}

/// Rendering an id and reading it back gives the same id.
pub proof fn lemma_parse_format_roundtrip(n: i32)
    ensures
        spec_parse_i32(spec_format_i32(n)) == Some(n),
{
    if n < 0 {
        let m = (-n) as nat;
        lemma_decimal_digits(m);
        let s = spec_format_i32(n);
        assert(s.drop_first() =~= decimal_digits(m));
    } else {
        lemma_decimal_digits(n as nat);
        let d = decimal_digits(n as nat);
        assert(is_digit(d[0]));
    }
}

/// The characters of `s`, in order.
pub fn chars_of(s: &str) -> (res: Vec<char>)
    ensures
        res@ == s@,
{
    broadcast use vstd::string::group_string_axioms;
    let mut out: Vec<char> = Vec::new();
    for c in it: s.chars()
        invariant
            it.seq() == s@,
            out@ == s@.take(it.index()),
    {
        out.push(c);
        proof {
            assert(s@.take(it.index() + 1) =~= out@);
        }
    }
    proof {
        assert(s@.take(s@.len() as int) =~= s@);
    }
    out
}

/// Reads `s` as `str::parse::<i32>` does; `None` where that call fails.
#[verifier::loop_isolation(false)]
pub fn parse_i32(s: &str) -> (res: Option<i32>)
    ensures
        res == spec_parse_i32(s@),
{
    let v = chars_of(s);
    let n = v.len();
    if n == 0 {
        return None;
    }
    let negative = v[0] == '-';
    let start: usize = if v[0] == '-' || v[0] == '+' { 1 } else { 0 };
    let ghost body = v@.subrange(start as int, n as int);
    proof {
        if start == 1 {
            assert(body =~= v@.drop_first());
        } else {
            assert(body =~= v@);
        }
    }
    if start == n {
        return None;
    }
    let mut magnitude: u64 = 0;
    let mut i: usize = start;
    while i < n
        invariant
            start <= i <= n,
            n == v.len(),
            v@ == s@,
            body == v@.subrange(start as int, n as int),
            all_digits(v@.subrange(start as int, i as int)),
            magnitude == digits_value(v@.subrange(start as int, i as int)),
            magnitude <= 2147483648,
        decreases n - i,
    {
        let c = v[i];
        if !('0' <= c && c <= '9') {
            proof {
                assert(body[i - start] == c);
                assert(!all_digits(body));
                assert(s@ == v@);
            }
            return None;
        }
        let d = ((c as u32) - ('0' as u32)) as u64;
        let next = magnitude * 10 + d;
        proof {
            let pre = v@.subrange(start as int, i + 1);
            assert(pre.drop_last() =~= v@.subrange(start as int, i as int));
            assert(all_digits(pre));
        }
        if next > 2147483648 {
            proof {
                let pre = v@.subrange(start as int, i + 1);
                if all_digits(body) {
                    assert(body.take(i + 1 - start) =~= pre);
                    lemma_digits_prefix_le(body, i + 1 - start);
                }
            }
            return None;
        }
        magnitude = next;
        i = i + 1;
    }
    proof {
        assert(v@.subrange(start as int, n as int) =~= body);
        assert(s@ == v@);
        assert(magnitude == digits_value(body));
        assert(all_digits(body));
    }
    if negative {
        Some((0 - (magnitude as i64)) as i32)
    } else if magnitude <= 2147483647 {
        Some(magnitude as i32)
    } else {
        None
    }
}

/// Appends `c` to `s` with `String::push`.
#[verifier::external_body]
fn push_char(s: &mut String, c: char)
    ensures
        final(s)@ == old(s)@.push(c),
{
    s.push(c);
}

fn push_decimal_digits(out: &mut String, m: u32)
    ensures
        final(out)@ == old(out)@ + decimal_digits(m as nat),
    decreases m,
{
    if m >= 10 {
        push_decimal_digits(out, m / 10);
    }
    let d = (m % 10) as u8;
    let c = (48u8 + d) as char;
    proof {
        assert(c == digit_char((m % 10) as nat));
    }
    push_char(out, c);
    proof {
        if m < 10 {
            assert(decimal_digits(m as nat) =~= seq![digit_char(m as nat)]);
        }
    }
}

/// Renders `n` as `i32::to_string` does.
pub fn format_i32(n: i32) -> (res: String)
    ensures
        res@ == spec_format_i32(n),
{
    let mut out = String::new();
    if n < 0 {
        push_char(&mut out, '-');
        let m: u32 = (0 - (n as i64)) as u32;
        push_decimal_digits(&mut out, m);
    } else {
        push_decimal_digits(&mut out, n as u32);
    }
    assert(out@ =~= spec_format_i32(n));
    out
}

} // verus!
