//! Decimal text of event identifiers, as written into and read back from
//! button tokens and fallback labels.
use vstd::prelude::*;
use vstd::string::StringExecFns;

verus! {

#[verifier::external_type_specification]
#[verifier::external_body]
pub struct ExParseIntError(std::num::ParseIntError);

/// The digit character for `d`, which is below ten.
pub open spec fn digit_char(d: int) -> char {
    seq!['0', '1', '2', '3', '4', '5', '6', '7', '8', '9'][d]
}

/// The decimal digits of a natural number, without leading zeros.
pub open spec fn nat_text(n: nat) -> Seq<char>
    decreases n,
{
    if n < 10 {
        seq![digit_char(n as int)]
    } else {
        nat_text(n / 10).push(digit_char((n % 10) as int))
    }
}

/// The decimal text of an integer: a minus sign before negative numbers.
pub open spec fn int_text(n: int) -> Seq<char> {
    if n < 0 {
        seq!['-'] + nat_text((-n) as nat)
    } else {
        nat_text(n as nat)
    }
}

pub open spec fn is_digit(c: char) -> bool {
    '0' <= c <= '9'
}

/// The number that a run of decimal digits spells.
pub open spec fn digits_value(s: Seq<char>) -> int
    decreases s.len(),
{
    if s.len() == 0 {
        0
    } else {
        digits_value(s.drop_last()) * 10 + (s.last() as int - '0' as int)
    }
}

/// The digits of signed decimal text, after an optional sign.
pub open spec fn unsigned_part(s: Seq<char>) -> Seq<char> {
    if s.len() > 0 && (s[0] == '-' || s[0] == '+') {
        s.drop_first()
    } else {
        s
    }
}

/// The value of signed decimal text, ignoring range.
pub open spec fn signed_value(s: Seq<char>) -> int {
    if s.len() > 0 && s[0] == '-' {
        -digits_value(unsigned_part(s))
    } else {
        digits_value(unsigned_part(s))
    }
}

/// The 64-bit integer that `s` spells: an optional `+` or `-` followed by at
/// least one decimal digit and nothing else, with a value in range.
pub open spec fn parsed_i64(s: Seq<char>) -> Option<i64> {
    let d = unsigned_part(s);
    if d.len() > 0 && (forall|i: int| 0 <= i < d.len() ==> is_digit(#[trigger] d[i])) && i64::MIN
        <= signed_value(s) <= i64::MAX {
        Some(signed_value(s) as i64)
    } else {
        None
    }
}

proof fn lemma_digits_value_push(s: Seq<char>, c: char)
    ensures
        digits_value(s.push(c)) == digits_value(s) * 10 + (c as int - '0' as int),
{
    assert(s.push(c).drop_last() =~= s);
}

proof fn lemma_nat_text(n: nat)
    ensures
        nat_text(n).len() > 0,
        forall|i: int| 0 <= i < nat_text(n).len() ==> is_digit(#[trigger] nat_text(n)[i]),
        digits_value(nat_text(n)) == n,
    decreases n,
{
    let digits = seq!['0', '1', '2', '3', '4', '5', '6', '7', '8', '9'];
    assert(forall|d: int| 0 <= d < 10 ==> is_digit(#[trigger] digits[d]) && digits[d] as int - '0' as int == d) by {
        assert(digits[0] == '0' && digits[1] == '1' && digits[2] == '2' && digits[3] == '3');
        assert(digits[4] == '4' && digits[5] == '5' && digits[6] == '6' && digits[7] == '7');
        assert(digits[8] == '8' && digits[9] == '9');
    }
    if n < 10 {
        let t = nat_text(n);
        assert(t[0] == digits[n as int]);
        lemma_digits_value_push(Seq::empty(), t[0]);
        assert(Seq::<char>::empty().push(t[0]) =~= t);
    } else {
        let q = (n / 10) as nat;
        let d = (n % 10) as int;
        lemma_nat_text(q);
        let t = nat_text(n);
        assert(t == nat_text(q).push(digits[d]));
        lemma_digits_value_push(nat_text(q), digits[d]);
        assert(q * 10 + d == n);
        assert forall|i: int| 0 <= i < t.len() implies is_digit(#[trigger] t[i]) by {
            if i < nat_text(q).len() {
                assert(t[i] == nat_text(q)[i]);
            }
        }
    }
}

/// The decimal text of a 64-bit integer reads back as that integer.
pub proof fn lemma_int_text_parses(n: i64)
    ensures
        parsed_i64(int_text(n as int)) == Some(n),
{
    let m = if n < 0 { -(n as int) } else { n as int };
    lemma_nat_text(m as nat);
    let t = int_text(n as int);
    let d = unsigned_part(t);
    if n < 0 {
        assert(t[0] == '-');
        assert(d =~= nat_text(m as nat));
    } else {
        assert(t == nat_text(m as nat));
        assert(is_digit(t[0]));
        assert(d == t);
    }
    assert(forall|i: int| 0 <= i < d.len() ==> is_digit(#[trigger] d[i]));
    assert(signed_value(t) == n);
}

/// The text of one decimal digit.
fn digit_text(d: u64) -> (r: &'static str)
    requires
        d < 10,
    ensures
        r@ == seq![digit_char(d as int)],
{
    let digits = "0123456789";
    proof {
        reveal_strlit("0123456789");
    }
    let r = digits.substring_char(d as usize, d as usize + 1);
    assert(r@ =~= seq![digit_char(d as int)]);
    r
}

/// The decimal digits of `n`, without leading zeros.
pub(crate) fn nat_digits(n: u64) -> (r: String)
    ensures
        r@ == nat_text(n as nat),
    decreases n,
{
    if n < 10 {
        String::from_str(digit_text(n))
    } else {
        let mut r = nat_digits(n / 10);
        r.append(digit_text(n % 10));
        r
    }
}

/// `n` in decimal, with zeros before it up to `width` digits.
pub open spec fn padded(n: nat, width: nat) -> Seq<char> {
    let t = nat_text(n);
    if t.len() >= width {
        t
    } else {
        Seq::new((width - t.len()) as nat, |i: int| '0') + t
    }
}

/// The decimal digits of `n`, with zeros before them up to `width` digits.
pub(crate) fn padded_digits(n: u64, width: usize) -> (r: String)
    ensures
        r@ == padded(n as nat, width as nat),
{
    let t = nat_digits(n);
    let len = t.unicode_len();
    if len >= width {
        return t;
    }
    let mut r = String::new();
    let mut i: usize = 0;
    while i < width - len
        invariant
            i <= width - len,
            r@ == Seq::new(i as nat, |k: int| '0'),
        decreases width - len - i,
    {
        proof {
            reveal_strlit("0");
        }
        r.append("0");
        assert(r@ =~= Seq::new((i + 1) as nat, |k: int| '0'));
        i = i + 1;
    }
    r.append(t.as_str());
    r
}

/// The decimal text of `n`.
pub(crate) fn decimal_text(n: i64) -> (r: String)
    ensures
        r@ == int_text(n as int),
{
    if n < 0 {
        let magnitude = (0i128 - n as i128) as u64;
        let mut r = String::from_str("-");
        proof {
            reveal_strlit("-");
        }
        r.append(nat_digits(magnitude).as_str());
        r
    } else {
        nat_digits(n as u64)
    }
}

/// Relies on `str::parse::<i64>`: it accepts exactly an optional sign followed
/// by decimal digits whose value fits, and returns that value.
#[verifier::external_body]
pub(crate) fn parse_i64(text: &str) -> (r: Result<i64, std::num::ParseIntError>)
    ensures
        match r {
            Ok(v) => parsed_i64(text@) == Some(v),
            Err(_) => parsed_i64(text@) is None,
        },
{
    text.parse::<i64>()
}

} // verus!
