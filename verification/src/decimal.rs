//! Decimal text of 32-bit signed integers: what `i32`'s `FromStr` accepts,
//! and the text that `Display` prints for an `i32`; and the characters of a
//! text, which the parser reads.
use vstd::prelude::*;

verus! {

broadcast use vstd::string::group_string_axioms;

/// `c` is one of the ASCII digits `0` to `9`.
pub open spec fn is_digit(c: char) -> bool {
    '0' as u32 <= c as u32 && c as u32 <= '9' as u32
}

/// The value of the digit `c`.
pub open spec fn digit_value(c: char) -> nat {
    (c as u32 - '0' as u32) as nat
}

/// Every character of `s` is an ASCII digit.
pub open spec fn all_digits(s: Seq<char>) -> bool {
    forall|i: int| 0 <= i < s.len() ==> is_digit(#[trigger] s[i])
}

/// The number that the digits of `s` spell in base ten, most significant first.
pub open spec fn digits_value(s: Seq<char>) -> nat
    decreases s.len(),
{
    if s.len() == 0 {
        0
    } else {
        digits_value(s.drop_last()) * 10 + digit_value(s.last())
    }
}

/// What parsing `s` as an `i32` gives: an optional `+` or `-` sign followed by
/// one or more ASCII digits, whose value fits in an `i32`; anything else
/// (an empty text, a lone sign, any other character, an overflow) is refused.
pub open spec fn spec_parse_i32(s: Seq<char>) -> Option<i32> {
    let negative = s.len() > 0 && s[0] == '-';
    let body = if s.len() > 0 && (s[0] == '-' || s[0] == '+') {
        s.drop_first()
    } else {
        s
    };
    if body.len() == 0 || !all_digits(body) {
        None
    } else {
        let v: int = if negative {
            -(digits_value(body) as int)
        } else {
            digits_value(body) as int
        };
        if i32::MIN <= v <= i32::MAX {
            Some(v as i32)
        } else {
            None
        }
    }
}

/// A prefix never spells a larger number than the whole text.
proof fn lemma_digits_value_prefix(s: Seq<char>, k: int)
    requires
        0 <= k <= s.len(),
    ensures
        digits_value(s.take(k)) <= digits_value(s),
    decreases s.len(),
{
    if k < s.len() {
        assert(s.drop_last().take(k) =~= s.take(k));
        lemma_digits_value_prefix(s.drop_last(), k);
    } else {
        assert(s.take(k) =~= s);
    }
}

/// Parses `s[start..]` as an `i32`, with the rules of `spec_parse_i32`.
pub fn parse_i32_from(s: &Vec<char>, start: usize) -> (r: Option<i32>)
    requires
        start <= s.len(),
    ensures
        r == spec_parse_i32(s@.subrange(start as int, s.len() as int)),
{
    let ghost text = s@.subrange(start as int, s.len() as int);
    let n = s.len();
    if start == n {
        return None;
    }
    let negative = s[start] == '-';
    let mut i = start;
    if s[start] == '-' || s[start] == '+' {
        i = i + 1;
    }
    let first = i;
    let ghost body = s@.subrange(first as int, n as int);
    assert(body =~= if text.len() > 0 && (text[0] == '-' || text[0] == '+') {
        text.drop_first()
    } else {
        text
    });
    if first == n {
        return None;
    }
    let mut acc: u64 = 0;
    while i < n
        invariant
            first <= i <= n,
            n == s.len(),
            first < n,
            body == s@.subrange(first as int, n as int),
            text == s@.subrange(start as int, n as int),
            body == (if text.len() > 0 && (text[0] == '-' || text[0] == '+') {
                text.drop_first()
            } else {
                text
            }),
            negative == (text.len() > 0 && text[0] == '-'),
            acc == digits_value(s@.subrange(first as int, i as int)),
            acc <= 2147483648,
            all_digits(s@.subrange(first as int, i as int)),
        decreases n - i,
    {
        let c = s[i];
        if !('0' as u32 <= c as u32 && c as u32 <= '9' as u32) {
            assert(!is_digit(body[i - first]));
            return None;
        }
        let d = (c as u32 - '0' as u32) as u64;
        proof {
            let pre = s@.subrange(first as int, i as int);
            let post = s@.subrange(first as int, i + 1);
            assert(post.drop_last() =~= pre);
            assert(post.last() == c);
        }
        acc = acc * 10 + d;
        i = i + 1;
        if acc > 2147483648 {
            proof {
                assert(body.take(i - first) =~= s@.subrange(first as int, i as int));
                lemma_digits_value_prefix(body, i - first);
            }
            return None;
        }
    }
    assert(s@.subrange(first as int, i as int) =~= body);
    if negative {
        Some((0i64 - acc as i64) as i32)
    } else if acc <= 2147483647 {
        Some(acc as i32)
    } else {
        None
    }
}

/// The characters of `text`, in order.
pub fn chars_of(text: &str) -> (r: Vec<char>)
    ensures
        r@ == text@,
{
    let mut out: Vec<char> = Vec::new();
    for c in it: text.chars()
        invariant
            out@ == it.seq().take(it.index() as int),
    {
        out.push(c);
    }
    out
}

/// The ASCII digit whose value is `d`.
pub open spec fn digit_char(d: nat) -> char
    recommends
        d < 10,
{
    ('0' as u32 + d) as char
}

/// The decimal digits of `n`, most significant first, with no leading zero
/// (zero itself is the single digit `0`).
pub open spec fn decimal_digits(n: nat) -> Seq<char>
    decreases n,
{
    if n < 10 {
        seq![digit_char(n)]
    } else {
        decimal_digits(n / 10).push(digit_char(n % 10))
    }
}

/// The text that `Display` prints for `v`: a `-` for a negative value,
/// then the decimal digits of its magnitude.
pub open spec fn spec_i32_text(v: i32) -> Seq<char> {
    if v < 0 {
        seq!['-'] + decimal_digits((-(v as int)) as nat)
    } else {
        decimal_digits(v as nat)
    }
}

/// The one-character text of the digit `d`.
fn digit_str(d: u64) -> (r: &'static str)
    requires
        d < 10,
    ensures
        r@ == seq![digit_char(d as nat)],
{
    proof {
        reveal_strlit("0");
        reveal_strlit("1");
        reveal_strlit("2");
        reveal_strlit("3");
        reveal_strlit("4");
        reveal_strlit("5");
        reveal_strlit("6");
        reveal_strlit("7");
        reveal_strlit("8");
        reveal_strlit("9");
    }
    let r = if d == 0 {
        "0"
    } else if d == 1 {
        "1"
    } else if d == 2 {
        "2"
    } else if d == 3 {
        "3"
    } else if d == 4 {
        "4"
    } else if d == 5 {
        "5"
    } else if d == 6 {
        "6"
    } else if d == 7 {
        "7"
    } else if d == 8 {
        "8"
    } else {
        "9"
    };
    assert(r@ =~= seq![digit_char(d as nat)]);
    r
}

/// Appends the decimal digits of `n` to `out`.
fn push_decimal(out: &mut String, n: u64)
    ensures
        final(out)@ == old(out)@ + decimal_digits(n as nat),
    decreases n,
{
    if n >= 10 {
        push_decimal(out, n / 10);
    }
    out.append(digit_str(n % 10));
    proof {
        if n >= 10 {
            assert(old(out)@ + decimal_digits((n / 10) as nat) + seq![digit_char((n % 10) as nat)]
                =~= old(out)@ + decimal_digits(n as nat));
        } else {
            assert(old(out)@ + seq![digit_char((n % 10) as nat)] =~= old(out)@ + decimal_digits(
                n as nat,
            ));
        }
    }
}

/// The text that `Display` prints for `v`.
pub fn i32_text(v: i32) -> (r: String)
    ensures
        r@ == spec_i32_text(v),
{
    let mut out = String::new();
    if v < 0 {
        out.append("-");
        proof {
            reveal_strlit("-");
        }
        let magnitude = (0i64 - v as i64) as u64;
        push_decimal(&mut out, magnitude);
        assert(out@ =~= spec_i32_text(v));
    } else {
        push_decimal(&mut out, v as u64);
        assert(out@ =~= spec_i32_text(v));
    }
    out
}

/// The digits of `n` are ASCII digits that spell `n`.
pub proof fn lemma_decimal_digits(n: nat)
    ensures
        decimal_digits(n).len() >= 1,
        all_digits(decimal_digits(n)),
        digits_value(decimal_digits(n)) == n,
    decreases n,
{
    if n < 10 {
        let s = decimal_digits(n);
        assert(s.drop_last() =~= Seq::<char>::empty());
        assert(digits_value(s.drop_last()) == 0);
    } else {
        lemma_decimal_digits(n / 10);
        let s = decimal_digits(n);
        assert(s.drop_last() =~= decimal_digits(n / 10));
        assert(digits_value(s) == digits_value(s.drop_last()) * 10 + digit_value(s.last()));
        assert forall|i: int| 0 <= i < s.len() implies is_digit(#[trigger] s[i]) by {
            if i < s.len() - 1 {
                assert(s[i] == decimal_digits(n / 10)[i]);
            }
        }
    }
}

/// The decimal digits of a positive number do not start with `0`; zero is
/// the single digit `0`.
pub proof fn lemma_decimal_digits_leading(n: nat)
    ensures
        n == 0 ==> decimal_digits(n) == seq!['0'],
        n > 0 ==> decimal_digits(n)[0] != '0',
    decreases n,
{
    if n >= 10 {
        lemma_decimal_digits_leading(n / 10);
        lemma_decimal_digits(n / 10);
        assert(decimal_digits(n)[0] == decimal_digits(n / 10)[0]);
    } else {
        assert(decimal_digits(n) =~= seq![digit_char(n)]);
    }
}

/// The printed text of an `i32` is plain decimal: for a non-negative value,
/// its digits, with no sign and no leading zero; for a negative one, `-`
/// then the digits of its magnitude, with no leading zero.
pub proof fn lemma_i32_text_is_plain_decimal(v: i32)
    ensures
        v >= 0 ==> {
            let t = spec_i32_text(v);
            &&& t.len() >= 1
            &&& all_digits(t)
            &&& digits_value(t) == v
            &&& (t[0] == '0' ==> t.len() == 1)
        },
        v < 0 ==> {
            let t = spec_i32_text(v);
            &&& t.len() >= 2
            &&& t[0] == '-'
            &&& all_digits(t.drop_first())
            &&& digits_value(t.drop_first()) == -(v as int)
            &&& t[1] != '0'
        },
{
    if v >= 0 {
        lemma_decimal_digits(v as nat);
        lemma_decimal_digits_leading(v as nat);
    } else {
        let m = (-(v as int)) as nat;
        lemma_decimal_digits(m);
        lemma_decimal_digits_leading(m);
        let t = spec_i32_text(v);
        assert(t.drop_first() =~= decimal_digits(m));
        assert(t[1] == decimal_digits(m)[0]);
    }
}

/// A run of ASCII digits parses to the number it spells when that fits in an
/// `i32`, as does the same run after `+`; after `-`, to the negated number
/// when that fits; otherwise it is refused.
pub proof fn lemma_parse_decimal(s: Seq<char>)
    requires
        s.len() > 0,
        all_digits(s),
    ensures
        spec_parse_i32(s) == (if digits_value(s) <= i32::MAX {
            Some(digits_value(s) as i32)
        } else {
            None
        }),
        spec_parse_i32(seq!['+'] + s) == (if digits_value(s) <= i32::MAX {
            Some(digits_value(s) as i32)
        } else {
            None
        }),
        spec_parse_i32(seq!['-'] + s) == (if digits_value(s) <= 2147483648 {
            Some((-(digits_value(s) as int)) as i32)
        } else {
            None
        }),
{
    assert(is_digit(s[0]));
    assert((seq!['+'] + s).drop_first() =~= s);
    assert((seq!['-'] + s).drop_first() =~= s);
}

/// Only an optional sign followed by one or more ASCII digits is accepted.
pub proof fn lemma_parse_accepts_only_decimal(s: Seq<char>)
    ensures
        spec_parse_i32(s) is Some ==> {
            &&& forall|i: int| 1 <= i < s.len() ==> is_digit(#[trigger] s[i])
            &&& is_digit(s[0]) || ((s[0] == '+' || s[0] == '-') && s.len() >= 2)
        },
{
    if spec_parse_i32(s) is Some {
        if s[0] == '+' || s[0] == '-' {
            assert forall|i: int| 1 <= i < s.len() implies is_digit(#[trigger] s[i]) by {
                assert(s.drop_first()[i - 1] == s[i]);
            }
        } else {
            assert(is_digit(s[0]));
        }
    }
}

/// Parsing the text that is printed for an `i32` gives that `i32` back.
pub proof fn lemma_parse_prints(v: i32)
    ensures
        spec_parse_i32(spec_i32_text(v)) == Some(v),
{
    if v < 0 {
        let m = (-(v as int)) as nat;
        lemma_decimal_digits(m);
        assert(spec_i32_text(v).drop_first() =~= decimal_digits(m));
    } else {
        lemma_decimal_digits(v as nat);
        assert(is_digit(spec_i32_text(v)[0]));
    }
}

} // verus!
