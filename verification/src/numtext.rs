//! Decimal text for the integer values that appear in identifiers and
//! serialized events: exact specifications of the digit strings, executable
//! formatting and parsing, and the round-trip lemmas connecting them.

use vstd::prelude::*;
use vstd::string::StringExecFns;

verus! {

/// The character for one decimal digit value.
pub open spec fn digit_char(d: int) -> char {
    if d == 0 {
        '0'
    } else if d == 1 {
        '1'
    } else if d == 2 {
        '2'
    } else if d == 3 {
        '3'
    } else if d == 4 {
        '4'
    } else if d == 5 {
        '5'
    } else if d == 6 {
        '6'
    } else if d == 7 {
        '7'
    } else if d == 8 {
        '8'
    } else {
        '9'
    }
}

/// Whether a character is a decimal digit.
pub open spec fn is_digit(c: char) -> bool {
    48 <= c as int && c as int <= 57
}

/// The value of one decimal digit character.
pub open spec fn digit_val(c: char) -> int {
    c as int - 48
}

/// Decimal text of a non-negative integer, most significant digit first,
/// with no leading zeros (except for the number zero itself).
pub open spec fn nat_text(n: int) -> Seq<char>
    decreases n,
{
    if n < 10 {
        seq![digit_char(n)]
    } else {
        nat_text(n / 10).push(digit_char(n % 10))
    }
}

/// Decimal text of a signed integer: a leading minus sign for negative values.
pub open spec fn int_text(v: int) -> Seq<char> {
    if v >= 0 {
        nat_text(v)
    } else {
        seq!['-'] + nat_text(-v)
    }
}

/// Whether every character of the text is a decimal digit.
pub open spec fn all_digits(s: Seq<char>) -> bool {
    forall|i: int| 0 <= i < s.len() ==> is_digit(#[trigger] s[i])
}

/// The value of a digit string, most significant digit first.
pub open spec fn digits_val(s: Seq<char>) -> int
    decreases s.len(),
{
    if s.len() == 0 {
        0
    } else {
        digits_val(s.drop_last()) * 10 + digit_val(s.last())
    }
}

/// The integer denoted by a piece of text: one or more digits, optionally
/// preceded by a single sign character. Anything else denotes no integer.
pub open spec fn int_text_val(s: Seq<char>) -> Option<int> {
    if s.len() > 0 && all_digits(s) {
        Some(digits_val(s))
    } else if s.len() > 1 && (s[0] == '-' || s[0] == '+') && all_digits(s.skip(1)) {
        if s[0] == '-' {
            Some(-digits_val(s.skip(1)))
        } else {
            Some(digits_val(s.skip(1)))
        }
    } else {
        None
    }
}

/// The `i64` denoted by a piece of text, if any: a well-formed integer text
/// whose value fits the type.
pub open spec fn i64_text_val(s: Seq<char>) -> Option<int> {
    match int_text_val(s) {
        Some(v) => if i64::MIN <= v <= i64::MAX {
            Some(v)
        } else {
            None
        },
        None => None,
    }
}

/// A digit string has a non-negative value.
pub proof fn lemma_digits_val_nonneg(s: Seq<char>)
    requires
        all_digits(s),
    ensures
        digits_val(s) >= 0,
    decreases s.len(),
{
    if s.len() > 0 {
        assert(all_digits(s.drop_last())) by {
            assert(forall|i: int|
                0 <= i < s.drop_last().len() ==> s.drop_last()[i] == #[trigger] s[i]);
        }
        lemma_digits_val_nonneg(s.drop_last());
    }
}

/// The decimal text of a non-negative integer consists of digits and reads
/// back as the same value.
pub proof fn lemma_nat_text_val(n: int)
    requires
        n >= 0,
    ensures
        nat_text(n).len() >= 1,
        all_digits(nat_text(n)),
        digits_val(nat_text(n)) == n,
    decreases n,
{
    if n < 10 {
        assert(digits_val(nat_text(n)) == digits_val(seq![digit_char(n)]));
        assert(digits_val(seq![digit_char(n)].drop_last()) == 0) by {
            assert(seq![digit_char(n)].drop_last() =~= Seq::<char>::empty());
        }
    } else {
        lemma_nat_text_val(n / 10);
        let t = nat_text(n / 10).push(digit_char(n % 10));
        assert(t.drop_last() =~= nat_text(n / 10));
        assert(t.last() == digit_char(n % 10));
        assert(is_digit(digit_char(n % 10)));
        assert(forall|i: int| 0 <= i < t.len() ==> is_digit(#[trigger] t[i])) by {
            assert(forall|i: int|
                0 <= i < t.len() - 1 ==> t[i] == #[trigger] nat_text(n / 10)[i]);
        }
        assert(digits_val(t) == (n / 10) * 10 + (n % 10));
        assert((n / 10) * 10 + (n % 10) == n) by (nonlinear_arith);
    }
}

/// Appends one decimal digit character to a string.
fn push_digit(s: &mut String, d: u64)
    requires
        d < 10,
    ensures
        final(s)@ == old(s)@.push(digit_char(d as int)),
{
    proof {
        reveal_strlit("0");
        reveal_strlit("1");
        reveal_strlit("2");
        reveal_strlit("3");
        reveal_strlit("4");
        reveal_strlit("5");
        reveal_strlit("6");
        reveal_strlit("7");
        reveal_strlit("8");
        reveal_strlit("9");
    }
    match d {
        0 => s.append("0"),
        1 => s.append("1"),
        2 => s.append("2"),
        3 => s.append("3"),
        4 => s.append("4"),
        5 => s.append("5"),
        6 => s.append("6"),
        7 => s.append("7"),
        8 => s.append("8"),
        _ => s.append("9"),
    }
    proof {
        assert(s@ =~= old(s)@.push(digit_char(d as int)));
    }
}

/// Renders a `u64` as decimal text.
pub fn format_u64(n: u64) -> (r: String)
    ensures
        r@ == nat_text(n as int),
{
    let mut digits: Vec<u64> = Vec::new();
    let mut m = n;
    loop
        invariant_except_break
            m <= n,
            nat_text(n as int) == if digits@.len() == 0 {
                nat_text(m as int)
            } else {
                nat_text(m as int) + digit_seq(digits@)
            },
        invariant
            forall|k: int| 0 <= k < digits@.len() ==> #[trigger] digits@[k] < 10,
        ensures
            digits@.len() >= 1,
            nat_text(n as int) == digit_seq(digits@),
        decreases m,
    {
        let d = m % 10;
        proof {
            lemma_digit_seq_insert0(digits@, d);
            if m >= 10 {
                assert(nat_text(m as int) == nat_text((m / 10) as int).push(digit_char(d as int)));
                assert(nat_text((m / 10) as int) + digit_seq(digits@.insert(0, d)) =~= nat_text(
                    m as int,
                ) + digit_seq(digits@));
            } else {
                assert(nat_text(m as int) == seq![digit_char(d as int)]);
                assert(digit_seq(digits@.insert(0, d)) =~= nat_text(m as int) + digit_seq(digits@));
            }
        }
        digits.insert(0, d);
        m = m / 10;
        if m == 0 {
            break;
        }
    }
    let mut out = String::new();
    let mut i: usize = 0;
    while i < digits.len()
        invariant
            i <= digits@.len(),
            forall|k: int| 0 <= k < digits@.len() ==> #[trigger] digits@[k] < 10,
            out@ == digit_seq(digits@.take(i as int)),
            nat_text(n as int) == digit_seq(digits@),
        decreases digits@.len() - i,
    {
        proof {
            assert(digits@.take(i + 1).drop_last() =~= digits@.take(i as int));
            assert(digit_seq(digits@.take(i + 1)) == digit_seq(digits@.take(i as int)).push(
                digit_char(digits@[i as int] as int),
            ));
        }
        push_digit(&mut out, digits[i]);
        i += 1;
    }
    proof {
        assert(digits@.take(digits@.len() as int) =~= digits@);
    }
    out
}

/// The characters for a sequence of digit values, in the given order.
pub open spec fn digit_seq(ds: Seq<u64>) -> Seq<char>
    decreases ds.len(),
{
    if ds.len() == 0 {
        Seq::empty()
    } else {
        digit_seq(ds.drop_last()).push(digit_char(ds.last() as int))
    }
}

/// Renders an `i64` as decimal text.
pub fn format_i64(v: i64) -> (r: String)
    ensures
        r@ == int_text(v as int),
{
    if v >= 0 {
        format_u64(v as u64)
    } else {
        let mag: u64 = if v == i64::MIN {
            9223372036854775808u64
        } else {
            (-v) as u64
        };
        let mut out = String::from_str("-");
        proof {
            reveal_strlit("-");
        }
        let digits = format_u64(mag);
        out.append(digits.as_str());
        proof {
            assert(out@ =~= seq!['-'] + nat_text(-(v as int)));
        }
        out
    }
}

/// Every prefix of a digit string has a value no larger than the whole.
proof fn lemma_digits_val_prefix(s: Seq<char>, j: int)
    requires
        all_digits(s),
        0 <= j <= s.len(),
    ensures
        digits_val(s.take(j)) <= digits_val(s),
    decreases s.len() - j,
{
    if j == s.len() {
        assert(s.take(j) =~= s);
    } else {
        assert(all_digits(s.drop_last())) by {
            assert(forall|i: int|
                0 <= i < s.drop_last().len() ==> s.drop_last()[i] == #[trigger] s[i]);
        }
        assert(s.take(j) =~= s.drop_last().take(j));
        lemma_digits_val_prefix(s.drop_last(), j);
        lemma_digits_val_nonneg(s.drop_last());
        assert(is_digit(s.last()));
        assert(digits_val(s) == digits_val(s.drop_last()) * 10 + digit_val(s.last()));
        assert(digits_val(s.drop_last()) * 10 >= digits_val(s.drop_last())) by (nonlinear_arith)
            requires
                digits_val(s.drop_last()) >= 0,
        ;
    }
}

/// Reads an `i64` from decimal text: one or more digits, optionally preceded
/// by one sign character. Returns nothing on any other text, or when the
/// value does not fit the type.
pub fn parse_i64(s: &str) -> (r: Option<i64>)
    ensures
        match r {
            Some(v) => i64_text_val(s@) == Some(v as int),
            None => i64_text_val(s@) is None,
        },
{
    let len = s.unicode_len();
    if len == 0 {
        return None;
    }
    let first = s.get_char(0);
    let neg = first as u32 == 45;
    let plus = first as u32 == 43;
    let start: usize = if neg || plus {
        1
    } else {
        0
    };
    proof {
        assert(neg <==> s@[0] == '-');
        assert(plus <==> s@[0] == '+');
    }
    if start == len {
        proof {
            assert(!(s@.len() > 1));
            assert(start == 1 ==> !is_digit(s@[0]));
        }
        return None;
    }
    let ghost digits_part = s@.subrange(start as int, len as int);
    let mut i = start;
    let mut mag: u64 = 0;
    while i < len
        invariant
            start <= i <= len,
            start <= 1,
            len == s@.len(),
            start == 1 ==> (s@[0] == '-' || s@[0] == '+'),
            start == 0 ==> !(s@[0] == '-' || s@[0] == '+'),
            digits_part == s@.subrange(start as int, len as int),
            all_digits(s@.subrange(start as int, i as int)),
            mag == digits_val(s@.subrange(start as int, i as int)),
            mag <= 9223372036854775808,
        decreases len - i,
    {
        let ghost prefix = s@.subrange(start as int, i as int);
        let c = s.get_char(i);
        let cu = c as u32;
        if cu < 48 || cu > 57 {
            proof {
                assert(!is_digit(s@[i as int]));
                assert(!all_digits(s@));
                if start == 1 {
                    assert(!all_digits(s@.skip(1))) by {
                        assert(s@.skip(1)[i - 1] == s@[i as int]);
                    }
                }
            }
            return None;
        }
        let d: u64 = (cu - 48) as u64;
        proof {
            assert(is_digit(s@[i as int]));
            assert(d == digit_val(s@[i as int]));
        }
        let wide: u128 = mag as u128 * 10 + d as u128;
        proof {
            assert(s@.subrange(start as int, i + 1).drop_last() =~= prefix);
            assert(s@.subrange(start as int, i + 1).last() == s@[i as int]);
            assert(digits_val(s@.subrange(start as int, i + 1)) == mag * 10 + d);
        }
        if wide > 9223372036854775808u128 {
            proof {
                let whole = digits_val(digits_part);
                if all_digits(digits_part) {
                    assert(digits_part.take(i + 1 - start) =~= s@.subrange(start as int, i + 1));
                    lemma_digits_val_prefix(digits_part, i + 1 - start);
                    assert(whole > 9223372036854775808);
                    if start == 0 {
                        assert(digits_part =~= s@);
                    } else {
                        assert(digits_part =~= s@.skip(1));
                        assert(!is_digit(s@[0]));
                        assert(!all_digits(s@));
                    }
                } else {
                    let k = choose|k: int|
                        0 <= k < digits_part.len() && !is_digit(#[trigger] digits_part[k]);
                    assert(s@[k + start] == digits_part[k]);
                    assert(!all_digits(s@));
                    if start == 1 {
                        assert(!all_digits(s@.skip(1))) by {
                            assert(s@.skip(1)[k] == digits_part[k]);
                        }
                    }
                }
            }
            return None;
        }
        mag = wide as u64;
        i += 1;
    }
    proof {
        assert(s@.subrange(start as int, i as int) == digits_part);
        if start == 0 {
            assert(digits_part =~= s@);
        } else {
            assert(digits_part =~= s@.skip(1));
            assert(!is_digit(s@[0]));
            assert(!all_digits(s@));
        }
    }
    if neg {
        if mag == 9223372036854775808u64 {
            Some(i64::MIN)
        } else {
            Some(-(mag as i64))
        }
    } else {
        if mag <= 9223372036854775807u64 {
            Some(mag as i64)
        } else {
            None
        }
    }
}

/// Decimal text of an `i64` value reads back as exactly that value.
pub proof fn lemma_int_text_roundtrip(v: int)
    requires
        i64::MIN <= v <= i64::MAX,
    ensures
        i64_text_val(int_text(v)) == Some(v),
{
    if v >= 0 {
        lemma_nat_text_val(v);
    } else {
        lemma_nat_text_val(-v);
        let s = seq!['-'] + nat_text(-v);
        assert(s[0] == '-');
        assert(!is_digit('-'));
        assert(s.skip(1) =~= nat_text(-v));
        assert(int_text_val(s) == Some(-digits_val(nat_text(-v))));
    }
}

/// Decimal text contains no colon: its characters are digits or a sign.
pub proof fn lemma_int_text_no_colon(v: int)
    ensures
        forall|i: int| 0 <= i < int_text(v).len() ==> #[trigger] int_text(v)[i] != ':',
{
    if v >= 0 {
        lemma_nat_text_chars(v);
    } else {
        lemma_nat_text_chars(-v);
        assert(forall|i: int|
            1 <= i < int_text(v).len() ==> #[trigger] int_text(v)[i] == nat_text(-v)[i - 1]);
    }
}

/// Every character of the decimal text of a non-negative integer is a digit.
proof fn lemma_nat_text_chars(n: int)
    ensures
        forall|i: int| 0 <= i < nat_text(n).len() ==> is_digit(#[trigger] nat_text(n)[i]),
    decreases n,
{
    if n < 10 {
        assert(is_digit(digit_char(n)));
        assert(forall|i: int|
            0 <= i < nat_text(n).len() ==> #[trigger] nat_text(n)[i] == digit_char(n));
    } else {
        lemma_nat_text_chars(n / 10);
        let t = nat_text(n / 10).push(digit_char(n % 10));
        assert(forall|i: int| 0 <= i < t.len() - 1 ==> #[trigger] t[i] == nat_text(n / 10)[i]);
        assert(is_digit(digit_char(n % 10)));
        assert(t.last() == digit_char(n % 10));
    }
}

proof fn lemma_digit_seq_insert0(ds: Seq<u64>, d: u64)
    ensures
        digit_seq(ds.insert(0, d)) =~= seq![digit_char(d as int)] + digit_seq(ds),
    decreases ds.len(),
{
    if ds.len() == 0 {
        let e = ds.insert(0, d);
        assert(e =~= seq![d]);
        assert(e.drop_last() =~= Seq::<u64>::empty());
        assert(digit_seq(Seq::<u64>::empty()) == Seq::<char>::empty());
        assert(digit_seq(e) == digit_seq(e.drop_last()).push(digit_char(e.last() as int)));
        assert(digit_seq(e) =~= seq![digit_char(d as int)] + digit_seq(ds));
    } else {
        let e = ds.insert(0, d);
        assert(e.drop_last() =~= ds.drop_last().insert(0, d));
        assert(e.last() == ds.last());
        lemma_digit_seq_insert0(ds.drop_last(), d);
        assert(digit_seq(e) == digit_seq(ds.drop_last().insert(0, d)).push(
            digit_char(ds.last() as int),
        ));
        assert(digit_seq(e) =~= seq![digit_char(d as int)] + digit_seq(ds));
    }
}

} // verus!
