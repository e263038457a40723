//! Text building blocks: decimal rendering of counters, the integer grammar
//! that record counts are read with, and the control-character escaping used
//! for spreadsheet cells.

use vstd::prelude::*;

verus! {

/// Appends one character to a string.
#[verifier::external_body]
pub(crate) fn push_char(s: &mut String, c: char)
    ensures
        final(s)@ == old(s)@.push(c),
{
    s.push(c);
}

/// The character of a decimal digit `d` (`d < 10`).
pub open spec fn digit_char(d: nat) -> char {
    if d == 0 {
        '0'
    } else if d == 1 {
        '1'
    } else if d == 2 {
        '2'
    } else if d == 3 {
        '3'
    } else if d == 4 {
        '4'
    } else if d == 5 {
        '5'
    } else if d == 6 {
        '6'
    } else if d == 7 {
        '7'
    } else if d == 8 {
        '8'
    } else {
        '9'
    }
}

/// The decimal rendering of a natural number, without sign or leading zeros.
pub open spec fn decimal(n: nat) -> Seq<char>
    decreases n,
{
    if n < 10 {
        seq![digit_char(n)]
    } else {
        decimal(n / 10).push(digit_char(n % 10))
    }
}

fn digit_of(d: u64) -> (c: char)
    requires
        d < 10,
    ensures
        c == digit_char(d as nat),
{
    if d == 0 {
        '0'
    } else if d == 1 {
        '1'
    } else if d == 2 {
        '2'
    } else if d == 3 {
        '3'
    } else if d == 4 {
        '4'
    } else if d == 5 {
        '5'
    } else if d == 6 {
        '6'
    } else if d == 7 {
        '7'
    } else if d == 8 {
        '8'
    } else {
        '9'
    }
}

/// Renders `n` in decimal, as `Display` does for unsigned integers.
pub fn decimal_text(n: u64) -> (s: String)
    ensures
        s@ == decimal(n as nat),
    decreases n,
{
    if n < 10 {
        let mut s = String::new();
        push_char(&mut s, digit_of(n));
        s
    } else {
        let mut s = decimal_text(n / 10);
        push_char(&mut s, digit_of(n % 10));
        s
    }
}

/// Whether `c` is one of the ASCII digits `0` to `9`.
pub open spec fn is_digit(c: char) -> bool {
    '0' <= c && c <= '9'
}

/// The value of the ASCII digit `c`.
pub open spec fn digit_value(c: char) -> int {
    (c as int) - ('0' as int)
}

/// Whether every character of `s` is an ASCII digit.
pub open spec fn all_digits(s: Seq<char>) -> bool {
    forall|i: int| 0 <= i < s.len() ==> #[trigger] is_digit(s[i])
}

/// The value of a string of decimal digits, most significant first.
pub open spec fn digits_value(s: Seq<char>) -> int
    decreases s.len(),
{
    if s.len() == 0 {
        0
    } else {
        digits_value(s.drop_last()) * 10 + digit_value(s.last())
    }
}

/// The `i32` that `str::parse::<i32>` reads from `s`, or `None` where it
/// fails: an optional `+` or `-`, then one or more ASCII digits, whose value
/// must fit in an `i32`.
pub open spec fn parse_i32(s: Seq<char>) -> Option<i32> {
    let signed = s.len() > 0 && (s[0] == '+' || s[0] == '-');
    let negative = s.len() > 0 && s[0] == '-';
    let digits = if signed {
        s.skip(1)
    } else {
        s
    };
    if digits.len() == 0 || !all_digits(digits) {
        None
    } else {
        let v = if negative {
            -digits_value(digits)
        } else {
            digits_value(digits)
        };
        if i32::MIN <= v <= i32::MAX {
            Some(v as i32)
        } else {
            None
        }
    }
}

proof fn lemma_digits_value_nonneg(s: Seq<char>)
    requires
        all_digits(s),
    ensures
        digits_value(s) >= 0,
    decreases s.len(),
{
    if s.len() > 0 {
        assert(is_digit(s[s.len() - 1]));
        assert(all_digits(s.drop_last())) by {
            assert forall|i: int| 0 <= i < s.drop_last().len() implies #[trigger] is_digit(
                s.drop_last()[i],
            ) by {
                assert(is_digit(s[i]));
            }
        }
        lemma_digits_value_nonneg(s.drop_last());
    }
}

/// Reads an `i32` from `s` by the grammar of `str::parse::<i32>`.
pub fn parse_i32_text(s: &str) -> (r: Option<i32>)
    ensures
        r == parse_i32(s@),
{
    let ghost whole = s@;
    let mut negative = false;
    let mut start: usize = 0;
    let mut acc: u64 = 0;
    let mut overflow = false;
    let mut bad = false;
    let mut first = true;
    let mut seen_digit = false;
    for c in it: s.chars()
        invariant
            it.seq() == whole,
            first <==> it.index() == 0,
            first ==> !bad && !overflow && acc == 0 && start == 0 && !negative,
            seen_digit <==> start < it.index(),
            start <= it.index(),
            start <= 1,
            start == 1 ==> whole.len() > 0 && (whole[0] == '+' || whole[0] == '-'),
            start == 0 && it.index() > 0 ==> !(whole[0] == '+' || whole[0] == '-'),
            negative <==> (start == 1 && whole[0] == '-'),
            !bad ==> all_digits(whole.subrange(start as int, it.index() as int)),
            bad ==> !all_digits(whole.skip(start as int)),
            !bad && !overflow ==> acc == digits_value(
                whole.subrange(start as int, it.index() as int),
            ) && acc <= 2147483648,
            !bad && overflow ==> digits_value(whole.subrange(start as int, it.index() as int))
                > 2147483648,
    {
        let ghost i = it.index();
        let ghost prev = whole.subrange(start as int, i as int);
        if first && (c == '+' || c == '-') {
            start = 1;
            negative = c == '-';
            seen_digit = false;
            assert(whole.subrange(1, 1) =~= Seq::<char>::empty());
        } else {
            seen_digit = true;
        }
        if !(first && (c == '+' || c == '-')) && !bad {
            assert(whole[i as int] == c);
            assert(whole.subrange(start as int, i + 1).drop_last() =~= prev);
            if '0' <= c && c <= '9' {
                let d = (c as u64) - ('0' as u64);
                assert(all_digits(whole.subrange(start as int, i + 1))) by {
                    assert forall|j: int|
                        0 <= j < whole.subrange(start as int, i + 1).len() implies #[trigger] is_digit(
                        whole.subrange(start as int, i + 1)[j],
                    ) by {
                        if j < prev.len() {
                            assert(whole.subrange(start as int, i + 1)[j] == prev[j]);
                        }
                    }
                }
                if !overflow {
                    acc = acc * 10 + d;
                    if acc > 2147483648 {
                        overflow = true;
                    }
                } else {
                    proof {
                        lemma_digits_value_nonneg(prev);
                    }
                }
            } else {
                bad = true;
                assert(whole.skip(start as int)[i - start] == c);
                assert(!is_digit(whole.skip(start as int)[i - start]));
            }
        }
        first = false;
    }
    let ghost digits = whole.skip(start as int);
    proof {
        if start == 0 {
            assert(whole.skip(0) =~= whole);
        }
    }
    assert(whole.subrange(start as int, whole.len() as int) =~= digits);
    if bad {
        return None;
    }
    if !seen_digit {
        assert(digits.len() == 0);
        return None;
    }
    assert(digits.len() > 0);
    if overflow {
        return None;
    }
    if negative {
        if acc <= 2147483648 {
            Some((0 - (acc as i64)) as i32)
        } else {
            None
        }
    } else {
        if acc <= 2147483647 {
            Some(acc as i32)
        } else {
            None
        }
    }
}

/// The decimal rendering of an integer, with a leading `-` when negative.
pub open spec fn int_text(n: int) -> Seq<char> {
    if n < 0 {
        seq!['-'] + decimal((-n) as nat)
    } else {
        decimal(n as nat)
    }
}

/// Renders an `i32` as `Display` does.
pub fn i32_text(n: i32) -> (s: String)
    ensures
        s@ == int_text(n as int),
{
    if n < 0 {
        let m: i64 = 0 - (n as i64);
        let digits = decimal_text(m as u64);
        let mut s = String::new();
        push_char(&mut s, '-');
        s.append(digits.as_str());
        s
    } else {
        decimal_text(n as u64)
    }
}

proof fn lemma_digit_char(d: nat)
    requires
        d < 10,
    ensures
        is_digit(digit_char(d)),
        digit_value(digit_char(d)) == d,
{
}

proof fn lemma_decimal_digits(n: nat)
    ensures
        decimal(n).len() > 0,
        all_digits(decimal(n)),
        digits_value(decimal(n)) == n,
    decreases n,
{
    if n < 10 {
        lemma_digit_char(n);
        assert(decimal(n).drop_last() =~= Seq::<char>::empty());
        assert(digits_value(decimal(n)) == digits_value(Seq::<char>::empty()) * 10 + digit_value(
            digit_char(n),
        ));
    } else {
        lemma_decimal_digits(n / 10);
        lemma_digit_char(n % 10);
        let s = decimal(n);
        assert(s.drop_last() =~= decimal(n / 10));
        assert(s.last() == digit_char(n % 10));
        assert(digits_value(s) == digits_value(decimal(n / 10)) * 10 + digit_value(s.last()));
        assert(n == (n / 10) * 10 + n % 10);
        assert forall|i: int| 0 <= i < s.len() implies #[trigger] is_digit(s[i]) by {
            if i < s.len() - 1 {
                assert(s[i] == decimal(n / 10)[i]);
            }
        }
    }
}

/// An integer rendered in decimal, as queries carry offsets and as the API
/// reports counts, reads back as the same integer.
pub proof fn lemma_count_text_round_trip(n: i32)
    ensures
        parse_i32(int_text(n as int)) == Some(n),
{
    if n < 0 {
        let m = (-n) as nat;
        lemma_decimal_digits(m);
        let s = int_text(n as int);
        assert(s.skip(1) =~= decimal(m));
        assert(s[0] == '-');
    } else {
        lemma_decimal_digits(n as nat);
        let s = decimal(n as nat);
        assert(is_digit(s[0]));
    }
}

/// The escaped form of one character in a spreadsheet cell: line feed,
/// carriage return and tab become the two-character sequences `\n`, `\r`
/// and `\t`; every other character stands for itself.
pub open spec fn escaped_char(c: char) -> Seq<char> {
    if c == '\n' {
        seq!['\\', 'n']
    } else if c == '\r' {
        seq!['\\', 'r']
    } else if c == '\t' {
        seq!['\\', 't']
    } else {
        seq![c]
    }
}

/// `s` with every character replaced by its escaped form.
pub open spec fn escape_controls(s: Seq<char>) -> Seq<char>
    decreases s.len(),
{
    if s.len() == 0 {
        seq![]
    } else {
        escape_controls(s.drop_last()) + escaped_char(s.last())
    }
}

/// Replaces line feeds, carriage returns and tabs by their backslash
/// sequences.
pub fn escape_controls_text(s: &str) -> (r: String)
    ensures
        r@ == escape_controls(s@),
{
    let ghost whole = s@;
    let mut out = String::new();
    for c in it: s.chars()
        invariant
            it.seq() == whole,
            out@ == escape_controls(whole.take(it.index() as int)),
    {
        let ghost i = it.index();
        assert(whole.take(i + 1).drop_last() =~= whole.take(i as int));
        assert(whole.take(i + 1).last() == c);
        if c == '\n' {
            push_char(&mut out, '\\');
            push_char(&mut out, 'n');
        } else if c == '\r' {
            push_char(&mut out, '\\');
            push_char(&mut out, 'r');
        } else if c == '\t' {
            push_char(&mut out, '\\');
            push_char(&mut out, 't');
        } else {
            push_char(&mut out, c);
        }
        assert(out@ =~= escape_controls(whole.take(i + 1)));
    }
    assert(whole.take(whole.len() as int) =~= whole);
    out
}

/// Escaping goes character by character: the escaped text of `a + b` is
/// the escaped text of `a` followed by that of `b`.
pub proof fn lemma_escape_controls_concat(a: Seq<char>, b: Seq<char>)
    ensures
        escape_controls(a + b) == escape_controls(a) + escape_controls(b),
    decreases b.len(),
{
    if b.len() == 0 {
        assert(a + b =~= a);
        assert(escape_controls(b) =~= Seq::<char>::empty());
        assert(escape_controls(a) + escape_controls(b) =~= escape_controls(a));
    } else {
        lemma_escape_controls_concat(a, b.drop_last());
        assert((a + b).drop_last() =~= a + b.drop_last());
        assert((a + b).last() == b.last());
        assert(escape_controls(a + b) =~= escape_controls(a) + escape_controls(b));
    }
}

/// One character escaped: a line feed becomes `\` `n`, a carriage return
/// `\` `r`, a tab `\` `t`; any other character stands for itself.
pub proof fn lemma_escape_controls_char(c: char)
    ensures
        c == '\n' ==> escape_controls(seq![c]) == seq!['\\', 'n'],
        c == '\r' ==> escape_controls(seq![c]) == seq!['\\', 'r'],
        c == '\t' ==> escape_controls(seq![c]) == seq!['\\', 't'],
        c != '\n' && c != '\r' && c != '\t' ==> escape_controls(seq![c]) == seq![c],
{
    assert(seq![c].drop_last() =~= Seq::<char>::empty());
    assert(escape_controls(Seq::<char>::empty()) =~= Seq::<char>::empty());
    assert(escape_controls(seq![c]) =~= escape_controls(seq![c].drop_last()) + escaped_char(c));
    assert(escape_controls(seq![c]) =~= escaped_char(c));
}

/// No escaped text holds a raw line feed, carriage return or tab, and
/// escaping never shortens a text.
pub proof fn lemma_escape_controls_no_raw(s: Seq<char>)
    ensures
        forall|i: int|
            0 <= i < escape_controls(s).len() ==> #[trigger] escape_controls(s)[i] != '\n'
                && escape_controls(s)[i] != '\r' && escape_controls(s)[i] != '\t',
        escape_controls(s).len() >= s.len(),
    decreases s.len(),
{
    if s.len() > 0 {
        lemma_escape_controls_no_raw(s.drop_last());
        let p = escape_controls(s.drop_last());
        let e = escaped_char(s.last());
        assert(escape_controls(s) == p + e);
        assert forall|i: int| 0 <= i < escape_controls(s).len() implies #[trigger] escape_controls(
            s,
        )[i] != '\n' && escape_controls(s)[i] != '\r' && escape_controls(s)[i] != '\t' by {
            if i < p.len() {
                assert(escape_controls(s)[i] == p[i]);
            } else {
                assert(escape_controls(s)[i] == e[i - p.len()]);
            }
        }
    }
}

} // verus!
