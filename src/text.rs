use vstd::prelude::*;

verus! {

/// The character for a decimal digit.
pub open spec fn digit_char(d: nat) -> char {
    if d == 0 { '0' }
    else if d == 1 { '1' }
    else if d == 2 { '2' }
    else if d == 3 { '3' }
    else if d == 4 { '4' }
    else if d == 5 { '5' }
    else if d == 6 { '6' }
    else if d == 7 { '7' }
    else if d == 8 { '8' }
    else { '9' }
}

pub open spec fn is_digit(c: char) -> bool {
    '0' <= c && c <= '9'
}

/// The value of a digit character.
pub open spec fn digit_value(c: char) -> nat {
    (c as nat - '0' as nat) as nat
}

/// The canonical decimal text of a natural number: no sign, no leading zero.
pub open spec fn decimal(n: nat) -> Seq<char>
    decreases n,
{
    if n < 10 {
        seq![digit_char(n)]
    } else {
        decimal(n / 10).push(digit_char(n % 10))
    }
}

/// The decimal text of an integer, with a leading `-` when it is negative.
pub open spec fn signed_decimal(i: int) -> Seq<char> {
    if i < 0 {
        seq!['-'] + decimal((-i) as nat)
    } else {
        decimal(i as nat)
    }
}

pub open spec fn all_digits(s: Seq<char>) -> bool {
    forall|k: int| 0 <= k < s.len() ==> is_digit(#[trigger] s[k])
}

/// The value of a string of digits, most significant first.
pub open spec fn digits_value(s: Seq<char>) -> nat
    decreases s.len(),
{
    if s.len() == 0 {
        0
    } else {
        digits_value(s.drop_last()) * 10 + digit_value(s.last())
    }
}

/// A string of digits as `decimal` writes it: non-empty, and no leading zero
/// unless it is the single digit `0`.
pub open spec fn canonical_digits(s: Seq<char>) -> bool {
    &&& s.len() > 0
    &&& all_digits(s)
    &&& (s.len() == 1 || s[0] != '0')
}

/// What `parse_u64` reads from a field.
pub open spec fn parsed_u64(s: Seq<char>) -> Option<u64> {
    if canonical_digits(s) && digits_value(s) <= u64::MAX {
        Some(digits_value(s) as u64)
    } else {
        None
    }
}

/// What `parse_i32` reads from a field.
pub open spec fn parsed_i32(s: Seq<char>) -> Option<i32> {
    if s.len() > 0 && s[0] == '-' {
        let m = s.drop_first();
        if canonical_digits(m) && digits_value(m) != 0 && digits_value(m) <= 0x8000_0000 {
            Some((-digits_value(m)) as i32)
        } else {
            None
        }
    } else if canonical_digits(s) && digits_value(s) <= i32::MAX {
        Some(digits_value(s) as i32)
    } else {
        None
    }
}

proof fn lemma_digit_char(d: nat)
    requires
        d < 10,
    ensures
        is_digit(digit_char(d)),
        digit_value(digit_char(d)) == d,
        digit_char(d) == '0' <==> d == 0,
{
}

/// `decimal` writes canonical digits whose value is the number.
pub proof fn lemma_decimal(n: nat)
    ensures
        canonical_digits(decimal(n)),
        digits_value(decimal(n)) == n,
        decimal(n)[0] == '0' <==> n == 0,
    decreases n,
{
    lemma_digit_char(n % 10);
    if n < 10 {
        assert(decimal(n).drop_last() =~= Seq::<char>::empty());
        assert(digits_value(Seq::<char>::empty()) == 0);
    } else {
        lemma_decimal(n / 10);
        let s = decimal(n);
        assert(s.drop_last() =~= decimal(n / 10));
        assert(all_digits(s)) by {
            assert forall|k: int| 0 <= k < s.len() implies is_digit(#[trigger] s[k]) by {
                if k < s.len() - 1 {
                    assert(s[k] == decimal(n / 10)[k]);
                }
            }
        }
        assert(s[0] == decimal(n / 10)[0]);
        assert(s.last() == digit_char(n % 10));
        assert((n / 10) * 10 + n % 10 == n);
        assert(digits_value(s) == digits_value(decimal(n / 10)) * 10 + digit_value(s.last()));
    }
}

/// Reading back the text that `decimal` writes gives the number.
pub proof fn lemma_parse_decimal_u64(n: u64)
    ensures
        parsed_u64(decimal(n as nat)) == Some(n),
{
    lemma_decimal(n as nat);
}

/// Reading back the text that `signed_decimal` writes gives the number.
pub proof fn lemma_parse_decimal_i32(i: i32)
    ensures
        parsed_i32(signed_decimal(i as int)) == Some(i),
{
    if i < 0 {
        let m = (-(i as int)) as nat;
        lemma_decimal(m);
        let s = signed_decimal(i as int);
        assert(s.drop_first() =~= decimal(m));
        assert(s[0] == '-');
    } else {
        lemma_decimal(i as nat);
        let s = decimal(i as nat);
        assert(is_digit(s[0]));
    }
}

fn digit_str(d: u64) -> (r: &'static str)
    requires
        d < 10,
    ensures
        r@ == seq![digit_char(d as nat)],
{
    proof {
        reveal_strlit("0");
        reveal_strlit("1");
        reveal_strlit("2");
        reveal_strlit("3");
        reveal_strlit("4");
        reveal_strlit("5");
        reveal_strlit("6");
        reveal_strlit("7");
        reveal_strlit("8");
        reveal_strlit("9");
    }
    match d {
        0 => "0",
        1 => "1",
        2 => "2",
        3 => "3",
        4 => "4",
        5 => "5",
        6 => "6",
        7 => "7",
        8 => "8",
        _ => "9",
    }
}

/// Appends the decimal text of `n`.
pub fn push_u64(out: &mut String, n: u64)
    ensures
        final(out)@ == old(out)@ + decimal(n as nat),
    decreases n,
{
    if n >= 10 {
        push_u64(out, n / 10);
    }
    out.append(digit_str(n % 10));
    proof {
        if n >= 10 {
            assert(decimal(n as nat) == decimal((n / 10) as nat).push(digit_char((n % 10) as nat)));
        }
    }
    assert(final(out)@ =~= old(out)@ + decimal(n as nat));
}

/// Appends the decimal text of `i`, with a `-` when it is negative.
pub fn push_i32(out: &mut String, i: i32)
    ensures
        final(out)@ == old(out)@ + signed_decimal(i as int),
{
    if i < 0 {
        proof {
            reveal_strlit("-");
        }
        out.append("-");
        let m: u64 = (0i64 - i as i64) as u64;
        push_u64(out, m);
        assert(final(out)@ =~= old(out)@ + signed_decimal(i as int));
    } else {
        push_u64(out, i as u64);
    }
}

/// A prefix never has a larger value than the whole.
proof fn lemma_prefix_value_le(s: Seq<char>, k: int)
    requires
        0 <= k <= s.len(),
    ensures
        digits_value(s.subrange(0, k)) <= digits_value(s),
    decreases s.len() - k,
{
    if k < s.len() {
        lemma_prefix_value_le(s, k + 1);
        let p = s.subrange(0, k + 1);
        assert(p.drop_last() =~= s.subrange(0, k));
        assert(digits_value(p) == digits_value(s.subrange(0, k)) * 10 + digit_value(p.last()));
    } else {
        assert(s.subrange(0, k) =~= s);
    }
}

/// Reads a natural number written as `decimal` writes it from `s[from..to]`.
pub fn parse_u64(s: &Vec<char>, from: usize, to: usize) -> (r: Option<u64>)
    requires
        from <= to <= s.len(),
    ensures
        r == parsed_u64(s@.subrange(from as int, to as int)),
{
    let ghost t = s@.subrange(from as int, to as int);
    if from == to {
        return None;
    }
    if to - from > 1 && s[from] == '0' {
        assert(t[0] == '0');
        return None;
    }
    let mut acc: u64 = 0;
    let mut i: usize = from;
    assert(s@.subrange(from as int, from as int) =~= Seq::<char>::empty());
    while i < to
        invariant
            from <= i <= to <= s.len(),
            t == s@.subrange(from as int, to as int),
            t.len() == 1 || t[0] != '0',
            all_digits(s@.subrange(from as int, i as int)),
            acc as nat == digits_value(s@.subrange(from as int, i as int)),
        decreases to - i,
    {
        let c = s[i];
        let ghost p = s@.subrange(from as int, i + 1);
        assert(t[i - from] == c);
        if !('0' <= c && c <= '9') {
            assert(!all_digits(t));
            return None;
        }
        assert(p.drop_last() =~= s@.subrange(from as int, i as int));
        assert(p =~= t.subrange(0, i + 1 - from));
        let d: u64 = (c as u32 - '0' as u32) as u64;
        assert(digits_value(p) == acc * 10 + d);
        proof {
            lemma_prefix_value_le(t, i + 1 - from);
        }
        let m = match acc.checked_mul(10) {
            Some(m) => m,
            None => {
                return None;
            },
        };
        acc = match m.checked_add(d) {
            Some(v) => v,
            None => {
                return None;
            },
        };
        i = i + 1;
        assert(all_digits(s@.subrange(from as int, i as int))) by {
            assert forall|k: int| 0 <= k < p.len() implies is_digit(#[trigger] p[k]) by {
                if k < p.len() - 1 {
                    assert(p[k] == s@.subrange(from as int, i - 1)[k]);
                }
            }
        }
    }
    assert(s@.subrange(from as int, i as int) =~= t);
    Some(acc)
}

/// Reads an integer written as `signed_decimal` writes it from `s[from..to]`.
pub fn parse_i32(s: &Vec<char>, from: usize, to: usize) -> (r: Option<i32>)
    requires
        from <= to <= s.len(),
    ensures
        r == parsed_i32(s@.subrange(from as int, to as int)),
{
    let ghost t = s@.subrange(from as int, to as int);
    if from < to && s[from] == '-' {
        assert(t[0] == '-');
        assert(s@.subrange(from + 1, to as int) =~= t.drop_first());
        match parse_u64(s, from + 1, to) {
            None => None,
            Some(v) => {
                if v == 0 || v > 0x8000_0000 {
                    None
                } else {
                    Some((0i64 - v as i64) as i32)
                }
            },
        }
    } else {
        assert(from < to ==> t[0] == s@[from as int]);
        match parse_u64(s, from, to) {
            None => None,
            Some(v) => {
                if v > 0x7fff_ffff {
                    None
                } else {
                    Some(v as i32)
                }
            },
        }
    }
}

} // verus!
