//! Text as sequences of characters: comparing, cutting and joining it, and
//! decimal numbers in both directions.
use vstd::prelude::*;
use vstd::string::{StrSliceExecFns, StringExecFns};

verus! {

/// The texts that a list of strings holds.
pub open spec fn strings(v: Seq<String>) -> Seq<Seq<char>> {
    Seq::new(v.len(), |i: int| v[i]@)
}

/// The text that an optional string holds.
pub open spec fn opt_text(s: Option<String>) -> Option<Seq<char>> {
    match s {
        Some(t) => Some(t@),
        None => None,
    }
}

/// The text that an optional string slice holds.
pub open spec fn opt_str(s: Option<&str>) -> Option<Seq<char>> {
    match s {
        Some(t) => Some(t@),
        None => None,
    }
}

/// `s` without the characters `c` at its end.
pub open spec fn trimmed_end(s: Seq<char>, c: char) -> Seq<char>
    decreases s.len(),
{
    if s.len() > 0 && s.last() == c {
        trimmed_end(s.drop_last(), c)
    } else {
        s
    }
}

/// What follows `prefix` in `s`, if `s` starts with it.
pub open spec fn stripped(s: Seq<char>, prefix: Seq<char>) -> Option<Seq<char>> {
    if prefix.is_prefix_of(s) {
        Some(s.skip(prefix.len() as int))
    } else {
        None
    }
}

/// `parts` in order, with `sep` between neighbours.
pub open spec fn joined(parts: Seq<Seq<char>>, sep: Seq<char>) -> Seq<char>
    decreases parts.len(),
{
    if parts.len() == 0 {
        Seq::empty()
    } else if parts.len() == 1 {
        parts[0]
    } else {
        joined(parts.drop_last(), sep) + sep + parts.last()
    }
}

/// The decimal digit of value `d`.
pub open spec fn digit(d: nat) -> char {
    ('0' as nat + d) as char
}

/// `n` written in decimal, without leading zeros.
pub open spec fn decimal(n: nat) -> Seq<char>
    decreases n,
{
    if n < 10 {
        seq![digit(n)]
    } else {
        decimal(n / 10).push(digit(n % 10))
    }
}

/// `n` written in decimal, with a leading `-` where it is negative.
pub open spec fn signed_decimal(n: int) -> Seq<char> {
    if n < 0 {
        seq!['-'] + decimal((-n) as nat)
    } else {
        decimal(n as nat)
    }
}

pub open spec fn is_digit(c: char) -> bool {
    '0' <= c <= '9'
}

/// The number that a row of decimal digits writes.
pub open spec fn digits_value(s: Seq<char>) -> nat
    decreases s.len(),
{
    if s.len() == 0 {
        0
    } else {
        digits_value(s.drop_last()) * 10 + (s.last() as nat - '0' as nat) as nat
    }
}

/// `s` is one or more decimal digits.
pub open spec fn is_digits(s: Seq<char>) -> bool {
    s.len() > 0 && forall|i: int| 0 <= i < s.len() ==> is_digit(#[trigger] s[i])
}

/// The unsigned number of at most `max` that `s` writes: decimal digits, with
/// or without one `+` before them.
pub open spec fn unsigned_number(s: Seq<char>, max: nat) -> Option<nat> {
    let digits = if s.len() > 0 && s[0] == '+' {
        s.skip(1)
    } else {
        s
    };
    if is_digits(digits) && digits_value(digits) <= max {
        Some(digits_value(digits))
    } else {
        None
    }
}

/// The characters of `s`, in order.
pub(crate) fn chars_of(s: &str) -> (r: Vec<char>)
    ensures
        r@ == s@,
{
    let mut r: Vec<char> = Vec::new();
    for c in it: s.chars()
        invariant
            it.seq() == s@,
            r@ == s@.take(it.index() as int),
    {
        r.push(c);
        assert(s@.take(it.index() as int).push(c) =~= s@.take(it.index() + 1));
    }
    assert(s@.take(s@.len() as int) =~= s@);
    r
}

/// Whether `a` and `b` are the same text.
pub(crate) fn same_text(a: &str, b: &str) -> (r: bool)
    ensures
        r == (a@ == b@),
{
    a.to_owned() == b.to_owned()
}

/// Whether `s` starts with `prefix`.
pub(crate) fn starts_with(s: &str, prefix: &str) -> (r: bool)
    ensures
        r == prefix@.is_prefix_of(s@),
{
    let n: usize = prefix.unicode_len();
    if s.unicode_len() < n {
        return false;
    }
    same_text(s.substring_char(0, n), prefix)
}

/// Whether `s` ends with `suffix`.
pub(crate) fn ends_with(s: &str, suffix: &str) -> (r: bool)
    ensures
        r == suffix@.is_suffix_of(s@),
{
    let n: usize = suffix.unicode_len();
    let len: usize = s.unicode_len();
    if len < n {
        return false;
    }
    same_text(s.substring_char(len - n, len), suffix)
}

/// What follows `prefix` in `s`, if `s` starts with it.
pub(crate) fn strip_prefix<'a>(s: &'a str, prefix: &str) -> (r: Option<&'a str>)
    ensures
        opt_str(r) == stripped(s@, prefix@),
{
    if starts_with(s, prefix) {
        Some(s.substring_char(prefix.unicode_len(), s.unicode_len()))
    } else {
        None
    }
}

/// `s` without the characters `c` at its end.
pub(crate) fn trim_end(s: &str, c: char) -> (r: &str)
    ensures
        r@ == trimmed_end(s@, c),
{
    let chars = chars_of(s);
    let mut n: usize = chars.len();
    assert(s@.take(n as int) =~= s@);
    while n > 0 && chars[n - 1] == c
        invariant
            n <= chars.len(),
            chars@ == s@,
            trimmed_end(s@, c) == trimmed_end(s@.take(n as int), c),
        decreases n,
    {
        assert(s@.take(n as int).drop_last() =~= s@.take(n - 1));
        n = n - 1;
    }
    s.substring_char(0, n)
}

/// `parts` in order, with `sep` between neighbours.
pub(crate) fn join(parts: &Vec<String>, sep: &str) -> (r: String)
    ensures
        r@ == joined(strings(parts@), sep@),
{
    let mut r = String::new();
    let ghost texts = strings(parts@);
    for i in 0..parts.len()
        invariant
            texts == strings(parts@),
            r@ == joined(texts.take(i as int), sep@),
    {
        assert(texts.take(i + 1).drop_last() =~= texts.take(i as int));
        if i > 0 {
            r.append(sep);
        }
        r.append(parts[i].as_str());
        if i == 0 {
            assert(r@ =~= texts[0]);
        }
    }
    assert(texts.take(parts@.len() as int) =~= texts);
    r
}

/// The decimal digit of value `d`, as text.
fn digit_text(d: u64) -> (r: &'static str)
    requires
        d < 10,
    ensures
        r@ == seq![digit(d as nat)],
{
    proof {
        reveal_strlit("0");
        reveal_strlit("1");
        reveal_strlit("2");
        reveal_strlit("3");
        reveal_strlit("4");
        reveal_strlit("5");
        reveal_strlit("6");
        reveal_strlit("7");
        reveal_strlit("8");
        reveal_strlit("9");
    }
    match d {
        0 => "0",
        1 => "1",
        2 => "2",
        3 => "3",
        4 => "4",
        5 => "5",
        6 => "6",
        7 => "7",
        8 => "8",
        _ => "9",
    }
}

/// `n` in decimal.
pub(crate) fn decimal_text(n: u64) -> (r: String)
    ensures
        r@ == decimal(n as nat),
    decreases n,
{
    if n < 10 {
        digit_text(n).to_owned()
    } else {
        let mut r = decimal_text(n / 10);
        r.append(digit_text(n % 10));
        assert(r@ =~= decimal(n as nat));
        r
    }
}

/// `n` in decimal, with a leading `-` where it is negative.
pub(crate) fn signed_decimal_text(n: i32) -> (r: String)
    ensures
        r@ == signed_decimal(n as int),
{
    if n < 0 {
        let mut r = "-".to_owned();
        let magnitude: u64 = (0i64 - n as i64) as u64;
        r.append(decimal_text(magnitude).as_str());
        proof {
            reveal_strlit("-");
        }
        assert(r@ =~= signed_decimal(n as int));
        r
    } else {
        decimal_text(n as u64)
    }
}

/// A number of digits is at least the number of any of its beginnings.
proof fn lemma_digits_value_grows(s: Seq<char>, i: int)
    requires
        0 <= i <= s.len(),
        forall|j: int| 0 <= j < s.len() ==> is_digit(#[trigger] s[j]),
    ensures
        digits_value(s.take(i)) <= digits_value(s),
    decreases s.len() - i,
{
    if i < s.len() {
        let next = s.take(i + 1);
        assert(next.drop_last() =~= s.take(i));
        assert(is_digit(s[i]));
        lemma_digits_value_grows(s, i + 1);
    } else {
        assert(s.take(i) =~= s);
    }
}

/// The unsigned number of at most `max` that `s` writes: decimal digits, with
/// or without one `+` before them.
pub(crate) fn parse_unsigned(s: &str, max: u64) -> (r: Option<u64>)
    ensures
        r is Some == unsigned_number(s@, max as nat) is Some,
        r is Some ==> r->0 as nat == unsigned_number(s@, max as nat)->0,
{
    let chars = chars_of(s);
    let start: usize = if chars.len() > 0 && chars[0] == '+' {
        1
    } else {
        0
    };
    let ghost digits = s@.skip(start as int);
    assert(start == 0 ==> digits =~= s@);
    if chars.len() == start {
        return None;
    }
    let mut value: u64 = 0;
    let mut i: usize = start;
    while i < chars.len()
        invariant
            start <= i <= chars.len(),
            chars@ == s@,
            start <= s@.len(),
            digits == s@.skip(start as int),
            value as nat == digits_value(digits.take(i - start)),
            value <= max,
            forall|j: int| 0 <= j < i - start ==> is_digit(#[trigger] digits[j]),
            unsigned_number(s@, max as nat) == if is_digits(digits) && digits_value(digits) <= max {
                Some(digits_value(digits))
            } else {
                None
            },
        decreases chars.len() - i,
    {
        let c = chars[i];
        assert(digits[i - start] == c);
        if c < '0' || c > '9' {
            assert(!is_digit(digits[i - start]));
            return None;
        }
        let d: u64 = c as u64 - '0' as u64;
        assert(digits.take(i - start + 1).drop_last() =~= digits.take(i - start));
        if value > max / 10 || d > max - value * 10 {
            proof {
                if is_digits(digits) {
                    lemma_digits_value_grows(digits, i - start + 1);
                }
            }
            return None;
        }
        value = value * 10 + d;
        i = i + 1;
    }
    assert(digits.take(i - start) =~= digits);
    Some(value)
}

/// A list of strings is read string by string: none is left out, and each is
/// read as it is.
pub proof fn law_every_string_is_read(v: Seq<String>, i: int)
    ensures
        strings(v).len() == v.len(),
        0 <= i < v.len() ==> strings(v)[i] == v[i]@,
{
}

/// Trimming cuts characters `c` off the end, and nothing else, until none is
/// left there.
pub proof fn law_trimming_stops_at_the_first_other_character(s: Seq<char>, c: char)
    ensures
        trimmed_end(s, c).is_prefix_of(s),
        trimmed_end(s, c).len() > 0 ==> trimmed_end(s, c).last() != c,
        forall|i: int| trimmed_end(s, c).len() <= i < s.len() ==> #[trigger] s[i] == c,
    decreases s.len(),
{
    if s.len() > 0 && s.last() == c {
        let rest = s.drop_last();
        law_trimming_stops_at_the_first_other_character(rest, c);
        assert forall|i: int| trimmed_end(s, c).len() <= i < s.len() implies #[trigger] s[i]
            == c by {
            if i < rest.len() {
                assert(rest[i] == s[i]);
            }
        }
    }
}

/// What was put before a text can be stripped off again, and nothing can be
/// stripped off that does not stand there.
pub proof fn law_stripping_undoes_a_prefix(prefix: Seq<char>, rest: Seq<char>, s: Seq<char>)
    ensures
        stripped(prefix + rest, prefix) == Some(rest),
        match stripped(s, prefix) {
            Some(tail) => s == prefix + tail,
            None => s.len() < prefix.len() || s.take(prefix.len() as int) != prefix,
        },
{
    assert((prefix + rest).subrange(0, prefix.len() as int) =~= prefix);
    assert((prefix + rest).skip(prefix.len() as int) =~= rest);
    if let Some(tail) = stripped(s, prefix) {
        assert(s =~= prefix + tail);
    } else if s.len() >= prefix.len() {
        assert(s.take(prefix.len() as int) =~= s.subrange(0, prefix.len() as int));
    }
}

/// Joining puts the separator between neighbours: one part stands alone, and two
/// joined lists are joined by one more separator.
pub proof fn law_joining_goes_part_by_part(
    part: Seq<char>,
    first: Seq<Seq<char>>,
    second: Seq<Seq<char>>,
    sep: Seq<char>,
)
    ensures
        joined(Seq::empty(), sep).len() == 0,
        joined(seq![part], sep) == part,
        first.len() > 0 && second.len() > 0 ==> joined(first + second, sep) == joined(first, sep)
            + sep + joined(second, sep),
    decreases second.len(),
{
    if first.len() > 0 && second.len() > 0 {
        let all = first + second;
        assert(all.drop_last() =~= first + second.drop_last());
        assert(all.last() == second.last());
        if second.len() == 1 {
            assert(all.drop_last() =~= first);
        } else {
            law_joining_goes_part_by_part(part, first, second.drop_last(), sep);
        }
        assert(joined(all, sep) =~= joined(first, sep) + sep + joined(second, sep));
    }
}

/// Digits are read in base ten, the most significant first.
pub proof fn law_digits_are_read_in_base_ten(s: Seq<char>, c: char)
    requires
        '0' <= c <= '9',
    ensures
        digits_value(Seq::empty()) == 0,
        digits_value(s.push(c)) == 10 * digits_value(s) + (c as int - '0' as int),
{
    assert(s.push(c).drop_last() =~= s);
}

/// A number is written in decimal digits that read as that number, without a
/// zero before them.
pub proof fn law_decimal_reads_as_the_number(n: nat)
    ensures
        digits_value(decimal(n)) == n,
        decimal(n).len() > 0,
        decimal(n)[0] == '0' ==> n == 0,
        n == 0 ==> decimal(n).len() == 1,
        forall|i: int| 0 <= i < decimal(n).len() ==> '0' <= #[trigger] decimal(n)[i] <= '9',
    decreases n,
{
    let last = digit(n % 10);
    assert(last as int == '0' as int + n % 10);
    if n < 10 {
        assert(decimal(n) =~= Seq::empty().push(last));
        law_digits_are_read_in_base_ten(Seq::empty(), last);
    } else {
        law_decimal_reads_as_the_number(n / 10);
        law_digits_are_read_in_base_ten(decimal(n / 10), last);
        assert(decimal(n)[0] == decimal(n / 10)[0]);
        assert forall|i: int| 0 <= i < decimal(n).len() implies '0' <= #[trigger] decimal(n)[i]
            <= '9' by {
            if i < decimal(n / 10).len() {
                assert(decimal(n)[i] == decimal(n / 10)[i]);
            }
        }
    }
}

/// A number below zero is written as its magnitude behind a minus sign, and any
/// other without a sign.
pub proof fn law_signs_are_written(n: nat)
    ensures
        signed_decimal(n as int) == decimal(n),
        n > 0 ==> signed_decimal(-(n as int)) == seq!['-'] + decimal(n),
{
}

/// Digits are read as the number that they write, with or without a plus sign,
/// if it is not too great.
pub proof fn law_digits_are_a_number(s: Seq<char>, max: nat)
    requires
        s.len() > 0,
        forall|i: int| 0 <= i < s.len() ==> '0' <= #[trigger] s[i] <= '9',
    ensures
        unsigned_number(s, max) == unsigned_number(seq!['+'] + s, max),
        unsigned_number(s, max) == if digits_value(s) <= max {
            Some(digits_value(s))
        } else {
            None
        },
{
    assert((seq!['+'] + s).skip(1) =~= s);
}

/// A text is no number if it has no digits, or anything that is not a digit; only
/// a plus sign may stand before them.
pub proof fn law_other_texts_are_no_number(s: Seq<char>, max: nat, i: int)
    requires
        s.len() == 0 || s == seq!['+'] || 0 <= i < s.len() && !('0' <= s[i] <= '9') && (i > 0
            || s[0] != '+'),
    ensures
        unsigned_number(s, max) is None,
{
    if s.len() > 0 && s[0] == '+' {
        if s != seq!['+'] {
            assert(!is_digit(s.skip(1)[i - 1]));
        }
    } else if s.len() > 0 {
        assert(!is_digit(s[i]));
    }
}

/// What is written in decimal is read back as the same number.
pub proof fn law_decimal_is_read_back(n: nat, max: nat)
    ensures
        unsigned_number(decimal(n), max) == if n <= max {
            Some(n)
        } else {
            None
        },
{
    law_decimal_reads_as_the_number(n);
    law_digits_are_a_number(decimal(n), max);
}

/// What is there is read as it is, and what is not there as nothing.
pub proof fn law_optional_text_is_read(s: Option<String>, t: Option<&str>)
    ensures
        s matches Some(text) ==> opt_text(s) == Some(text@),
        s is None ==> opt_text(s) is None,
        t matches Some(text) ==> opt_str(t) == Some(text@),
        t is None ==> opt_str(t) is None,
{
}

} // verus!
