//! Text helpers: whitespace, trimming and decimal numbers.

use vstd::prelude::*;

verus! {

/// `char::is_whitespace`: the characters with the Unicode `White_Space` property.
pub open spec fn is_whitespace(c: char) -> bool {
    let u = c as u32;
    ||| 0x09 <= u <= 0x0d
    ||| u == 0x20
    ||| u == 0x85
    ||| u == 0xa0
    ||| u == 0x1680
    ||| 0x2000 <= u <= 0x200a
    ||| u == 0x2028
    ||| u == 0x2029
    ||| u == 0x202f
    ||| u == 0x205f
    ||| u == 0x3000
}

/// `s` without its leading whitespace (`str::trim_start`).
pub open spec fn trim_start(s: Seq<char>) -> Seq<char>
    decreases s.len(),
{
    if s.len() > 0 && is_whitespace(s[0]) {
        trim_start(s.drop_first())
    } else {
        s
    }
}

/// `s` without its trailing whitespace (`str::trim_end`).
pub open spec fn trim_end(s: Seq<char>) -> Seq<char>
    decreases s.len(),
{
    if s.len() > 0 && is_whitespace(s.last()) {
        trim_end(s.drop_last())
    } else {
        s
    }
}

/// `s` without leading and trailing whitespace (`str::trim`).
pub open spec fn trim(s: Seq<char>) -> Seq<char> {
    trim_end(trim_start(s))
}

/// `s` without the copies of `c` it starts with (`str::trim_start_matches` with a char).
pub open spec fn strip_leading(s: Seq<char>, c: char) -> Seq<char>
    decreases s.len(),
{
    if s.len() > 0 && s[0] == c {
        strip_leading(s.drop_first(), c)
    } else {
        s
    }
}

/// The character of a decimal digit.
pub open spec fn digit_char(d: nat) -> char {
    ((d + 48) as u8) as char
}

/// The decimal digits of `n`, without leading zeros (`format!("{}", n)`).
pub open spec fn decimal(n: nat) -> Seq<char>
    decreases n,
{
    if n < 10 {
        seq![digit_char(n)]
    } else {
        decimal(n / 10).push(digit_char(n % 10))
    }
}

/// The decimal digits of `n`, with a leading zero below ten (`format!("{:02}", n)`).
pub open spec fn two_digits(n: nat) -> Seq<char> {
    if n < 10 {
        seq!['0', digit_char(n)]
    } else {
        decimal(n)
    }
}

/// Tells whether a character is whitespace.
pub fn char_is_whitespace(c: char) -> (ws: bool)
    ensures
        ws == is_whitespace(c),
{
    let u = c as u32;
    (0x09 <= u && u <= 0x0d) || u == 0x20 || u == 0x85 || u == 0xa0 || u == 0x1680 || (0x2000
        <= u && u <= 0x200a) || u == 0x2028 || u == 0x2029 || u == 0x202f || u == 0x205f || u
        == 0x3000
}

proof fn lemma_trim_start_skip(s: Seq<char>, i: int)
    requires
        0 <= i <= s.len(),
        forall|j: int| 0 <= j < i ==> is_whitespace(#[trigger] s[j]),
    ensures
        trim_start(s) == trim_start(s.skip(i)),
    decreases i,
{
    if i > 0 {
        assert(s.drop_first().skip(i - 1) =~= s.skip(i));
        assert forall|j: int| 0 <= j < i - 1 implies is_whitespace(#[trigger] s.drop_first()[j]) by {
            assert(s.drop_first()[j] == s[j + 1]);
        }
        lemma_trim_start_skip(s.drop_first(), i - 1);
    } else {
        assert(s.skip(0) =~= s);
    }
}

proof fn lemma_strip_leading_skip(s: Seq<char>, c: char, i: int)
    requires
        0 <= i <= s.len(),
        forall|j: int| 0 <= j < i ==> #[trigger] s[j] == c,
    ensures
        strip_leading(s, c) == strip_leading(s.skip(i), c),
    decreases i,
{
    if i > 0 {
        assert(s.drop_first().skip(i - 1) =~= s.skip(i));
        assert forall|j: int| 0 <= j < i - 1 implies #[trigger] s.drop_first()[j] == c by {
            assert(s.drop_first()[j] == s[j + 1]);
        }
        lemma_strip_leading_skip(s.drop_first(), c, i - 1);
    } else {
        assert(s.skip(0) =~= s);
    }
}

proof fn lemma_trim_end_take(s: Seq<char>, k: int)
    requires
        0 <= k <= s.len(),
        forall|j: int| k <= j < s.len() ==> is_whitespace(#[trigger] s[j]),
    ensures
        trim_end(s) == trim_end(s.take(k)),
    decreases s.len() - k,
{
    if k < s.len() {
        assert(s.drop_last().take(k) =~= s.take(k));
        assert forall|j: int| k <= j < s.drop_last().len() implies is_whitespace(
            #[trigger] s.drop_last()[j],
        ) by {
            assert(s.drop_last()[j] == s[j]);
        }
        lemma_trim_end_take(s.drop_last(), k);
    } else {
        assert(s.take(k) =~= s);
    }
}

/// `str::trim`: the text without leading and trailing whitespace.
pub fn trim_whitespace(s: &str) -> (t: &str)
    ensures
        t@ == trim(s@),
{
    let n = s.unicode_len();
    let mut start: usize = 0;
    while start < n && char_is_whitespace(s.get_char(start))
        invariant
            n == s@.len(),
            start <= n,
            forall|j: int| 0 <= j < start ==> is_whitespace(#[trigger] s@[j]),
        decreases n - start,
    {
        start = start + 1;
    }
    proof {
        lemma_trim_start_skip(s@, start as int);
    }
    let ghost rest = s@.skip(start as int);
    assert(trim_start(s@) == rest) by {
        if rest.len() > 0 {
            assert(rest[0] == s@[start as int]);
        }
    }
    let mut end: usize = n;
    while end > start && char_is_whitespace(s.get_char(end - 1))
        invariant
            n == s@.len(),
            start <= end <= n,
            rest == s@.skip(start as int),
            forall|j: int| end - start <= j < rest.len() ==> is_whitespace(#[trigger] rest[j]),
        decreases end,
    {
        assert(rest[end - 1 - start] == s@[end - 1]);
        end = end - 1;
    }
    proof {
        lemma_trim_end_take(rest, end - start);
        let kept = rest.take(end - start);
        if kept.len() > 0 {
            assert(kept.last() == s@[end - 1]);
        }
        assert(kept =~= s@.subrange(start as int, end as int));
    }
    s.substring_char(start, end)
}

/// `str::trim_start_matches` with one character: the text without the copies of
/// `c` it starts with.
pub fn strip_leading_char(s: &str, c: char) -> (t: &str)
    ensures
        t@ == strip_leading(s@, c),
{
    let n = s.unicode_len();
    let mut start: usize = 0;
    while start < n && s.get_char(start) == c
        invariant
            n == s@.len(),
            start <= n,
            forall|j: int| 0 <= j < start ==> #[trigger] s@[j] == c,
        decreases n - start,
    {
        start = start + 1;
    }
    proof {
        lemma_strip_leading_skip(s@, c, start as int);
        let rest = s@.skip(start as int);
        if rest.len() > 0 {
            assert(rest[0] == s@[start as int]);
        }
        assert(rest =~= s@.subrange(start as int, n as int));
    }
    s.substring_char(start, n)
}

/// Appends the decimal digits of `n`.
pub fn push_decimal(n: u64, out: &mut Vec<char>)
    ensures
        final(out)@ == old(out)@ + decimal(n as nat),
    decreases n,
{
    if n >= 10 {
        push_decimal(n / 10, out);
    }
    let d = (n % 10) as u8;
    out.push((d + 48) as char);
    assert(final(out)@ =~= old(out)@ + decimal(n as nat));
}

/// Appends the decimal digits of `n`, with a leading zero below ten.
pub fn push_two_digits(n: u64, out: &mut Vec<char>)
    ensures
        final(out)@ == old(out)@ + two_digits(n as nat),
{
    if n < 10 {
        out.push('0');
    }
    push_decimal(n, out);
    assert(final(out)@ =~= old(out)@ + two_digits(n as nat));
}

/// The text of a sequence of characters.
#[verifier::external_body]
pub fn string_from_chars(chars: &Vec<char>) -> (s: String)
    ensures
        s@ == chars@,
{
    chars.iter().collect()
}

} // verus!
