use vstd::prelude::*;

verus! {

pub open spec fn is_digit(c: char) -> bool {
    '0' <= c && c <= '9'
}

pub open spec fn digit_value(c: char) -> nat {
    (c as int - '0' as int) as nat
}

/// The number written by a string of decimal digits (most significant first).
pub open spec fn digits_value(d: Seq<char>) -> nat
    decreases d.len(),
{
    if d.len() == 0 {
        0
    } else {
        digits_value(d.drop_last()) * 10 + digit_value(d.last())
    }
}

pub open spec fn all_digits(d: Seq<char>) -> bool {
    forall|i: int| 0 <= i < d.len() ==> is_digit(#[trigger] d[i])
}

/// The digits of an unsigned decimal number: the text after an optional leading `+`.
pub open spec fn unsigned_digits(s: Seq<char>) -> Seq<char> {
    if s.len() > 0 && s[0] == '+' {
        s.drop_first()
    } else {
        s
    }
}

/// What `str::parse` gives for an unsigned integer type whose largest value is `max`:
/// the text must be an optional `+` followed by one or more ASCII digits, and the
/// number they write must not exceed `max`.
pub open spec fn parse_unsigned(s: Seq<char>, max: nat) -> Option<nat> {
    let d = unsigned_digits(s);
    if d.len() > 0 && all_digits(d) && digits_value(d) <= max {
        Some(digits_value(d))
    } else {
        None
    }
}

proof fn lemma_digits_value_grows(d: Seq<char>, j: int)
    requires
        0 <= j <= d.len(),
    ensures
        digits_value(d.take(j)) <= digits_value(d),
    decreases d.len() - j,
{
    if j < d.len() {
        lemma_digits_value_grows(d, j + 1);
        assert(d.take(j + 1).drop_last() =~= d.take(j));
    } else {
        assert(d.take(j) =~= d);
    }
}

/// The characters of a string, one per entry.
pub fn chars_of(s: &str) -> (chars: Vec<char>)
    ensures
        chars@ == s@,
{
    let n: usize = s.unicode_len();
    let mut chars: Vec<char> = Vec::new();
    let mut i: usize = 0;
    while i < n
        invariant
            n == s@.len(),
            0 <= i <= n,
            chars@ == s@.take(i as int),
        decreases n - i,
    {
        chars.push(s.get_char(i));
        i = i + 1;
        assert(chars@ =~= s@.take(i as int));
    }
    assert(s@.take(n as int) =~= s@);
    chars
}

/// Reads `chars[start..end]` as an unsigned decimal number no larger than `max`,
/// following the rules of `str::parse`.
pub fn parse_unsigned_range(chars: &Vec<char>, start: usize, end: usize, max: u64) -> (r: Option<u64>)
    requires
        start <= end <= chars.len(),
    ensures
        match parse_unsigned(chars@.subrange(start as int, end as int), max as nat) {
            Some(v) => r == Some(v as u64),
            None => r is None,
        },
{
    let ghost s = chars@.subrange(start as int, end as int);
    let mut first: usize = start;
    if start < end && chars[start] == '+' {
        first = start + 1;
    }
    let ghost d = chars@.subrange(first as int, end as int);
    assert(d =~= unsigned_digits(s));
    if first == end {
        return None;
    }
    // every character must be a digit
    let mut k: usize = first;
    while k < end
        invariant
            start <= first <= k <= end <= chars.len(),
            d == chars@.subrange(first as int, end as int),
            d == unsigned_digits(chars@.subrange(start as int, end as int)),
            d.len() > 0,
            forall|i: int| 0 <= i < k - first ==> is_digit(#[trigger] d[i]),
        decreases end - k,
    {
        let c = chars[k];
        if !('0' <= c && c <= '9') {
            assert(!is_digit(d[k - first]));
            return None;
        }
        k = k + 1;
    }
    assert(all_digits(d));
    let mut value: u64 = 0;
    let mut k: usize = first;
    while k < end
        invariant
            start <= first <= k <= end <= chars.len(),
            d == chars@.subrange(first as int, end as int),
            d == unsigned_digits(chars@.subrange(start as int, end as int)),
            d.len() > 0,
            all_digits(d),
            value == digits_value(d.take(k - first)),
            value <= max,
        decreases end - k,
    {
        let c = chars[k];
        assert(d[k - first] == c);
        assert(is_digit(c));
        assert(48 <= c as int <= 57);
        let code: u32 = c as u32;
        assert(code == c as int);
        let dig: u64 = (code - 48) as u64;
        assert(d.take(k - first + 1).drop_last() =~= d.take(k - first));
        assert(d.take(k - first + 1).last() == c);
        if dig > max || value > (max - dig) / 10 {
            proof {
                lemma_digits_value_grows(d, k - first + 1);
            }
            return None;
        }
        value = value * 10 + dig;
        k = k + 1;
    }
    assert(d.take(end - first) =~= d);
    Some(value)
}

} // verus!
