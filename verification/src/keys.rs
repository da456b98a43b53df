//! Configuration keys such as `msg_type_3` or `strategy_1`: a textual prefix
//! followed by a decimal id.
use vstd::prelude::*;

verus! {

/// `s` with every leading repetition of the non-empty pattern `p` removed, as
/// `str::trim_start_matches` does with a string pattern.
pub open spec fn strip_repeated_prefix(s: Seq<char>, p: Seq<char>) -> Seq<char>
    decreases s.len(),
{
    if p.len() > 0 && p.len() <= s.len() && s.subrange(0, p.len() as int) == p {
        strip_repeated_prefix(s.subrange(p.len() as int, s.len() as int), p)
    } else {
        s
    }
}

/// An ASCII decimal digit.
pub open spec fn is_digit(c: char) -> bool {
    ('0' as int) <= (c as int) <= ('9' as int)
}

/// The value of a digit.
pub open spec fn digit_value(c: char) -> int {
    (c as int) - ('0' as int)
}

/// The value of a sequence of decimal digits, most significant first.
pub open spec fn digits_value(s: Seq<char>) -> int
    decreases s.len(),
{
    if s.len() == 0 {
        0
    } else {
        digits_value(s.drop_last()) * 10 + digit_value(s.last())
    }
}

/// What `u64::from_str` returns, as its documentation states it: an optional `+`
/// followed by one or more decimal digits whose value fits in a `u64`.
pub open spec fn spec_parse_u64(s: Seq<char>) -> Option<u64> {
    spec_parse_digits(unsigned_digits(s))
}

/// `s` without a leading `+`.
pub open spec fn unsigned_digits(s: Seq<char>) -> Seq<char> {
    if s.len() > 0 && s[0] == '+' {
        s.drop_first()
    } else {
        s
    }
}

/// One or more decimal digits whose value fits in a `u64`.
pub open spec fn spec_parse_digits(d: Seq<char>) -> Option<u64> {
    if d.len() > 0 && (forall|i: int| 0 <= i < d.len() ==> is_digit(#[trigger] d[i]))
        && digits_value(d) <= u64::MAX {
        Some(digits_value(d) as u64)
    } else {
        None
    }
}

/// The id of a key: the decimal number left after stripping every leading `prefix`.
pub open spec fn spec_key_id(key: Seq<char>, prefix: Seq<char>) -> Option<u64> {
    spec_parse_u64(strip_repeated_prefix(key, prefix))
}

proof fn lemma_digits_value_nonneg(s: Seq<char>)
    requires
        forall|i: int| 0 <= i < s.len() ==> is_digit(#[trigger] s[i]),
    ensures
        digits_value(s) >= 0,
    decreases s.len(),
{
    if s.len() > 0 {
        let t = s.drop_last();
        assert forall|i: int| 0 <= i < t.len() implies is_digit(#[trigger] t[i]) by {
            assert(t[i] == s[i]);
        }
        lemma_digits_value_nonneg(t);
        assert(is_digit(s[s.len() - 1]));
    }
}

/// Adding digits never lowers the value of a digit string.
proof fn lemma_digits_value_prefix_mono(s: Seq<char>, i: int, j: int)
    requires
        0 <= i <= j <= s.len(),
        forall|k: int| 0 <= k < s.len() ==> is_digit(#[trigger] s[k]),
    ensures
        digits_value(s.take(i)) <= digits_value(s.take(j)),
    decreases j - i,
{
    if i < j {
        lemma_digits_value_prefix_mono(s, i, j - 1);
        let t = s.take(j);
        assert(t.drop_last() =~= s.take(j - 1));
        assert(is_digit(s[j - 1]));
        let u = s.take(j - 1);
        assert forall|k: int| 0 <= k < u.len() implies is_digit(#[trigger] u[k]) by {
            assert(u[k] == s[k]);
        }
        lemma_digits_value_nonneg(u);
    }
}

/// The characters of a string.
fn chars_of(s: &str) -> (res: Vec<char>)
    ensures
        res@ == s@,
{
    let mut res: Vec<char> = Vec::new();
    for c in it: s.chars()
        invariant
            it.seq() == s@,
            res@ == s@.take(it.index() as int),
    {
        res.push(c);
        assert(res@ =~= s@.take(it.index() as int + 1));
    }
    assert(res@ =~= s@);
    res
}

/// Whether `p` occurs in `s` at position `start`.
fn occurs_at(s: &Vec<char>, start: usize, p: &Vec<char>) -> (res: bool)
    requires
        start + p.len() <= s.len(),
    ensures
        res == (s@.subrange(start as int, start + p.len()) == p@),
{
    let mut i: usize = 0;
    while i < p.len()
        invariant
            i <= p.len(),
            start + p.len() <= s.len(),
            forall|k: int| 0 <= k < i ==> s@[start + k] == p@[k],
        decreases p.len() - i,
    {
        if s[start + i] != p[i] {
            assert(s@.subrange(start as int, start + p.len())[i as int] != p@[i as int]);
            return false;
        }
        i = i + 1;
    }
    assert(s@.subrange(start as int, start + p.len()) =~= p@);
    true
}

/// Where the rest of `s` begins once every leading repetition of `p` is removed.
fn skip_repeated_prefix(s: &Vec<char>, p: &Vec<char>) -> (start: usize)
    ensures
        start <= s.len(),
        s@.subrange(start as int, s.len() as int) == strip_repeated_prefix(s@, p@),
{
    let mut start: usize = 0;
    assert(s@.subrange(0, s.len() as int) =~= s@);
    loop
        invariant
            start <= s.len(),
            strip_repeated_prefix(s@.subrange(start as int, s.len() as int), p@)
                == strip_repeated_prefix(s@, p@),
        decreases s.len() - start,
    {
        let ghost rest = s@.subrange(start as int, s.len() as int);
        if p.len() > 0 && p.len() <= s.len() - start && occurs_at(s, start, p) {
            assert(rest.subrange(0, p.len() as int) =~= s@.subrange(start as int, start + p.len()));
            assert(rest.subrange(p.len() as int, rest.len() as int)
                =~= s@.subrange(start + p.len(), s.len() as int));
            start = start + p.len();
        } else {
            assert(p.len() > 0 && p.len() <= rest.len() ==> rest.subrange(0, p.len() as int)
                =~= s@.subrange(start as int, start + p.len()));
            return start;
        }
    }
}

/// Parses the characters of `s` from `start` on as `u64::from_str` does.
fn parse_u64_from(s: &Vec<char>, start: usize) -> (res: Option<u64>)
    requires
        start <= s.len(),
    ensures
        res == spec_parse_u64(s@.subrange(start as int, s.len() as int)),
{
    let ghost t = s@.subrange(start as int, s.len() as int);
    let mut first = start;
    if first < s.len() && s[first] == '+' {
        first = first + 1;
    }
    let ghost d = s@.subrange(first as int, s.len() as int);
    assert(d =~= unsigned_digits(t));
    if first == s.len() {
        return None;
    }
    let mut value: u64 = 0;
    let mut i: usize = first;
    while i < s.len()
        invariant
            first <= i <= s.len(),
            first < s.len(),
            d == s@.subrange(first as int, s.len() as int),
            t == s@.subrange(start as int, s.len() as int),
            d == unsigned_digits(t),
            forall|k: int| first <= k < i ==> is_digit(#[trigger] s@[k]),
            value == digits_value(d.take(i - first)),
        decreases s.len() - i,
    {
        let c = s[i];
        if !('0' <= c && c <= '9') {
            assert(d[i - first] == c);
            assert(!is_digit(c));
            assert(!(forall|k: int| 0 <= k < d.len() ==> is_digit(#[trigger] d[k])));
            return None;
        }
        assert(is_digit(c));
        let digit = (c as u32 - '0' as u32) as u64;
        assert(digit == digit_value(c));
        assert(d.take(i - first + 1).drop_last() =~= d.take(i - first));
        assert(d.take(i - first + 1).last() == c);
        let scaled = value.checked_mul(10);
        match scaled {
            None => {
                proof {
                    lemma_after_overflow(s, first as int, i as int, d);
                }
                return None;
            },
            Some(v10) => {
                let next = v10.checked_add(digit);
                match next {
                    None => {
                        proof {
                            lemma_after_overflow(s, first as int, i as int, d);
                        }
                        return None;
                    },
                    Some(n) => {
                        value = n;
                    },
                }
            },
        }
        i = i + 1;
    }
    assert(d.take(d.len() as int) =~= d);
    Some(value)
}

/// Once the digits read so far exceed `u64::MAX`, the whole string does not parse.
proof fn lemma_after_overflow(s: &Vec<char>, first: int, i: int, d: Seq<char>)
    requires
        0 <= first <= i < s.len(),
        d == s@.subrange(first, s.len() as int),
        forall|k: int| first <= k < i ==> is_digit(#[trigger] s@[k]),
        is_digit(s@[i]),
        digits_value(d.take(i - first + 1)) > u64::MAX,
    ensures
        !(forall|k: int| 0 <= k < d.len() ==> is_digit(#[trigger] d[k]))
            || digits_value(d) > u64::MAX,
{
    if forall|k: int| 0 <= k < d.len() ==> is_digit(#[trigger] d[k]) {
        lemma_digits_value_prefix_mono(d, i - first + 1, d.len() as int);
        assert(d.take(d.len() as int) =~= d);
    }
}

/// The id in a key such as `msg_type_3`: the decimal number that remains after
/// every leading `prefix` is stripped, or `None` where that is no `u64`.
pub fn key_id(key: &str, prefix: &str) -> (res: Option<u64>)
    ensures
        res == spec_key_id(key@, prefix@),
{
    let k = chars_of(key);
    let p = chars_of(prefix);
    let start = skip_repeated_prefix(&k, &p);
    parse_u64_from(&k, start)
}

} // verus!
