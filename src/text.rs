//! Character-level helpers shared by the target parsers: whitespace removal,
//! splitting on a separator, and decimal numbers.
use vstd::prelude::*;

verus! {

/// Unicode `White_Space` property, which is what `char::is_whitespace` tests.
pub open spec fn is_white_space(c: char) -> bool {
    let u = c as u32;
    (0x09 <= u && u <= 0x0d) || u == 0x20 || u == 0x85 || u == 0xa0 || u == 0x1680
        || (0x2000 <= u && u <= 0x200a) || u == 0x2028 || u == 0x2029 || u == 0x202f
        || u == 0x205f || u == 0x3000
}

/// The characters of `s` that are not whitespace, in order.
pub open spec fn strip_white_space(s: Seq<char>) -> Seq<char>
    decreases s.len(),
{
    if s.len() == 0 {
        s
    } else if is_white_space(s.last()) {
        strip_white_space(s.drop_last())
    } else {
        strip_white_space(s.drop_last()).push(s.last())
    }
}

/// The pieces of `s` between occurrences of `sep`; an empty `s` is one empty piece.
pub open spec fn split_on(s: Seq<char>, sep: char) -> Seq<Seq<char>>
    decreases s.len(),
{
    if s.len() == 0 {
        seq![Seq::empty()]
    } else {
        let pieces = split_on(s.drop_last(), sep);
        if s.last() == sep {
            pieces.push(Seq::empty())
        } else {
            pieces.update(pieces.len() - 1, pieces.last().push(s.last()))
        }
    }
}

pub open spec fn is_digit(c: char) -> bool {
    '0' <= c && c <= '9'
}

pub open spec fn digit_value(c: char) -> int {
    c as int - '0' as int
}

pub open spec fn all_digits(s: Seq<char>) -> bool {
    forall|i: int| 0 <= i < s.len() ==> is_digit(#[trigger] s[i])
}

/// The number that a string of decimal digits denotes.
pub open spec fn digits_value(s: Seq<char>) -> int
    decreases s.len(),
{
    if s.len() == 0 {
        0
    } else {
        digits_value(s.drop_last()) * 10 + digit_value(s.last())
    }
}

/// What `str::parse::<u16>` accepts: an optional `+`, then one or more decimal
/// digits whose value fits in 16 bits.
pub open spec fn decimal_u16(s: Seq<char>) -> Option<u16> {
    let body = if s.len() > 0 && s[0] == '+' {
        s.skip(1)
    } else {
        s
    };
    if body.len() > 0 && all_digits(body) && digits_value(body) <= u16::MAX {
        Some(digits_value(body) as u16)
    } else {
        None
    }
}

pub proof fn lemma_split_nonempty(s: Seq<char>, sep: char)
    ensures
        split_on(s, sep).len() >= 1,
    decreases s.len(),
{
    if s.len() > 0 {
        lemma_split_nonempty(s.drop_last(), sep);
    }
}

proof fn lemma_digits_value_nonneg(s: Seq<char>)
    requires
        all_digits(s),
    ensures
        digits_value(s) >= 0,
    decreases s.len(),
{
    if s.len() > 0 {
        assert(is_digit(s[s.len() - 1]));
        lemma_digits_value_nonneg(s.drop_last());
    }
}

pub fn is_white_space_char(c: char) -> (r: bool)
    ensures
        r == is_white_space(c),
{
    let u = c as u32;
    (0x09 <= u && u <= 0x0d) || u == 0x20 || u == 0x85 || u == 0xa0 || u == 0x1680
        || (0x2000 <= u && u <= 0x200a) || u == 0x2028 || u == 0x2029 || u == 0x202f
        || u == 0x205f || u == 0x3000
}

/// The characters of `s` with all whitespace removed.
pub fn strip_white_space_chars(s: &str) -> (r: Vec<char>)
    ensures
        r@ == strip_white_space(s@),
{
    let mut r: Vec<char> = Vec::new();
    let n = s.unicode_len();
    let mut i: usize = 0;
    while i < n
        invariant
            i <= n,
            n == s@.len(),
            r@ == strip_white_space(s@.take(i as int)),
        decreases n - i,
    {
        let c = s.get_char(i);
        assert(s@.take(i + 1).drop_last() =~= s@.take(i as int));
        if !is_white_space_char(c) {
            r.push(c);
        }
        i = i + 1;
    }
    assert(s@.take(n as int) =~= s@);
    r
}

/// Reads `s[from..to]` as `str::parse::<u16>` does.
pub fn parse_decimal_u16(s: &Vec<char>, from: usize, to: usize) -> (r: Option<u16>)
    requires
        from <= to <= s.len(),
    ensures
        r == decimal_u16(s@.subrange(from as int, to as int)),
{
    let ghost t = s@.subrange(from as int, to as int);
    let mut start = from;
    if from < to && s[from] == '+' {
        start = from + 1;
    }
    let ghost body = s@.subrange(start as int, to as int);
    assert(body =~= (if t.len() > 0 && t[0] == '+' { t.skip(1) } else { t }));
    if start == to {
        return None;
    }
    let mut value: u32 = 0;
    let mut over = false;
    let mut i = start;
    while i < to
        invariant
            start <= i <= to <= s.len(),
            body == s@.subrange(start as int, to as int),
            t == s@.subrange(from as int, to as int),
            body == (if t.len() > 0 && t[0] == '+' { t.skip(1) } else { t }),
            all_digits(s@.subrange(start as int, i as int)),
            !over ==> value == digits_value(s@.subrange(start as int, i as int)),
            over ==> digits_value(s@.subrange(start as int, i as int)) > u16::MAX,
            value <= u16::MAX,
        decreases to - i,
    {
        let c = s[i];
        if !('0' <= c && c <= '9') {
            assert(body[i - start] == c);
            assert(!is_digit(body[i - start]));
            assert(!all_digits(body));
            assert(decimal_u16(t) is None);
            return None;
        }
        let ghost prev = s@.subrange(start as int, i as int);
        let ghost next = s@.subrange(start as int, i + 1);
        assert(next.drop_last() =~= prev);
        assert(next.last() == c);
        proof {
            lemma_digits_value_nonneg(prev);
        }
        if !over {
            let v = value * 10 + (c as u32 - '0' as u32);
            if v > 65535 {
                over = true;
            } else {
                value = v;
            }
        }
        i = i + 1;
    }
    assert(s@.subrange(start as int, to as int) =~= body);
    if over {
        None
    } else {
        Some(value as u16)
    }
}

/// The non-empty pieces of `s` between commas, once whitespace is removed.
pub open spec fn comma_tokens(s: Seq<char>) -> Seq<Seq<char>> {
    split_on(strip_white_space(s), ',').filter(|t: Seq<char>| t.len() > 0)
}

/// Relies on `String`'s `FromIterator<char>`: the string holds the characters in order.
#[verifier::external_body]
pub(crate) fn string_of_chars(v: &Vec<char>) -> (r: String)
    ensures
        r@ == v@,
{
    v.iter().collect()
}

/// The non-empty comma-separated tokens of `s`, whitespace removed.
pub fn comma_tokens_of(s: &str) -> (r: Vec<String>)
    ensures
        r@.map_values(|t: String| t@) == comma_tokens(s@),
{
    broadcast use vstd::seq_lib::group_filter_ensures;
    let chars = strip_white_space_chars(s);
    let mut r: Vec<String> = Vec::new();
    let mut cur: Vec<char> = Vec::new();
    let mut i: usize = 0;
    let ghost pred = |t: Seq<char>| t.len() > 0;
    while i < chars.len()
        invariant
            i <= chars.len(),
            split_on(chars@.take(i as int), ',').len() >= 1,
            split_on(chars@.take(i as int), ',').last() == cur@,
            r@.map_values(|t: String| t@) == split_on(chars@.take(i as int), ',').drop_last().filter(pred),
            pred == (|t: Seq<char>| t.len() > 0),
        decreases chars.len() - i,
    {
        let ghost sp = split_on(chars@.take(i as int), ',');
        let ghost next = chars@.take(i + 1);
        assert(next.drop_last() =~= chars@.take(i as int));
        assert(next.last() == chars[i as int]);
        if chars[i] == ',' {
            assert(split_on(next, ',') == sp.push(Seq::empty()));
            assert(sp.push(Seq::empty()).drop_last() =~= sp);
            assert(sp =~= sp.drop_last().push(sp.last()));
            proof {
                sp.drop_last().lemma_filter_push(sp.last(), pred);
            }
            if cur.len() > 0 {
                let t = string_of_chars(&cur);
                r.push(t);
                assert(r@.map_values(|t: String| t@) =~= sp.filter(pred));
            } else {
                assert(r@.map_values(|t: String| t@) =~= sp.filter(pred));
            }
            cur = Vec::new();
        } else {
            let ghost sp2 = sp.update(sp.len() - 1, sp.last().push(chars[i as int]));
            assert(split_on(next, ',') == sp2);
            assert(sp2.drop_last() =~= sp.drop_last());
            cur.push(chars[i]);
        }
        i = i + 1;
    }
    assert(chars@.take(chars.len() as int) =~= chars@);
    let ghost sp = split_on(chars@, ',');
    assert(sp =~= sp.drop_last().push(sp.last()));
    proof {
        sp.drop_last().lemma_filter_push(sp.last(), pred);
    }
    if cur.len() > 0 {
        let t = string_of_chars(&cur);
        r.push(t);
    }
    assert(r@.map_values(|t: String| t@) =~= sp.filter(pred));
    r
}

} // verus!
