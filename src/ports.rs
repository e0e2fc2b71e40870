//! The port grammar: comma-separated tokens, each a port or an inclusive range
//! `a-b`; whitespace is ignored, empty tokens are skipped, repetitions dropped.
use vstd::prelude::*;
use crate::text::{
    all_digits, decimal_u16, digit_value, digits_value, is_digit, is_white_space,
    lemma_split_nonempty, parse_decimal_u16, split_on, strip_white_space, strip_white_space_chars,
};
use crate::unique::{
    first_occurrences_of, lemma_unique_seq, lemma_unique_seq_of_distinct, unique_ports, unique_seq,
};

verus! {

/// The ports from `a` to `b` inclusive, ascending; empty when `a > b`.
pub open spec fn range_seq(a: u16, b: u16) -> Seq<u16> {
    Seq::new(
        if a <= b {
            (b - a + 1) as nat
        } else {
            0
        },
        |i: int| (a + i) as u16,
    )
}

/// `t[d]` is the one and only `-` of `t`.
pub open spec fn single_dash_at(t: Seq<char>, d: int) -> bool {
    &&& 0 <= d < t.len()
    &&& t[d] == '-'
    &&& forall|e: int| 0 <= e < t.len() && e != d ==> t[e] != '-'
}

/// The ports that one token contributes, or `None` when it is malformed.
pub open spec fn token_ports(t: Seq<char>) -> Option<Seq<u16>> {
    if t.len() == 0 {
        Some(Seq::empty())
    } else if !t.contains('-') {
        match decimal_u16(t) {
            Some(n) => Some(seq![n]),
            None => None,
        }
    } else if exists|d: int| single_dash_at(t, d) {
        let d = choose|d: int| single_dash_at(t, d);
        match (decimal_u16(t.take(d)), decimal_u16(t.skip(d + 1))) {
            (Some(a), Some(b)) => Some(range_seq(a, b)),
            _ => None,
        }
    } else {
        None
    }
}

/// The ports of a sequence of tokens, concatenated; `None` if any token is malformed.
pub open spec fn tokens_ports(ts: Seq<Seq<char>>) -> Option<Seq<u16>>
    decreases ts.len(),
{
    if ts.len() == 0 {
        Some(Seq::empty())
    } else {
        match (tokens_ports(ts.drop_last()), token_ports(ts.last())) {
            (Some(a), Some(b)) => Some(a + b),
            _ => None,
        }
    }
}

/// Every port that a port specification names, in order, repetitions included.
pub open spec fn port_list(s: Seq<char>) -> Option<Seq<u16>> {
    tokens_ports(split_on(strip_white_space(s), ','))
}

/// Whether every token of a port specification is well formed.
pub open spec fn ports_spec_valid(s: Seq<char>) -> bool {
    port_list(s) is Some
}

/// The ports of a valid specification, each once, in order of first mention.
pub open spec fn parsed_ports(s: Seq<char>) -> Seq<u16> {
    unique_seq(port_list(s)->0)
}

/// Appends to `out` the ports of the token `s[from..to]`; on a malformed token
/// returns `false` and leaves `out` as it was.
fn push_token_ports(s: &Vec<char>, from: usize, to: usize, out: &mut Vec<u16>) -> (ok: bool)
    requires
        from <= to <= s.len(),
    ensures
        ok == (token_ports(s@.subrange(from as int, to as int)) is Some),
        ok ==> final(out)@ == old(out)@ + token_ports(s@.subrange(from as int, to as int))->0,
        !ok ==> final(out)@ == old(out)@,
{
    let ghost t = s@.subrange(from as int, to as int);
    if from == to {
        assert(out@ + Seq::<u16>::empty() =~= out@);
        return true;
    }
    let mut dashes: usize = 0;
    let mut dash: usize = from;
    let mut i = from;
    while i < to
        invariant
            from <= i <= to <= s.len(),
            t == s@.subrange(from as int, to as int),
            dashes <= 2,
            dashes == 0 ==> forall|e: int| 0 <= e < i - from ==> t[e] != '-',
            dashes >= 1 ==> from <= dash < i && t[dash - from] == '-',
            dashes == 1 ==> forall|e: int| 0 <= e < i - from && e != dash - from ==> t[e] != '-',
            dashes == 2 ==> !(exists|d: int| single_dash_at(t, d)) && t.contains('-'),
        decreases to - i,
    {
        if s[i] == '-' && dashes < 2 {
            if dashes == 1 {
                assert(t[i - from] == '-');
                assert forall|d: int| !single_dash_at(t, d) by {
                    if single_dash_at(t, d) {
                        assert(d == dash - from || d == i - from);
                    }
                }
                assert(t[dash - from] == '-');
            } else {
                dash = i;
            }
            dashes = dashes + 1;
        }
        i = i + 1;
    }
    if dashes == 0 {
        assert(!t.contains('-'));
        match parse_decimal_u16(s, from, to) {
            Some(n) => {
                out.push(n);
                assert(out@ =~= old(out)@ + seq![n]);
                true
            },
            None => false,
        }
    } else if dashes == 1 {
        let ghost d = dash - from;
        assert(single_dash_at(t, d));
        assert(t.contains('-'));
        assert(d == choose|d: int| single_dash_at(t, d));
        assert(t.take(d) =~= s@.subrange(from as int, dash as int));
        assert(t.skip(d + 1) =~= s@.subrange(dash + 1, to as int));
        let a = parse_decimal_u16(s, from, dash);
        let b = parse_decimal_u16(s, dash + 1, to);
        match (a, b) {
            (Some(a), Some(b)) => {
                let mut p: u32 = a as u32;
                while p <= b as u32
                    invariant
                        a <= p <= b as u32 + 1 || (p == a && a > b),
                        out@ == old(out)@ + range_seq(a, b).take(p - a),
                    decreases b as u32 + 1 - p,
                {
                    out.push(p as u16);
                    assert(range_seq(a, b).take(p + 1 - a) =~= range_seq(a, b).take(p - a).push(
                        p as u16,
                    ));
                    p = p + 1;
                }
                assert(range_seq(a, b).take(p - a) =~= range_seq(a, b));
                true
            },
            _ => false,
        }
    } else {
        false
    }
}

/// The ports of a specification, or `None` when a token is malformed.
pub fn try_ports_parse(ports: &str) -> (r: Option<Vec<u16>>)
    ensures
        r is Some <==> ports_spec_valid(ports@),
        r is Some ==> r->0@ == parsed_ports(ports@),
{
    let chars = strip_white_space_chars(ports);
    let mut all: Vec<u16> = Vec::new();
    let mut failed = false;
    let mut start: usize = 0;
    let mut i: usize = 0;
    proof {
        assert(chars@.take(0) =~= Seq::<char>::empty());
    }
    while i < chars.len()
        invariant
            start <= i <= chars.len(),
            split_on(chars@.take(i as int), ',').len() >= 1,
            split_on(chars@.take(i as int), ',').last() == chars@.subrange(start as int, i as int),
            !failed ==> tokens_ports(split_on(chars@.take(i as int), ',').drop_last()) == Some(all@),
            failed ==> tokens_ports(split_on(chars@.take(i as int), ',').drop_last()) is None,
        decreases chars.len() - i,
    {
        let ghost sp = split_on(chars@.take(i as int), ',');
        let ghost next = chars@.take(i + 1);
        assert(next.drop_last() =~= chars@.take(i as int));
        assert(next.last() == chars[i as int]);
        if chars[i] == ',' {
            assert(split_on(next, ',') == sp.push(Seq::empty()));
            assert(sp.push(Seq::empty()).drop_last() =~= sp);
            assert(sp =~= sp.drop_last().push(sp.last()));
            if !failed {
                let ok = push_token_ports(&chars, start, i, &mut all);
                if !ok {
                    failed = true;
                }
            }
            start = i + 1;
            assert(chars@.subrange(start as int, i + 1) =~= Seq::<char>::empty());
        } else {
            let ghost sp2 = sp.update(sp.len() - 1, sp.last().push(chars[i as int]));
            assert(split_on(next, ',') == sp2);
            assert(sp2.drop_last() =~= sp.drop_last());
            assert(sp2.last() =~= chars@.subrange(start as int, i + 1));
        }
        i = i + 1;
    }
    assert(chars@.take(chars.len() as int) =~= chars@);
    let ghost sp = split_on(chars@, ',');
    assert(sp =~= sp.drop_last().push(sp.last()));
    if failed {
        return None;
    }
    if !push_token_ports(&chars, start, chars.len(), &mut all) {
        return None;
    }
    Some(unique_ports(&all))
}

/// The ports of a well-formed specification, each once, in order of first mention.
pub fn ports_parse(ports: &str) -> (r: Vec<u16>)
    requires
        ports_spec_valid(ports@),
    ensures
        r@ == parsed_ports(ports@),
{
    match try_ports_parse(ports) {
        Some(v) => v,
        None => Vec::new(),
    }
}

/// Whether `ports` is a well-formed port specification.
pub fn ports_spec_is_valid(ports: &str) -> (r: bool)
    ensures
        r == ports_spec_valid(ports@),
{
    try_ports_parse(ports).is_some()
}

/// The ports of a specification come out once each, in order of first mention.
pub proof fn lemma_parsed_ports_first_occurrences(s: Seq<char>)
    requires
        ports_spec_valid(s),
    ensures
        first_occurrences_of(parsed_ports(s), port_list(s)->0),
{
    lemma_unique_seq(port_list(s)->0);
}

/// The decimal digit `d`, for `0 <= d < 10`.
pub open spec fn digit_char(d: int) -> char {
    seq!['0', '1', '2', '3', '4', '5', '6', '7', '8', '9'][d]
}

/// `n` written in decimal, without leading zeros.
pub open spec fn decimal_text(n: nat) -> Seq<char>
    decreases n,
{
    if n < 10 {
        seq![digit_char(n as int)]
    } else {
        decimal_text(n / 10).push(digit_char((n % 10) as int))
    }
}

/// One decimal literal per port.
pub open spec fn port_literals(v: Seq<u16>) -> Seq<Seq<char>> {
    v.map_values(|p: u16| decimal_text(p as nat))
}

/// The ports written as comma-separated decimal literals.
pub open spec fn render_ports(v: Seq<u16>) -> Seq<char>
    decreases v.len(),
{
    if v.len() == 0 {
        Seq::empty()
    } else if v.len() == 1 {
        decimal_text(v[0] as nat)
    } else {
        render_ports(v.drop_last()) + seq![','] + decimal_text(v.last() as nat)
    }
}

proof fn lemma_decimal_text(n: nat)
    ensures
        decimal_text(n).len() > 0,
        all_digits(decimal_text(n)),
        digits_value(decimal_text(n)) == n,
    decreases n,
{
    let t = decimal_text(n);
    if n < 10 {
        assert(t.drop_last() =~= Seq::<char>::empty());
        assert(digits_value(Seq::<char>::empty()) == 0);
        assert(digit_value(digit_char(n as int)) == n);
        assert(t.last() == digit_char(n as int));
    } else {
        lemma_decimal_text(n / 10);
        assert(t.drop_last() =~= decimal_text(n / 10));
        vstd::arithmetic::div_mod::lemma_fundamental_div_mod(n as int, 10);
        assert(t.last() == digit_char((n % 10) as int));
        assert(digits_value(t) == digits_value(decimal_text(n / 10)) * 10 + digit_value(t.last()));
        assert(digit_value(digit_char((n % 10) as int)) == n % 10);
        assert forall|i: int| 0 <= i < t.len() implies is_digit(#[trigger] t[i]) by {
            if i < t.len() - 1 {
                assert(t[i] == decimal_text(n / 10)[i]);
            }
        }
    }
}

proof fn lemma_decimal_u16_of_text(n: u16)
    ensures
        decimal_u16(decimal_text(n as nat)) == Some(n),
        !decimal_text(n as nat).contains('-'),
        !decimal_text(n as nat).contains(','),
        forall|i: int| 0 <= i < decimal_text(n as nat).len() ==> !is_white_space(#[trigger] decimal_text(n as nat)[i]),
{
    let t = decimal_text(n as nat);
    lemma_decimal_text(n as nat);
    assert(is_digit(t[0]));
    assert forall|i: int| 0 <= i < t.len() implies t[i] != '-' && t[i] != ',' && !is_white_space(#[trigger] t[i]) by {
        assert(is_digit(t[i]));
    }
}

proof fn lemma_strip_plain(t: Seq<char>)
    requires
        forall|i: int| 0 <= i < t.len() ==> !is_white_space(#[trigger] t[i]),
    ensures
        strip_white_space(t) == t,
    decreases t.len(),
{
    if t.len() > 0 {
        assert(t[t.len() - 1] == t.last());
        lemma_strip_plain(t.drop_last());
        assert(t.drop_last().push(t.last()) =~= t);
    }
}

/// Appending text free of `sep` extends the last piece.
proof fn lemma_split_append(x: Seq<char>, b: Seq<char>, sep: char)
    requires
        !b.contains(sep),
    ensures
        split_on(x + b, sep) == split_on(x, sep).update(
            split_on(x, sep).len() - 1,
            split_on(x, sep).last() + b,
        ),
    decreases b.len(),
{
    lemma_split_nonempty(x, sep);
    if b.len() == 0 {
        assert(x + b =~= x);
        assert(split_on(x, sep).last() + b =~= split_on(x, sep).last());
        assert(split_on(x, sep).update(split_on(x, sep).len() - 1, split_on(x, sep).last())
            =~= split_on(x, sep));
    } else {
        let b0 = b.drop_last();
        let c = b.last();
        assert(!b0.contains(sep)) by {
            if b0.contains(sep) {
                let k = choose|k: int| 0 <= k < b0.len() && b0[k] == sep;
                assert(b[k] == sep);
            }
        }
        assert(b[b.len() - 1] == c);
        lemma_split_append(x, b0, sep);
        assert((x + b).drop_last() =~= x + b0);
        assert((x + b).last() == c);
        lemma_split_nonempty(x + b0, sep);
        let sx = split_on(x, sep);
        let s0 = split_on(x + b0, sep);
        assert(s0.last() == sx.last() + b0);
        assert(sx.last() + b0.push(c) =~= (sx.last() + b0).push(c));
        assert(b0.push(c) =~= b);
        assert(split_on(x + b, sep) =~= sx.update(sx.len() - 1, sx.last() + b));
    }
}

proof fn lemma_split_after_sep(a: Seq<char>, t: Seq<char>, sep: char)
    requires
        !t.contains(sep),
    ensures
        split_on(a + seq![sep] + t, sep) == split_on(a, sep).push(t),
{
    let a1 = a + seq![sep];
    assert(a1.drop_last() =~= a);
    assert(a1.last() == sep);
    lemma_split_append(a1, t, sep);
    assert(Seq::<char>::empty() + t =~= t);
    assert(split_on(a1, sep).update(split_on(a1, sep).len() - 1, split_on(a1, sep).last() + t)
        =~= split_on(a, sep).push(t));
}

proof fn lemma_split_plain(t: Seq<char>, sep: char)
    requires
        !t.contains(sep),
    ensures
        split_on(t, sep) == seq![t],
{
    lemma_split_append(Seq::empty(), t, sep);
    assert(Seq::<char>::empty() + t =~= t);
    assert(Seq::<char>::empty() + t =~= t);
    assert(seq![Seq::<char>::empty()].update(0, Seq::<char>::empty() + t) =~= seq![t]);
}

/// Rendering the ports and splitting the text on commas gives back one literal per port.
proof fn lemma_render_split(v: Seq<u16>)
    requires
        v.len() > 0,
    ensures
        split_on(render_ports(v), ',') == port_literals(v),
        forall|i: int| 0 <= i < render_ports(v).len() ==> !is_white_space(#[trigger] render_ports(v)[i]),
    decreases v.len(),
{
    let r = render_ports(v);
    lemma_decimal_u16_of_text(v.last());
    if v.len() == 1 {
        lemma_split_plain(decimal_text(v[0] as nat), ',');
        assert(port_literals(v) =~= seq![decimal_text(v[0] as nat)]);
    } else {
        let t = decimal_text(v.last() as nat);
        lemma_render_split(v.drop_last());
        lemma_split_after_sep(render_ports(v.drop_last()), t, ',');
        assert(port_literals(v) =~= port_literals(v.drop_last()).push(t));
        let a = render_ports(v.drop_last());
        assert forall|i: int| 0 <= i < r.len() implies !is_white_space(#[trigger] r[i]) by {
            if i < a.len() {
                assert(r[i] == a[i]);
            } else if i > a.len() {
                assert(r[i] == t[i - a.len() - 1]);
            }
        }
    }
}

proof fn lemma_tokens_of_literals(v: Seq<u16>)
    ensures
        tokens_ports(port_literals(v)) == Some(v),
    decreases v.len(),
{
    let ts = port_literals(v);
    if v.len() > 0 {
        lemma_tokens_of_literals(v.drop_last());
        assert(ts.drop_last() =~= port_literals(v.drop_last()));
        lemma_decimal_u16_of_text(v.last());
        lemma_decimal_text(v.last() as nat);
        assert(ts.last() == decimal_text(v.last() as nat));
        assert(v.drop_last() + seq![v.last()] =~= v);
    } else {
        assert(ts.len() == 0);
    }
}

/// Writing the parsed ports as comma-separated literals and parsing that text
/// again gives the same ports.
pub proof fn lemma_render_round_trip(s: Seq<char>)
    requires
        ports_spec_valid(s),
    ensures
        ports_spec_valid(render_ports(parsed_ports(s))),
        parsed_ports(render_ports(parsed_ports(s))) == parsed_ports(s),
{
    let v = parsed_ports(s);
    let r = render_ports(v);
    lemma_unique_seq(port_list(s)->0);
    if v.len() == 0 {
        assert(strip_white_space(r) =~= Seq::<char>::empty());
        assert(tokens_ports(seq![Seq::<char>::empty()]) == Some(Seq::<u16>::empty())) by {
            assert(seq![Seq::<char>::empty()].drop_last() =~= Seq::<Seq<char>>::empty());
            assert(tokens_ports(Seq::<Seq<char>>::empty()) == Some(Seq::<u16>::empty()));
            assert(token_ports(Seq::<char>::empty()) == Some(Seq::<u16>::empty()));
            assert(Seq::<u16>::empty() + Seq::<u16>::empty() =~= Seq::<u16>::empty());
        }
        assert(unique_seq(Seq::<u16>::empty()) =~= Seq::<u16>::empty());
        assert(r =~= Seq::<char>::empty());
        assert(split_on(strip_white_space(r), ',') == seq![Seq::<char>::empty()]);
        assert(port_list(r) == Some(Seq::<u16>::empty()));
        assert(v =~= Seq::<u16>::empty());
    } else {
        lemma_render_split(v);
        lemma_strip_plain(r);
        lemma_tokens_of_literals(v);
        lemma_unique_seq_of_distinct(v);
    }
}

/// A range `a-a` names exactly the port `a`.
pub proof fn lemma_single_port_range(a: u16)
    ensures
        ports_spec_valid(decimal_text(a as nat) + seq!['-'] + decimal_text(a as nat)),
        parsed_ports(decimal_text(a as nat) + seq!['-'] + decimal_text(a as nat)) == seq![a],
{
    let t = decimal_text(a as nat);
    let tok = t + seq!['-'] + t;
    lemma_decimal_u16_of_text(a);
    assert forall|i: int| 0 <= i < tok.len() implies !is_white_space(#[trigger] tok[i]) && tok[i] != ',' by {
        if i < t.len() {
            assert(tok[i] == t[i]);
        } else if i > t.len() {
            assert(tok[i] == t[i - t.len() - 1]);
        }
    }
    lemma_strip_plain(tok);
    assert(!tok.contains(',')) by {
        if tok.contains(',') {
            let k = choose|k: int| 0 <= k < tok.len() && tok[k] == ',';
        }
    }
    lemma_split_plain(tok, ',');
    let d = t.len() as int;
    assert(single_dash_at(tok, d)) by {
        assert forall|e: int| 0 <= e < tok.len() && e != d implies tok[e] != '-' by {
            if e < d {
                assert(tok[e] == t[e]);
            } else {
                assert(tok[e] == t[e - d - 1]);
            }
        }
    }
    assert(tok.contains('-')) by {
        assert(tok[d] == '-');
    }
    let dd = choose|d: int| single_dash_at(tok, d);
    assert(dd == d) by {
        if dd != d {
            assert(tok[dd] == '-');
            assert(tok[d] != '-');
        }
    }
    assert(tok.take(d) =~= t);
    assert(tok.skip(d + 1) =~= t);
    assert(range_seq(a, a) =~= seq![a]);
    let ts = seq![tok];
    assert(ts.drop_last() =~= Seq::<Seq<char>>::empty());
    assert(Seq::<u16>::empty() + seq![a] =~= seq![a]);
    assert(decimal_u16(tok.take(d)) == Some(a));
    assert(decimal_u16(tok.skip(d + 1)) == Some(a));
    assert(token_ports(tok) == Some(seq![a]));
    assert(tokens_ports(Seq::<Seq<char>>::empty()) == Some(Seq::<u16>::empty()));
    assert(ts.last() == tok);
    assert(tokens_ports(ts) == Some(seq![a]));
    assert(split_on(strip_white_space(tok), ',') == ts);
    assert(port_list(tok) == Some(seq![a]));
    assert(seq![a].no_duplicates());
    lemma_unique_seq_of_distinct(seq![a]);
}

} // verus!
