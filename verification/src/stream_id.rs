//! Redis stream entry ids, `<milliseconds>-<sequence>`, and their order.

use vstd::prelude::*;
use crate::text::{
    chars_of, decimal, digit_char, digit_value, fold_digits, is_digit, lemma_decimal_digits, parse_unsigned, parse_unsigned_spec, IntErrorKind,
};

verus! {

/// The position of the first `c` in `s`.
pub open spec fn find_char(s: Seq<char>, c: char) -> Option<nat>
    decreases s.len(),
{
    if s.len() == 0 {
        None
    } else if s[0] == c {
        Some(0)
    } else {
        match find_char(s.drop_first(), c) {
            Some(i) => Some(i + 1),
            None => None,
        }
    }
}

pub proof fn lemma_find_char(s: Seq<char>, c: char)
    ensures
        match find_char(s, c) {
            Some(i) => i < s.len() && s[i as int] == c && forall|j: int| 0 <= j < i ==> s[j] != c,
            None => forall|j: int| 0 <= j < s.len() ==> s[j] != c,
        },
    decreases s.len(),
{
    if s.len() > 0 {
        lemma_find_char(s.drop_first(), c);
        if s[0] != c {
            match find_char(s.drop_first(), c) {
                Some(i) => {
                    assert forall|j: int| 0 <= j < i + 1 implies s[j] != c by {
                        if j > 0 {
                            assert(s[j] == s.drop_first()[j - 1]);
                        }
                    }
                },
                None => {
                    assert forall|j: int| 0 <= j < s.len() implies s[j] != c by {
                        if j > 0 {
                            assert(s[j] == s.drop_first()[j - 1]);
                        }
                    }
                },
            }
        }
    }
}

/// `s` up to its first `c`; all of `s` when there is none.
pub open spec fn part_before(s: Seq<char>, c: char) -> Seq<char> {
    match find_char(s, c) {
        Some(i) => s.take(i as int),
        None => s,
    }
}

/// What follows the first `c` of `s`, when there is one.
pub open spec fn after_first(s: Seq<char>, c: char) -> Option<Seq<char>> {
    match find_char(s, c) {
        Some(i) => Some(s.skip(i + 1int)),
        None => None,
    }
}

/// The first two fields of `s` split at `-`.
pub open spec fn stream_id_fields(s: Seq<char>) -> (Seq<char>, Option<Seq<char>>) {
    (
        part_before(s, '-'),
        match after_first(s, '-') {
            Some(rest) => Some(part_before(rest, '-')),
            None => None,
        },
    )
}

pub open spec fn parse_u64_spec(s: Seq<char>) -> Option<u64> {
    match parse_unsigned_spec(s, u64::MAX as nat) {
        Ok(v) => Some(v as u64),
        Err(_) => None,
    }
}

/// The (milliseconds, sequence) pair of a stream id, when both fields parse.
pub open spec fn parse_stream_id(s: Seq<char>) -> Option<(u64, u64)> {
    let (a, b) = stream_id_fields(s);
    match (parse_u64_spec(a), b) {
        (Some(ms), Some(b)) => match parse_u64_spec(b) {
            Some(seq) => Some((ms, seq)),
            None => None,
        },
        _ => None,
    }
}

/// `a` comes before `b`: both parse, and `a`'s pair is lexicographically
/// smaller. An id that does not parse comes before nothing.
pub open spec fn stream_id_less(a: Seq<char>, b: Seq<char>) -> bool {
    match (parse_stream_id(a), parse_stream_id(b)) {
        (Some((t1, s1)), Some((t2, s2))) => t1 < t2 || (t1 == t2 && s1 < s2),
        _ => false,
    }
}

/// `a` is `b`, or comes before it.
pub open spec fn stream_id_le(a: Seq<char>, b: Seq<char>) -> bool {
    a == b || stream_id_less(a, b)
}

/// The later of two ids; `a` unless `a` comes before `b`.
pub open spec fn stream_id_max(a: Seq<char>, b: Seq<char>) -> Seq<char> {
    if stream_id_less(a, b) {
        b
    } else {
        a
    }
}

/// The first `c` of `s` is at `i` when `s[i]` is `c` and no earlier one is.
proof fn lemma_find_char_at(s: Seq<char>, c: char, i: int)
    requires
        0 <= i < s.len(),
        s[i] == c,
        forall|j: int| 0 <= j < i ==> s[j] != c,
    ensures
        find_char(s, c) == Some(i as nat),
{
    lemma_find_char(s, c);
}

/// `s` has no `c` at all.
proof fn lemma_find_char_none(s: Seq<char>, c: char)
    requires
        forall|j: int| 0 <= j < s.len() ==> s[j] != c,
    ensures
        find_char(s, c) is None,
{
    lemma_find_char(s, c);
}

/// Reading the decimal of `n` back gives `n`.
proof fn lemma_fold_decimal(n: nat, max: nat)
    requires
        n <= max,
    ensures
        fold_digits(decimal(n), max) == Ok::<nat, IntErrorKind>(n),
    decreases n,
{
    let d = decimal(n);
    if n < 10 {
        assert(d == seq![digit_char(n)]);
        assert(d.drop_last() =~= Seq::<char>::empty());
        assert(d.last() == digit_char(n));
        assert((n + 48) as char as u32 == n + 48);
        assert(is_digit(d.last()) && digit_value(d.last()) == n);
        assert(fold_digits(d.drop_last(), max) == Ok::<nat, IntErrorKind>(0));
    } else {
        lemma_fold_decimal(n / 10, max);
        assert(d == decimal(n / 10).push(digit_char(n % 10)));
        assert(d.drop_last() == decimal(n / 10));
        assert(d.last() == digit_char(n % 10));
        assert(((n % 10) + 48) as char as u32 == (n % 10) + 48);
        assert(is_digit(d.last()) && digit_value(d.last()) == n % 10);
        assert((n / 10) * 10 + n % 10 == n);
    }
}

/// Parsing the decimal of a `u64` gives it back.
proof fn lemma_parse_decimal(n: u64)
    ensures
        parse_u64_spec(decimal(n as nat)) == Some(n),
{
    lemma_decimal_digits(n as nat);
    lemma_fold_decimal(n as nat, u64::MAX as nat);
    let d = decimal(n as nat);
    assert('0' <= d[0] <= '9');
}

/// The id written `<ms>-<seq>` in decimal.
pub open spec fn stream_id_text(ms: u64, seq: u64) -> Seq<char> {
    decimal(ms as nat) + seq!['-'] + decimal(seq as nat)
}

/// Every id written `<ms>-<seq>` parses to its two numbers, the whole of
/// each field read; so ids order as their (milliseconds, sequence) pairs do.
pub proof fn law_stream_ids_parse_their_fields(ms: u64, sq: u64, ms2: u64, sq2: u64)
    ensures
        parse_stream_id(stream_id_text(ms, sq)) == Some((ms, sq)),
        stream_id_less(stream_id_text(ms, sq), stream_id_text(ms2, sq2)) <==> (ms < ms2 || (ms == ms2 && sq < sq2)),
{
    lemma_id_text_parses(ms, sq);
    lemma_id_text_parses(ms2, sq2);
}

proof fn lemma_id_text_parses(ms: u64, sq: u64)
    ensures
        parse_stream_id(stream_id_text(ms, sq)) == Some((ms, sq)),
{
    let a = decimal(ms as nat);
    let b = decimal(sq as nat);
    let s = stream_id_text(ms, sq);
    lemma_decimal_digits(ms as nat);
    lemma_decimal_digits(sq as nat);
    assert forall|j: int| 0 <= j < a.len() implies s[j] != '-' by {
        assert(s[j] == a[j]);
        assert('0' <= a[j] <= '9');
    }
    assert(s[a.len() as int] == '-');
    lemma_find_char_at(s, '-', a.len() as int);
    assert(s.take(a.len() as int) =~= a);
    assert(s.skip(a.len() + 1int) =~= b);
    assert forall|j: int| 0 <= j < b.len() implies b[j] != '-' by {
        assert('0' <= b[j] <= '9');
    }
    lemma_find_char_none(b, '-');
    lemma_parse_decimal(ms);
    lemma_parse_decimal(sq);
}

/// The order of parsed ids: lexicographic on (milliseconds, sequence).
pub open spec fn pair_le(p: (u64, u64), q: (u64, u64)) -> bool {
    p.0 < q.0 || (p.0 == q.0 && p.1 <= q.1)
}

/// Between ids that parse, the later one by `stream_id_max` is at or after both.
pub proof fn lemma_stream_id_max_bounds(a: Seq<char>, b: Seq<char>)
    requires
        parse_stream_id(a) is Some,
        parse_stream_id(b) is Some,
    ensures
        stream_id_max(a, b) == a || stream_id_max(a, b) == b,
        pair_le(parse_stream_id(a)->0, parse_stream_id(stream_id_max(a, b))->0),
        pair_le(parse_stream_id(b)->0, parse_stream_id(stream_id_max(a, b))->0),
{
}

/// An id that parses is at or before another that parses exactly when its
/// pair is not greater, provided equal pairs are spelled alike.
pub proof fn lemma_stream_id_le_pairs(a: Seq<char>, b: Seq<char>)
    requires
        parse_stream_id(a) is Some,
        parse_stream_id(b) is Some,
        parse_stream_id(a) == parse_stream_id(b) ==> a == b,
    ensures
        stream_id_le(a, b) <==> pair_le(parse_stream_id(a)->0, parse_stream_id(b)->0),
{
}

/// The first index at or after `from` that holds `c`.
fn find_char_from(v: &Vec<char>, from: usize, c: char) -> (r: Option<usize>)
    requires
        from <= v@.len(),
    ensures
        match find_char(v@.skip(from as int), c) {
            Some(i) => r == Some((from + i) as usize),
            None => r is None,
        },
        r matches Some(i) ==> from <= i < v@.len(),
    decreases v@.len() - from,
{
    proof {
        lemma_find_char(v@.skip(from as int), c);
    }
    let ghost s = v@.skip(from as int);
    if from == v.len() {
        assert(s.len() == 0);
        None
    } else if v[from] == c {
        assert(s[0] == c);
        Some(from)
    } else {
        assert(s.drop_first() == v@.skip(from + 1));
        find_char_from(v, from + 1, c)
    }
}

/// Parses `v[lo..hi]` as a `u64`.
fn parse_u64_range(v: &Vec<char>, lo: usize, hi: usize) -> (r: Option<u64>)
    requires
        lo <= hi <= v@.len(),
    ensures
        r == parse_u64_spec(v@.subrange(lo as int, hi as int)),
{
    let s = crate::text::string_from_char_range(v.as_slice(), lo, hi);
    match parse_unsigned(s.as_str(), u64::MAX) {
        Ok(n) => Some(n),
        Err(_) => None,
    }
}

/// The (milliseconds, sequence) pair of a stream id.
pub fn parse_stream_id_exec(id: &str) -> (r: Option<(u64, u64)>)
    ensures
        r == parse_stream_id(id@),
{
    let v = chars_of(id);
    let ghost s = v@;
    assert(s.skip(0) == s);
    let first_dash = find_char_from(&v, 0, '-');
    match first_dash {
        None => None,
        Some(d) => {
            assert(s.take(d as int) == s.subrange(0, d as int));
            let ms = parse_u64_range(&v, 0, d);
            let ghost rest = s.skip(d + 1);
            let second_dash = find_char_from(&v, d + 1, '-');
            let end: usize = match second_dash {
                Some(e) => e,
                None => v.len(),
            };
            proof {
                lemma_find_char(rest, '-');
                lemma_find_char(s, '-');
                match find_char(rest, '-') {
                    Some(i) => {
                        assert(end == d + 1 + i);
                        assert(rest.take(i as int) == s.subrange(d + 1, end as int));
                    },
                    None => {
                        assert(rest == s.subrange(d + 1, end as int));
                    },
                }
            }
            let seq_no = parse_u64_range(&v, d + 1, end);
            proof {
                let f = stream_id_fields(s);
                assert(f.0 == s.subrange(0, d as int));
                assert(after_first(s, '-') == Some(rest));
                assert(f.1 == Some(s.subrange(d + 1, end as int)));
            }
            match (ms, seq_no) {
                (Some(a), Some(b)) => Some((a, b)),
                _ => None,
            }
        },
    }
}

/// Whether the stream id `id1` comes before `id2`.
pub fn is_stream_id_less(id1: &str, id2: &str) -> (b: bool)
    ensures
        b == stream_id_less(id1@, id2@),
{
    match (parse_stream_id_exec(id1), parse_stream_id_exec(id2)) {
        (Some((t1, s1)), Some((t2, s2))) => t1 < t2 || (t1 == t2 && s1 < s2),
        _ => false,
    }
}

/// Whether `id1` is `id2` or comes before it.
pub fn is_stream_id_less_or_eq(id1: &str, id2: &str) -> (b: bool)
    ensures
        b == stream_id_le(id1@, id2@),
{
    let a = String::from_str(id1);
    let b = String::from_str(id2);
    a == b || is_stream_id_less(id1, id2)
}

/// The later of two stream ids.
pub fn max_stream_id(id1: &str, id2: &str) -> (m: String)
    ensures
        m@ == stream_id_max(id1@, id2@),
{
    if is_stream_id_less(id1, id2) {
        String::from_str(id2)
    } else {
        String::from_str(id1)
    }
}

} // verus!
