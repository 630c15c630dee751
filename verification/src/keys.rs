//! Redis keys of the service.

use vstd::prelude::*;
use crate::text::{decimal, lemma_decimal_digits, lemma_decimal_injective, push_decimal};
use crate::redis_types::NotificationData;
use crate::types::ClientId;

verus! {

/// The layout of a client's notification stream key: `N`, the client id,
/// and the shard in braces, which is the Redis cluster hash tag.
pub open spec fn client_key_text(client_id: Seq<char>, shard: u64) -> Seq<char> {
    "N"@ + client_id + "{"@ + decimal(shard as nat) + "}"@
}

/// The key of a client's notification stream.
pub fn notification_client_key(client_id: &str, shard: u64) -> (k: String)
    ensures
        k@ == client_key_text(client_id@, shard),
{
    let mut k = String::from_str("N");
    k.append(client_id);
    k.append("{");
    push_decimal(&mut k, shard);
    k.append("}");
    proof {
        reveal_strlit("N");
        reveal_strlit("{");
        reveal_strlit("}");
    }
    k
}

/// Where the parts of a stream key stand in it.
proof fn lemma_key_parts(a: Seq<char>, s: u64)
    ensures
        ({
            let k = client_key_text(a, s);
            let d = decimal(s as nat);
            &&& k.len() == a.len() + d.len() + 3
            &&& k[0] == 'N'
            &&& forall|i: int| 0 <= i < a.len() ==> k[1 + i] == a[i]
            &&& k[1 + a.len() as int] == '{'
            &&& forall|i: int| 0 <= i < d.len() ==> k[2 + a.len() + i] == d[i]
            &&& k[k.len() - 1] == '}'
        }),
{
    reveal_strlit("N");
    reveal_strlit("{");
    reveal_strlit("}");
    let d = decimal(s as nat);
    let k = client_key_text(a, s);
    let p1 = "N"@ + a;
    let p2 = p1 + "{"@;
    let p3 = p2 + d;
    assert(k == p3 + "}"@);
    assert(p1[0] == 'N');
    assert forall|i: int| 0 <= i < a.len() implies k[1 + i] == a[i] by {
        assert(p1[1 + i] == a[i]);
        assert(p2[1 + i] == p1[1 + i]);
        assert(p3[1 + i] == p2[1 + i]);
    }
    assert(p2[1 + a.len() as int] == '{');
    assert(p3[1 + a.len() as int] == '{');
    assert forall|i: int| 0 <= i < d.len() implies k[2 + a.len() + i] == d[i] by {
        assert(p3[2 + a.len() + i] == d[i]);
    }
}

/// The stream key of a client holds the client id right after the leading
/// `N` and ends with its shard in braces, the hash tag; and it tells clients
/// and shards apart: two keys are equal only for the same client and shard.
pub proof fn law_client_key_layout(a: Seq<char>, s1: u64, b: Seq<char>, s2: u64)
    ensures
        ({
            let k = client_key_text(a, s1);
            let tag = "{"@ + decimal(s1 as nat) + "}"@;
            &&& k.len() == 1 + a.len() + tag.len()
            &&& k.subrange(1, 1 + a.len() as int) == a
            &&& k.subrange(k.len() as int - tag.len() as int, k.len() as int) == tag
        }),
        client_key_text(a, s1) == client_key_text(b, s2) ==> a == b && s1 == s2,
{
    reveal_strlit("{");
    reveal_strlit("}");
    lemma_key_parts(a, s1);
    lemma_key_parts(b, s2);
    let k = client_key_text(a, s1);
    let d1 = decimal(s1 as nat);
    let d2 = decimal(s2 as nat);
    let tag = "{"@ + d1 + "}"@;
    assert(k.subrange(1, 1 + a.len() as int) =~= a);
    assert forall|i: int| 0 <= i < tag.len() implies k.subrange(k.len() as int - tag.len() as int, k.len() as int)[i] == tag[i] by {
        if i == 0 {
        } else if i < 1 + d1.len() {
            assert(tag[i] == d1[i - 1]);
        } else {
        }
    }
    assert(k.subrange(k.len() as int - tag.len() as int, k.len() as int) =~= tag);
    if client_key_text(a, s1) == client_key_text(b, s2) {
        lemma_decimal_digits(s1 as nat);
        lemma_decimal_digits(s2 as nat);
        let len = k.len() as int;
        if d1.len() < d2.len() {
            let p = len - 2 - d1.len();
            assert(k[p] == '{');
            assert(k[2 + b.len() + (p - 2 - b.len())] == d2[p - 2 - b.len()]);
            assert('0' <= d2[p - 2 - b.len()] <= '9');
            assert(false);
        } else if d2.len() < d1.len() {
            let p = len - 2 - d2.len();
            assert(k[p] == '{');
            assert(k[2 + a.len() + (p - 2 - a.len())] == d1[p - 2 - a.len()]);
            assert('0' <= d1[p - 2 - a.len()] <= '9');
            assert(false);
        }
        assert(a.len() == b.len());
        assert(d1 =~= d2) by {
            assert forall|i: int| 0 <= i < d1.len() implies d1[i] == d2[i] by {
                assert(k[2 + a.len() + i] == d1[i]);
                assert(k[2 + b.len() + i] == d2[i]);
            }
        }
        lemma_decimal_injective(s1 as nat, s2 as nat);
        assert(a =~= b) by {
            assert forall|i: int| 0 <= i < a.len() implies a[i] == b[i] by {
                assert(k[1 + i] == a[i]);
                assert(k[1 + i] == b[i]);
            }
        }
    }
}

/// The key under which a token's client id is cached.
pub fn client_details_key(token: &str) -> (k: String)
    ensures
        k@ == "notification:client_details:"@ + token@,
{
    let mut k = String::from_str("notification:client_details:");
    k.append(token);
    k
}

pub fn last_sent_client_notification_key(client_id: &str) -> (k: String)
    ensures
        k@ == "notification:last_sent_client_notification:"@ + client_id@,
{
    let mut k = String::from_str("notification:last_sent_client_notification:");
    k.append(client_id);
    k
}

/// The key under which a notification's stream entry id is kept.
pub fn notification_stream_key(notification_id: &str) -> (k: String)
    ensures
        k@ == "notifition:stream:"@ + notification_id@,
{
    let mut k = String::from_str("notifition:stream:");
    k.append(notification_id);
    k
}

/// A character of a client id as stream keys spell it: a hex digit or `-`.
pub open spec fn is_id_char(c: char) -> bool {
    ('0' <= c <= '9') || ('a' <= c <= 'f') || ('A' <= c <= 'F') || c == '-'
}

/// The number of id characters of `s` from position `i` on.
pub open spec fn id_run(s: Seq<char>, i: int) -> nat
    decreases s.len() - i,
{
    if 0 <= i < s.len() && is_id_char(s[i]) {
        1 + id_run(s, i + 1)
    } else {
        0
    }
}

/// Whether `N`, a non-empty run of id characters and `{` start at `i`.
pub open spec fn client_match_at(s: Seq<char>, i: int) -> bool {
    &&& 0 <= i
    &&& i + 1 <= s.len()
    &&& s[i] == 'N'
    &&& id_run(s, i + 1) > 0
    &&& i + 1 + id_run(s, i + 1) < s.len()
    &&& s[i + 1 + id_run(s, i + 1)] == '{'
}

/// The capture of `N([0-9a-fA-F-]+)\{` in `s` under leftmost-first
/// matching: the id run of the leftmost place where the pattern matches.
/// (`{` is no id character, so a match takes the whole run.)
pub open spec fn stream_key_client_id(s: Seq<char>) -> Option<Seq<char>> {
    if exists|i: int| client_match_at(s, i) {
        let i = choose|i: int| client_match_at(s, i) && forall|j: int| 0 <= j < i ==> !client_match_at(s, j);
        Some(s.subrange(i + 1, i + 1 + id_run(s, i + 1)))
    } else {
        None
    }
}

proof fn lemma_id_run_to(s: Seq<char>, start: int, end: int)
    requires
        0 <= start <= end < s.len(),
        forall|i: int| start <= i < end ==> is_id_char(s[i]),
        !is_id_char(s[end]),
    ensures
        id_run(s, start) == end - start,
    decreases end - start,
{
    if start < end {
        lemma_id_run_to(s, start + 1, end);
    }
}

/// The reader finds the client of every stream key it writes: the key of a
/// client whose id is a non-empty run of hex digits and hyphens (as every
/// UUID is) names that client.
pub proof fn law_reader_finds_the_client_of_its_key(id: Seq<char>, shard: u64)
    requires
        id.len() > 0,
        forall|i: int| 0 <= i < id.len() ==> is_id_char(#[trigger] id[i]),
    ensures
        stream_key_client_id(client_key_text(id, shard)) == Some(id),
{
    lemma_key_parts(id, shard);
    let k = client_key_text(id, shard);
    assert forall|i: int| 1 <= i < 1 + id.len() implies is_id_char(k[i]) by {
        assert(k[1 + (i - 1)] == id[i - 1]);
    }
    lemma_id_run_to(k, 1, 1 + id.len() as int);
    assert(client_match_at(k, 0));
    let i = choose|i: int| client_match_at(k, i) && forall|j: int| 0 <= j < i ==> !client_match_at(k, j);
    assert(client_match_at(k, i) && forall|j: int| 0 <= j < i ==> !client_match_at(k, j));
    assert(i == 0);
    assert(k.subrange(1, 1 + id.len() as int) =~= id) by {
        assert forall|j: int| 0 <= j < id.len() implies k.subrange(1, 1 + id.len() as int)[j] == id[j] by {
            assert(k[1 + j] == id[j]);
        }
    }
}

/// The first capture group of `regex::Regex::new(r"N([0-9a-fA-F-]+)\{")`
/// in `key`. The pattern is valid, so compiling it succeeds; a search finds
/// the leftmost-first match, as the crate documents.
#[verifier::external_body]
fn client_id_capture(key: &str) -> (r: Option<String>)
    ensures
        match r {
            Some(c) => stream_key_client_id(key@) == Some(c@),
            None => stream_key_client_id(key@) is None,
        },
{
    let re = match regex::Regex::new(r"N([0-9a-fA-F-]+)\{") {
        Ok(re) => re,
        Err(_) => return None,
    };
    match re.captures(key) {
        Some(captures) => match captures.get(1) {
            Some(m) => Some(m.as_str().to_string()),
            None => None,
        },
        None => None,
    }
}

/// The client whose notification stream `key` names, if it names one.
pub fn client_of_stream_key(key: &str) -> (c: Option<ClientId>)
    ensures
        match c {
            Some(id) => stream_key_client_id(key@) == Some(id@),
            None => stream_key_client_id(key@) is None,
        },
{
    match client_id_capture(key) {
        Some(id) => Some(ClientId(id)),
        None => None,
    }
}

/// The clients of a read of several streams, each with what its stream
/// held, in order; a stream whose key names no client is left out.
pub open spec fn streams_by_client(s: Seq<(Seq<char>, Seq<NotificationData>)>) -> Seq<(Seq<char>, Seq<NotificationData>)>
    decreases s.len(),
{
    if s.len() == 0 {
        Seq::empty()
    } else {
        let r = streams_by_client(s.drop_last());
        match stream_key_client_id(s.last().0) {
            Some(id) => r.push((id, s.last().1)),
            None => r,
        }
    }
}

pub open spec fn stream_results_view(v: Seq<(String, Vec<NotificationData>)>) -> Seq<(Seq<char>, Seq<NotificationData>)> {
    Seq::new(v.len(), |i: int| (v[i].0@, v[i].1@))
}

pub open spec fn client_results_view(v: Seq<(ClientId, Vec<NotificationData>)>) -> Seq<(Seq<char>, Seq<NotificationData>)> {
    Seq::new(v.len(), |i: int| (v[i].0@, v[i].1@))
}

/// Pairs each stream of a multi-stream read with the client its key names.
pub fn clients_of_streams(results: Vec<(String, Vec<NotificationData>)>) -> (r: Vec<(ClientId, Vec<NotificationData>)>)
    ensures
        client_results_view(r@) == streams_by_client(stream_results_view(results@)),
{
    let ghost s = stream_results_view(results@);
    let mut r: Vec<(ClientId, Vec<NotificationData>)> = Vec::new();
    let mut results = results;
    let ghost o = results@;
    proof {
        assert(client_results_view(r@) =~= streams_by_client(s.take(0)));
        assert(o.skip(0) == o);
    }
    let ghost mut i: int = 0;
    while results.len() > 0
        invariant
            0 <= i <= o.len(),
            s == stream_results_view(o),
            results@ == o.skip(i),
            client_results_view(r@) == streams_by_client(s.take(i)),
        decreases results@.len(),
    {
        assert(results@[0] == o[i]);
        let (key, notifs) = results.remove(0);
        proof {
            assert(results@ == o.skip(i + 1));
            assert(key@ == s[i].0 && notifs@ == s[i].1);
            let t = s.take(i + 1);
            assert(t.drop_last() == s.take(i));
            assert(t.last() == s[i]);
        }
        let ghost before = r@;
        match client_of_stream_key(key.as_str()) {
            Some(c) => {
                r.push((c, notifs));
                proof {
                    let lhs = client_results_view(r@);
                    let rhs = streams_by_client(s.take(i + 1));
                    assert(client_results_view(before).len() == before.len());
                    assert forall|j: int| 0 <= j < lhs.len() implies lhs[j] == rhs[j] by {
                        if j < before.len() {
                            assert(lhs[j] == client_results_view(before)[j]);
                        }
                    }
                    assert(lhs =~= rhs);
                }
            },
            None => {},
        }
        proof {
            i = i + 1;
        }
    }
    assert(s.take(o.len() as int) == s);
    r
}

} // verus!
