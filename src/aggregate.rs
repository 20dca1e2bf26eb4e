//! Turning a JSON document of hits, or a load-test report, into counts per code.

use vstd::prelude::*;
use crate::hits::HitCounts;
use crate::text::same_text;

verus! {

/// A JSON value, as far as aggregation reads it.
#[derive(Debug)]
pub enum Json {
    Null,
    Bool(bool),
    /// A number, with its value when it is an integer in `u64`.
    Number(Option<u64>),
    Str(String),
    Array(Vec<Json>),
    /// Members in document order, keys distinct.
    Object(Vec<(String, Json)>),
}

/// Why a document cannot be aggregated.
#[derive(Clone, Copy, Debug, PartialEq, Eq, Structural)]
pub enum AggregateError {
    /// The document lists latencies, but no code was given to attribute them to.
    MissingCodeForLatencies,
    /// The document gives a count, but no code was given to attribute it to.
    MissingCodeForCount,
    /// The document has none of the recognised shapes.
    Unrecognized,
}

/// The value of the first member named `key`.
pub open spec fn member(fields: Seq<(String, Json)>, key: Seq<char>) -> Option<Json>
    decreases fields.len(),
{
    if fields.len() == 0 {
        None
    } else if fields[0].0@ == key {
        Some(fields[0].1)
    } else {
        member(fields.drop_first(), key)
    }
}

/// The `code` string of an object, if it has one.
pub open spec fn code_of(item: Json) -> Option<Seq<char>> {
    match item {
        Json::Object(fields) => match member(fields@, seq!['c', 'o', 'd', 'e']) {
            Some(Json::Str(s)) => Some(s@),
            _ => None,
        },
        _ => None,
    }
}

/// How many of `items` carry the code `c`.
pub open spec fn code_count(items: Seq<Json>, c: Seq<char>) -> nat
    decreases items.len(),
{
    if items.len() == 0 {
        0
    } else {
        code_count(items.drop_last(), c) + if code_of(items.last()) == Some(c) { 1nat } else { 0nat }
    }
}

pub open spec fn hits_key() -> Seq<char> {
    seq!['h', 'i', 't', 's']
}

pub open spec fn latencies_key() -> Seq<char> {
    seq!['l', 'a', 't', 'e', 'n', 'c', 'i', 'e', 's']
}

pub open spec fn latencies_ms_key() -> Seq<char> {
    seq!['l', 'a', 't', 'e', 'n', 'c', 'i', 'e', 's', '_', 'm', 's']
}

pub open spec fn count_key() -> Seq<char> {
    seq!['c', 'o', 'u', 'n', 't']
}

/// The hit records of a document: the `hits` array of an object, or a
/// top-level array.
pub open spec fn listed_hits(v: Json) -> Option<Seq<Json>> {
    match v {
        Json::Object(fields) => match member(fields@, hits_key()) {
            Some(Json::Array(items)) => Some(items@),
            _ => None,
        },
        Json::Array(items) => Some(items@),
        _ => None,
    }
}

/// The number of latencies of a report object: its `latencies` member, or
/// `latencies_ms` when there is no `latencies` member.
pub open spec fn latency_total(v: Json) -> Option<nat> {
    match v {
        Json::Object(fields) => {
            let l = match member(fields@, latencies_key()) {
                Some(j) => Some(j),
                None => member(fields@, latencies_ms_key()),
            };
            match l {
                Some(Json::Array(items)) => Some(items@.len()),
                _ => None,
            }
        },
        _ => None,
    }
}

/// The `count` member of an object, when it is an integer in `u64`.
pub open spec fn count_total(v: Json) -> Option<u64> {
    match v {
        Json::Object(fields) => match member(fields@, count_key()) {
            Some(Json::Number(Some(n))) => Some(n),
            _ => None,
        },
        _ => None,
    }
}

/// `agg` holds `code` with count `n` and nothing else.
pub open spec fn holds_only(agg: HitCounts, code: Seq<char>, n: nat) -> bool {
    &&& agg.holds(code)
    &&& agg.count_of(code) == n
    &&& forall|c: Seq<char>| c != code ==> !agg.holds(c) && agg.count_of(c) == 0
}

fn find_member<'a>(fields: &'a Vec<(String, Json)>, key: &str) -> (r: Option<&'a Json>)
    ensures
        r is None <==> member(fields@, key@) is None,
        r matches Some(j) ==> member(fields@, key@) == Some(*j),
{
    let mut i: usize = 0;
    assert(fields@.subrange(0, fields@.len() as int) =~= fields@);
    while i < fields.len()
        invariant
            i <= fields@.len(),
            member(fields@, key@) == member(fields@.subrange(i as int, fields@.len() as int), key@),
        decreases fields@.len() - i,
    {
        let ghost rest = fields@.subrange(i as int, fields@.len() as int);
        assert(rest.drop_first() =~= fields@.subrange(i + 1, fields@.len() as int));
        if same_text(fields[i].0.as_str(), key) {
            return Some(&fields[i].1);
        }
        i = i + 1;
    }
    None
}

fn find_code(item: &Json) -> (r: Option<&String>)
    ensures
        r is None <==> code_of(*item) is None,
        r matches Some(s) ==> code_of(*item) == Some(s@),
{
    match item {
        Json::Object(fields) => {
            proof {
                reveal_strlit("code");
            }
            assert("code"@ =~= seq!['c', 'o', 'd', 'e']);
            match find_member(fields, "code") {
                Some(Json::Str(s)) => Some(s),
                _ => None,
            }
        },
        _ => None,
    }
}

/// Counts the codes of hit records; records without a string `code` are skipped.
pub fn count_codes(items: &Vec<Json>) -> (r: HitCounts)
    ensures
        r.wf(),
        forall|c: Seq<char>| #[trigger] r.count_of(c) == code_count(items@, c),
        forall|c: Seq<char>| #[trigger] r.holds(c) <==> code_count(items@, c) > 0,
{
    let mut agg = HitCounts::new();
    let mut i: usize = 0;
    while i < items.len()
        invariant
            i <= items@.len(),
            agg.wf(),
            forall|c: Seq<char>| #[trigger] agg.count_of(c) == code_count(items@.take(i as int), c),
            forall|c: Seq<char>| #[trigger] agg.holds(c) <==> code_count(items@.take(i as int), c) > 0,
            forall|c: Seq<char>| #[trigger] code_count(items@.take(i as int), c) <= i,
        decreases items@.len() - i,
    {
        assert(items@.take(i + 1).drop_last() =~= items@.take(i as int));
        match find_code(&items[i]) {
            Some(code) => {
                assert(code_count(items@.take(i as int), code@) <= i);
                agg.add(code.as_str(), 1);
            },
            None => {},
        }
        assert forall|c: Seq<char>| #[trigger] code_count(items@.take(i + 1), c) <= i + 1 by {
            assert(items@.take(i + 1).drop_last() =~= items@.take(i as int));
            assert(code_count(items@.take(i as int), c) <= i);
        }
        i = i + 1;
    }
    assert(items@.take(i as int) =~= items@);
    agg
}

fn single(code: String, n: u64) -> (r: HitCounts)
    ensures
        r.wf(),
        holds_only(r, code@, n as nat),
{
    let mut agg = HitCounts::new();
    agg.add(code.as_str(), n);
    agg
}

/// Aggregates a document into counts per code. Hit records (an object's `hits`
/// array, or a top-level array) are counted by their `code`; a report's latencies,
/// or an object's `count`, are attributed to `code_hint`.
pub fn parse_and_aggregate(v: &Json, code_hint: Option<String>) -> (r: Result<HitCounts, AggregateError>)
    ensures
        listed_hits(*v) matches Some(items) ==> r matches Ok(agg) && agg.wf()
            && (forall|c: Seq<char>| #[trigger] agg.count_of(c) == code_count(items, c))
            && (forall|c: Seq<char>| #[trigger] agg.holds(c) <==> code_count(items, c) > 0),
        listed_hits(*v) is None && latency_total(*v) is Some ==> match code_hint {
            None => r == Err::<HitCounts, AggregateError>(AggregateError::MissingCodeForLatencies),
            Some(code) => r matches Ok(agg) && agg.wf() && holds_only(agg, code@, latency_total(*v)->Some_0),
        },
        listed_hits(*v) is None && latency_total(*v) is None && count_total(*v) is Some ==> match code_hint {
            None => r == Err::<HitCounts, AggregateError>(AggregateError::MissingCodeForCount),
            Some(code) => r matches Ok(agg) && agg.wf() && holds_only(agg, code@, count_total(*v)->Some_0 as nat),
        },
        listed_hits(*v) is None && latency_total(*v) is None && count_total(*v) is None
            ==> r == Err::<HitCounts, AggregateError>(AggregateError::Unrecognized),
{
    proof {
        reveal_strlit("hits");
        reveal_strlit("latencies");
        reveal_strlit("latencies_ms");
        reveal_strlit("count");
    }
    assert("hits"@ =~= hits_key());
    assert("latencies"@ =~= latencies_key());
    assert("latencies_ms"@ =~= latencies_ms_key());
    assert("count"@ =~= count_key());
    match v {
        Json::Object(fields) => {
            if let Some(Json::Array(hits)) = find_member(fields, "hits") {
                return Ok(count_codes(hits));
            }
            let latencies = match find_member(fields, "latencies") {
                Some(j) => Some(j),
                None => find_member(fields, "latencies_ms"),
            };
            if let Some(Json::Array(items)) = latencies {
                return match code_hint {
                    None => Err(AggregateError::MissingCodeForLatencies),
                    Some(code) => Ok(single(code, items.len() as u64)),
                };
            }
            if let Some(Json::Number(Some(n))) = find_member(fields, "count") {
                return match code_hint {
                    None => Err(AggregateError::MissingCodeForCount),
                    Some(code) => Ok(single(code, *n)),
                };
            }
            Err(AggregateError::Unrecognized)
        },
        Json::Array(items) => Ok(count_codes(items)),
        _ => Err(AggregateError::Unrecognized),
    }
}

} // verus!
