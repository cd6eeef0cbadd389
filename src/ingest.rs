//! The per-record rules of log ingestion: flattening, the timestamp window,
//! per-request accounting, the single alert trigger and distinct-value facts.
//!
//! A request is driven record by record: `flatten`, then the stream's
//! transform chain (run by the caller), then `IngestRun::stamp`, then the
//! caller's schema check and buffering, then `IngestRun::accept`.

use vstd::prelude::*;
use crate::codec::{field_of, find_field};
use crate::decimal::{all_digits, decimal, int_decimal, int_text, parse_decimal, to_decimal};
use crate::functions::StreamType;
use crate::json::{json_of_bytes, to_json_text, JsonValue};
use crate::text::{push_char, push_str};

verus! {

/// Microseconds in one hour.
pub const MICROS_PER_HOUR: i64 = 3600000000;

/// The per-request accounting of one stream.
#[derive(Clone, Debug)]
pub struct StreamStatus {
    pub name: String,
    pub successful: u64,
    pub failed: u64,
    pub error: String,
}

/// What an ingestion request returns: a status code and one status per stream.
#[derive(Clone, Debug)]
pub struct IngestionResponse {
    pub code: u16,
    pub status: Vec<StreamStatus>,
}

/// One distinct-value fact: a field of a stream and a value it took.
#[derive(Clone, Debug)]
pub struct DvItem {
    pub stream_type: StreamType,
    pub stream_name: String,
    pub field_name: String,
    pub field_value: String,
    pub filter_name: String,
    pub filter_value: String,
}

impl StreamStatus {
    /// No record seen yet.
    pub fn new(name: &str) -> (r: StreamStatus)
        ensures
            r.name@ == name@,
            r.successful == 0,
            r.failed == 0,
            r.error@.len() == 0,
    {
        StreamStatus { name: String::from_str(name), successful: 0, failed: 0, error: String::new() }
    }
}

impl IngestionResponse {
    pub fn new(code: u16, status: Vec<StreamStatus>) -> (r: IngestionResponse)
        ensures
            r.code == code,
            r.status == status,
    {
        IngestionResponse { code, status }
    }
}

// ---------------------------------------------------------------- the window

/// The latest timestamp a record may carry without lowering the running minimum:
/// now plus the allowance.
pub open spec fn window_upper(now: int, hours: int) -> int {
    now + hours * MICROS_PER_HOUR
}

/// The earliest timestamp accepted: now minus the allowance.
pub open spec fn window_lower(now: int, hours: int) -> int {
    now - hours * MICROS_PER_HOUR
}

/// Bounds on the clock and the allowance under which the window is computed
/// without overflow.
pub open spec fn window_inputs_ok(now: i64, hours: i64) -> bool {
    &&& 0 <= hours <= 1_000_000_000
    &&& -0x2000_0000_0000_0000 <= now <= 0x2000_0000_0000_0000
}

/// The window of a request: `(now + allowance, now − allowance)` in microseconds.
pub fn window_bounds(now: i64, hours: i64) -> (r: (i64, i64))
    requires
        window_inputs_ok(now, hours),
    ensures
        r.0 == window_upper(now as int, hours as int),
        r.1 == window_lower(now as int, hours as int),
{
    assert(hours * MICROS_PER_HOUR <= 3_600_000_000_000_000_000) by (nonlinear_arith)
        requires
            0 <= hours <= 1_000_000_000,
    ;
    assert(hours * MICROS_PER_HOUR >= 0) by (nonlinear_arith)
        requires
            0 <= hours,
    ;
    let span = hours * MICROS_PER_HOUR;
    (now + span, now - span)
}

// ---------------------------------------------------------------- timestamps

/// What `chrono` reads an RFC 3339 date-time as, in microseconds since the epoch.
pub uninterp spec fn rfc3339_micros(s: Seq<char>) -> Option<i64>;

/// Relies on `chrono::DateTime::parse_from_rfc3339` and `timestamp_micros`:
/// the instant an RFC 3339 text names, or `None` where it names none.
#[verifier::external_body]
fn parse_rfc3339_micros(s: &str) -> (r: Option<i64>)
    ensures
        r == rfc3339_micros(s@),
{
    chrono::DateTime::parse_from_rfc3339(s).ok().map(|d| d.timestamp_micros())
}

/// The timestamp a field value gives, in microseconds: an integer (as a
/// number or as digit text), or an RFC 3339 date-time text.
pub open spec fn timestamp_of(v: JsonValue) -> Option<int> {
    match v {
        JsonValue::Number(t) => match int_text(t@) {
            Some(n) => if i64::MIN <= n <= i64::MAX {
                Some(n)
            } else {
                None
            },
            None => None,
        },
        JsonValue::Str(s) => match int_text(s@) {
            Some(n) => if i64::MIN <= n <= i64::MAX {
                Some(n)
            } else {
                None
            },
            None => match rfc3339_micros(s@) {
                Some(m) => Some(m as int),
                None => None,
            },
        },
        _ => None,
    }
}

/// Reads an integer from its text, when it fits `i64`.
pub fn parse_int_text(s: &str) -> (r: Option<i64>)
    ensures
        r matches Some(v) ==> int_text(s@) == Some(v as int),
        r is None ==> (int_text(s@) matches Some(n) ==> !(i64::MIN <= n <= i64::MAX)),
{
    let n = s.unicode_len();
    if n > 0 && s.get_char(0) == '-' {
        let rest = s.substring_char(1, n);
        proof { assert(rest@ =~= s@.drop_first()); }
        match parse_decimal(rest, 0x8000_0000_0000_0000u64) {
            Some(v) => {
                if v == 0x8000_0000_0000_0000u64 {
                    Some(i64::MIN)
                } else {
                    Some(0 - (v as i64))
                }
            },
            None => None,
        }
    } else {
        match parse_decimal(s, 0x7fff_ffff_ffff_ffffu64) {
            Some(v) => Some(v as i64),
            None => {
                proof {
                    if n > 0 {
                        assert(s@[0] != '-');
                    }
                }
                None
            },
        }
    }
}

fn all_digit_chars(s: &str, from: usize) -> (r: bool)
    requires
        from <= s@.len(),
    ensures
        r == all_digits(s@.skip(from as int)),
{
    let n = s.unicode_len();
    if from == n {
        return false;
    }
    let mut i = from;
    while i < n
        invariant
            n == s@.len(),
            from <= i <= n,
            forall|k: int| from <= k < i ==> crate::decimal::is_digit(#[trigger] s@[k]),
        decreases n - i,
    {
        let c = s.get_char(i);
        if c < '0' || c > '9' {
            proof { assert(s@.skip(from as int)[i - from] == c); }
            return false;
        }
        i = i + 1;
    }
    proof {
        assert forall|k: int| 0 <= k < s@.skip(from as int).len() implies crate::decimal::is_digit(
            #[trigger] s@.skip(from as int)[k],
        ) by {
            assert(s@.skip(from as int)[k] == s@[from + k]);
        }
    }
    true
}

/// Whether `s` spells an integer.
pub fn is_int_text(s: &str) -> (r: bool)
    ensures
        r == int_text(s@) is Some,
{
    let n = s.unicode_len();
    if n > 0 && s.get_char(0) == '-' {
        proof { assert(s@.skip(1) =~= s@.drop_first()); }
        all_digit_chars(s, 1)
    } else {
        proof { assert(s@.skip(0) =~= s@); }
        all_digit_chars(s, 0)
    }
}

/// The timestamp of a field value, or why there is none.
pub fn parse_timestamp(v: &JsonValue) -> (r: Result<i64, String>)
    ensures
        r matches Ok(t) ==> timestamp_of(*v) == Some(t as int),
        r is Err ==> timestamp_of(*v) is None,
        r matches Err(e) ==> e@ == invalid_timestamp_message(),
{
    match v {
        JsonValue::Number(t) => match parse_int_text(t.as_str()) {
            Some(n) => Ok(n),
            None => Err(invalid_timestamp()),
        },
        JsonValue::Str(s) => match parse_int_text(s.as_str()) {
            Some(n) => Ok(n),
            None => {
                if is_int_text(s.as_str()) {
                    Err(invalid_timestamp())
                } else {
                    match parse_rfc3339_micros(s.as_str()) {
                        Some(m) => Ok(m),
                        None => Err(invalid_timestamp()),
                    }
                }
            },
        },
        _ => Err(invalid_timestamp()),
    }
}

/// The message recorded for a timestamp that cannot be read.
pub open spec fn invalid_timestamp_message() -> Seq<char> {
    seq!['i', 'n', 'v', 'a', 'l', 'i', 'd', ' ', 't', 'i', 'm', 'e', 's', 't', 'a', 'm', 'p', ' ', 'v', 'a', 'l', 'u', 'e']
}

/// The message recorded for a record older than a window of `hours` hours.
pub open spec fn too_old_message(hours: nat) -> Seq<char> {
    seq!['T', 'o', 'o', ' ', 'o', 'l', 'd', ' ', 'd', 'a', 't', 'a', ',', ' ', 'o', 'n', 'l', 'y', ' ', 'l', 'a', 's', 't', ' '] + decimal(hours) + seq![' ', 'h', 'o', 'u', 'r', 's', ' ', 'd', 'a', 't', 'a', ' ', 'c', 'a', 'n', ' ', 'b', 'e', ' ', 'i', 'n', 'g', 'e', 's', 't', 'e', 'd', '.', ' ', 'D', 'a', 't', 'a', ' ', 'd', 'i', 's', 'c', 'a', 'r', 'd', 'e', 'd', '.']
}

fn invalid_timestamp() -> (r: String)
    ensures
        r@ == invalid_timestamp_message(),
{
    proof { reveal_strlit("invalid timestamp value"); }
    String::from_str("invalid timestamp value")
}

/// The message recorded for a record older than the window.
pub fn too_old_error(hours: i64) -> (r: String)
    requires
        hours >= 0,
    ensures
        r@ == too_old_message(hours as nat),
{
    proof {
        reveal_strlit("Too old data, only last ");
        reveal_strlit(" hours data can be ingested. Data discarded.");
    }
    let mut m = String::from_str("Too old data, only last ");
    push_str(&mut m, to_decimal(hours as u64).as_str());
    push_str(&mut m, " hours data can be ingested. Data discarded.");
    proof {
        assert(m@ =~= too_old_message(hours as nat));
    }
    m
}

/// The signed decimal text of `v`.
pub fn int_to_text(v: i64) -> (r: String)
    ensures
        r@ == int_decimal(v as int),
{
    if v < 0 {
        let mag: u64 = ((0 - (v + 1)) as u64) + 1;
        let mut r = String::new();
        push_char(&mut r, '-');
        push_str(&mut r, to_decimal(mag).as_str());
        r
    } else {
        to_decimal(v as u64)
    }
}

// ---------------------------------------------------------------- flattening

/// A value that holds no other value.
pub open spec fn is_scalar(v: JsonValue) -> bool {
    v is Null || v is Bool || v is Number || v is Str
}

/// Two scalars that are the same value.
pub open spec fn same_scalar(a: JsonValue, b: JsonValue) -> bool {
    match (a, b) {
        (JsonValue::Null, JsonValue::Null) => true,
        (JsonValue::Bool(x), JsonValue::Bool(y)) => x == y,
        (JsonValue::Number(x), JsonValue::Number(y)) => x@ == y@,
        (JsonValue::Str(x), JsonValue::Str(y)) => x@ == y@,
        _ => false,
    }
}

/// Every field holds a scalar.
pub open spec fn all_scalar(fs: Seq<(String, JsonValue)>) -> bool {
    forall|i: int| 0 <= i < fs.len() ==> is_scalar(#[trigger] fs[i].1)
}

/// Two field lists with the same names and the same scalar values, in order.
pub open spec fn same_fields_flat(a: Seq<(String, JsonValue)>, b: Seq<(String, JsonValue)>) -> bool {
    &&& a.len() == b.len()
    &&& forall|i: int| 0 <= i < a.len() ==> (#[trigger] a[i]).0@ == b[i].0@ && same_scalar(a[i].1, b[i].1)
}

fn copy_scalar(v: &JsonValue) -> (r: JsonValue)
    requires
        is_scalar(*v),
    ensures
        same_scalar(r, *v),
        is_scalar(r),
{
    match v {
        JsonValue::Null => JsonValue::Null,
        JsonValue::Bool(b) => JsonValue::Bool(*b),
        JsonValue::Number(t) => JsonValue::Number(t.clone()),
        JsonValue::Str(s) => JsonValue::Str(s.clone()),
        _ => JsonValue::Null,
    }
}

/// The number of fields of an object; 0 for any other value.
pub open spec fn field_count(v: JsonValue) -> nat {
    if v is Object {
        v->Object_0@.len()
    } else {
        0
    }
}

/// The name of field `k` under `key`: `k` itself at the top level, else
/// `key_k`.
pub open spec fn child_key(key: Seq<char>, k: Seq<char>, top: bool) -> Seq<char> {
    if top {
        k
    } else {
        key + seq!['_'] + k
    }
}

/// The flattened form of `v` under `key`: a scalar is one field; an object
/// gives the flattened forms of its first `n` fields, in order.
pub open spec fn flat_items(key: Seq<char>, v: JsonValue, n: nat, top: bool) -> Seq<(Seq<char>, JsonValue)>
    decreases v, n,
{
    match v {
        JsonValue::Object(fs) => if n == 0 || n > fs@.len() {
            Seq::empty()
        } else {
            let c = fs@[n - 1];
            flat_items(key, v, (n - 1) as nat, top) + flat_items(
                child_key(key, c.0@, top),
                c.1,
                field_count(c.1),
                false,
            )
        },
        _ => seq![(key, v)],
    }
}

/// `v` holds no array at any depth.
pub open spec fn no_arrays(v: JsonValue) -> bool
    decreases v,
{
    match v {
        JsonValue::Array(_) => false,
        JsonValue::Object(fs) => forall|i: int| 0 <= i < fs@.len() ==> no_arrays(#[trigger] fs@[i].1),
        _ => true,
    }
}

/// Field list `out` is the flattened form `f`: the same names, in order,
/// with the same scalar values.
pub open spec fn flat_match(out: Seq<(String, JsonValue)>, f: Seq<(Seq<char>, JsonValue)>) -> bool {
    &&& out.len() == f.len()
    &&& forall|i: int| 0 <= i < out.len() ==> (#[trigger] out[i]).0@ == f[i].0 && same_scalar(out[i].1, f[i].1)
}

proof fn lemma_flat_match_concat(
    a: Seq<(String, JsonValue)>,
    b: Seq<(String, JsonValue)>,
    fa: Seq<(Seq<char>, JsonValue)>,
    fb: Seq<(Seq<char>, JsonValue)>,
)
    requires
        flat_match(a, fa),
        flat_match(b, fb),
    ensures
        flat_match(a + b, fa + fb),
{
    assert forall|i: int| 0 <= i < (a + b).len() implies (#[trigger] (a + b)[i]).0@ == (fa + fb)[i].0
        && same_scalar((a + b)[i].1, (fa + fb)[i].1) by {
        if i >= a.len() {
            assert((a + b)[i] == b[i - a.len()]);
            assert((fa + fb)[i] == fb[i - a.len()]);
        }
    }
}

fn flatten_into(key: String, v: &JsonValue, out: &mut Vec<(String, JsonValue)>) -> (ok: bool)
    ensures
        no_arrays(*v) ==> ok && flat_match(
            final(out)@.skip(old(out)@.len() as int),
            flat_items(key@, *v, field_count(*v), false),
        ),
        final(out)@.len() >= old(out)@.len(),
        forall|i: int| 0 <= i < old(out)@.len() ==> final(out)@[i] == old(out)@[i],
        ok ==> forall|i: int|
            old(out)@.len() <= i < final(out)@.len() ==> is_scalar(#[trigger] final(out)@[i].1),
        is_scalar(*v) ==> ok && final(out)@.len() == old(out)@.len() + 1 && final(out)@.last().0@
            == key@ && same_scalar(final(out)@.last().1, *v),
    decreases v,
{
    match v {
        JsonValue::Object(fields) => {
            let mut i: usize = 0;
            let ghost start = out@;
            while i < fields.len()
                invariant
                    v is Object && v->Object_0 == *fields,
                    out@.len() >= start.len(),
                    start == old(out)@,
                    forall|k: int| 0 <= k < start.len() ==> out@[k] == start[k],
                    forall|k: int| start.len() <= k < out@.len() ==> is_scalar(#[trigger] out@[k].1),
                    i <= fields@.len(),
                    no_arrays(*v) ==> flat_match(out@.skip(start.len() as int), flat_items(key@, *v, i as nat, false)),
                decreases fields@.len() - i,
            {
                proof {
                    assert(decreases_to!(*v => v->Object_0));
                    assert(decreases_to!(*fields => fields[i as int]));
                    assert(decreases_to!(fields[i as int] => fields[i as int].1));
                }
                let mut child = key.clone();
                push_char(&mut child, '_');
                push_str(&mut child, fields[i].0.as_str());
                let ghost before = out@;
                let ghost ck = child@;
                if !flatten_into(child, &fields[i].1, out) {
                    proof { assert(!no_arrays(fields@[i as int].1)); }
                    return false;
                }
                proof {
                    if no_arrays(*v) {
                        assert(no_arrays(fields@[i as int].1));
                        assert(ck == child_key(key@, fields@[i as int].0@, false));
                        let c = fields@[i as int];
                        assert(flat_items(key@, *v, (i + 1) as nat, false) == flat_items(key@, *v, i as nat, false)
                            + flat_items(child_key(key@, c.0@, false), c.1, field_count(c.1), false));
                        assert(out@.skip(start.len() as int) =~= before.skip(start.len() as int) + out@.skip(before.len() as int));
                        lemma_flat_match_concat(
                            before.skip(start.len() as int),
                            out@.skip(before.len() as int),
                            flat_items(key@, *v, i as nat, false),
                            flat_items(ck, c.1, field_count(c.1), false),
                        );
                    }
                    assert forall|k: int| start.len() <= k < out@.len() implies is_scalar(
                        #[trigger] out@[k].1,
                    ) by {
                        if k < before.len() {
                            assert(out@[k] == before[k]);
                        }
                    }
                }
                i = i + 1;
            }
            proof { assert(start.len() == old(out)@.len()); }
            true
        },
        JsonValue::Array(_) => match to_json_text(v) {
            Some(t) => {
                out.push((key, JsonValue::Str(t)));
                true
            },
            None => false,
        },
        _ => {
            let ghost k = key@;
            let ghost n = old(out)@.len();
            out.push((key, copy_scalar(v)));
            proof {
                assert(out@.skip(n as int) =~= seq![out@[n as int]]);
                assert(flat_items(k, *v, 0, false) == seq![(k, *v)]);
            }
            true
        },
    }
}

/// The single-level field list of a record. Nested objects give their fields
/// under `parent_child` names; arrays become their JSON text. `None` where
/// the record is not an object (or an array in it cannot be written out).
pub fn flatten(item: &JsonValue) -> (r: Option<Vec<(String, JsonValue)>>)
    ensures
        !(item is Object) ==> r is None,
        r matches Some(fs) ==> forall|i: int| 0 <= i < fs@.len() ==> is_scalar(#[trigger] fs@[i].1),
        item is Object && all_scalar(item->Object_0@) ==> r is Some && same_fields_flat(
            r->0@,
            item->Object_0@,
        ),
        item is Object && no_arrays(*item) ==> r is Some && flat_match(
            r->0@,
            flat_items(Seq::empty(), *item, field_count(*item), true),
        ),
{
    match item {
        JsonValue::Object(fields) => {
            let mut out: Vec<(String, JsonValue)> = Vec::new();
            let mut i: usize = 0;
            while i < fields.len()
                invariant
                    item is Object && item->Object_0 == *fields,
                    i <= fields@.len(),
                    forall|k: int| 0 <= k < out@.len() ==> is_scalar(#[trigger] out@[k].1),
                    all_scalar(fields@) ==> out@.len() == i && forall|k: int|
                        0 <= k < i ==> (#[trigger] out@[k]).0@ == fields@[k].0@ && same_scalar(
                            out@[k].1,
                            fields@[k].1,
                        ),
                    no_arrays(*item) ==> flat_match(out@, flat_items(Seq::empty(), *item, i as nat, true)),
                decreases fields@.len() - i,
            {
                let ghost before = out@;
                let ghost ck = fields@[i as int].0@;
                if !flatten_into(fields[i].0.clone(), &fields[i].1, &mut out) {
                    proof {
                        assert(!is_scalar(fields@[i as int].1));
                        assert(!all_scalar(fields@));
                        assert(!no_arrays(fields@[i as int].1));
                    }
                    return None;
                }
                proof {
                    if no_arrays(*item) {
                        assert(no_arrays(fields@[i as int].1));
                        let c = fields@[i as int];
                        assert(flat_items(Seq::empty(), *item, (i + 1) as nat, true) == flat_items(Seq::empty(), *item, i as nat, true)
                            + flat_items(child_key(Seq::empty(), c.0@, true), c.1, field_count(c.1), false));
                        assert(out@ =~= before + out@.skip(before.len() as int));
                        lemma_flat_match_concat(
                            before,
                            out@.skip(before.len() as int),
                            flat_items(Seq::empty(), *item, i as nat, true),
                            flat_items(ck, c.1, field_count(c.1), false),
                        );
                    }
                    assert forall|k: int| 0 <= k < out@.len() implies is_scalar(#[trigger] out@[k].1) by {
                        if k < before.len() {
                            assert(out@[k] == before[k]);
                        }
                    }
                    if all_scalar(fields@) {
                        assert(is_scalar(fields@[i as int].1));
                        assert forall|k: int| 0 <= k < i + 1 implies (#[trigger] out@[k]).0@ == fields@[k].0@
                            && same_scalar(out@[k].1, fields@[k].1) by {
                            if k < i {
                                assert(out@[k] == before[k]);
                            }
                        }
                    }
                }
                i = i + 1;
            }
            Some(out)
        },
        _ => None,
    }
}

// ---------------------------------------------------------------- decoding a request

/// The records of a request body: the items of a JSON array, or the one
/// JSON value the body holds. `None` where the body is not JSON.
pub fn decode_payload(body: &[u8]) -> (r: Option<Vec<JsonValue>>)
    ensures
        json_of_bytes(body@) is None ==> r is None,
        json_of_bytes(body@) matches Some(JsonValue::Array(items)) ==> r == Some(items),
        json_of_bytes(body@) matches Some(v) ==> (!(v is Array) ==> (r matches Some(vs) && vs@
            == seq![v])),
{
    match crate::json::parse_json(body) {
        Some(JsonValue::Array(items)) => Some(items),
        Some(v) => {
            let r = vec![v];
            proof { assert(r@ =~= seq![v]); }
            Some(r)
        },
        None => None,
    }
}

// ---------------------------------------------------------------- setting a field

proof fn lemma_field_of_first(fs: Seq<(String, JsonValue)>, k: Seq<char>, i: int)
    requires
        0 <= i <= fs.len(),
        forall|j: int| 0 <= j < i ==> (#[trigger] fs[j]).0@ != k,
        i < fs.len() ==> fs[i].0@ == k,
    ensures
        field_of(fs, k) == if i < fs.len() {
            Some(fs[i].1)
        } else {
            None
        },
    decreases i,
{
    if i > 0 {
        let d = fs.drop_first();
        assert forall|j: int| 0 <= j < i - 1 implies (#[trigger] d[j]).0@ != k by {
            assert(d[j] == fs[j + 1]);
        }
        lemma_field_of_first(d, k, i - 1);
    } else if fs.len() > 0 {
    }
}

proof fn lemma_field_of_other(a: Seq<(String, JsonValue)>, b: Seq<(String, JsonValue)>, k: Seq<char>, i: int)
    requires
        a.len() == b.len(),
        0 <= i < a.len(),
        a[i].0@ != k,
        b[i].0@ != k,
        forall|j: int| 0 <= j < a.len() && j != i ==> #[trigger] a[j] == b[j],
    ensures
        field_of(a, k) == field_of(b, k),
    decreases a.len(),
{
    if i > 0 {
        let (da, db) = (a.drop_first(), b.drop_first());
        assert forall|j: int| 0 <= j < da.len() && j != i - 1 implies #[trigger] da[j] == db[j] by {
            assert(a[j + 1] == b[j + 1]);
        }
        if a[0].0@ != k {
            lemma_field_of_other(da, db, k, i - 1);
        }
        assert(a[0] == b[0]);
    } else {
        assert(a.drop_first() =~= b.drop_first()) by {
            assert forall|j: int| 0 <= j < a.len() - 1 implies a.drop_first()[j] == b.drop_first()[j] by {
                assert(a[j + 1] == b[j + 1]);
            }
        }
    }
}

proof fn lemma_field_of_push(a: Seq<(String, JsonValue)>, e: (String, JsonValue), k: Seq<char>)
    requires
        e.0@ != k,
    ensures
        field_of(a.push(e), k) == field_of(a, k),
    decreases a.len(),
{
    if a.len() > 0 {
        assert(a.push(e).drop_first() =~= a.drop_first().push(e));
        lemma_field_of_push(a.drop_first(), e, k);
    } else {
        assert(a.push(e).drop_first() =~= a);
    }
}

/// Sets field `k` of `fs` to `v`: the first field of that name is replaced,
/// or the field is appended.
pub fn set_field(fs: &mut Vec<(String, JsonValue)>, k: &str, v: JsonValue)
    ensures
        field_of(final(fs)@, k@) == Some(v),
        forall|o: Seq<char>| o != k@ ==> field_of(final(fs)@, o) == field_of(old(fs)@, o),
{
    let mut i: usize = 0;
    while i < fs.len()
        invariant
            fs@ == old(fs)@,
            i <= fs@.len(),
            forall|j: int| 0 <= j < i ==> (#[trigger] fs@[j]).0@ != k@,
        decreases fs@.len() - i,
    {
        let n = fs[i].0.as_str();
        if n.unicode_len() == k.unicode_len() && crate::text::starts_with_at(n, k, 0) {
            proof { assert(n@ =~= n@.subrange(0, k@.len() as int)); }
            let name = fs[i].0.clone();
            let ghost before = fs@;
            fs.set(i, (name, v));
            proof {
                assert forall|o: Seq<char>| o != k@ implies field_of(fs@, o) == field_of(before, o) by {
                    lemma_field_of_other(fs@, before, o, i as int);
                }
                assert forall|j: int| 0 <= j < i implies (#[trigger] fs@[j]).0@ != k@ by {}
                lemma_field_of_first(fs@, k@, i as int);
            }
            return;
        }
        proof {
            if fs[i as int].0@ == k@ {
                assert(n@.subrange(0, k@.len() as int) =~= n@);
            }
        }
        i = i + 1;
    }
    let ghost before = fs@;
    let e = (String::from_str(k), v);
    let ghost eg = e;
    fs.push(e);
    proof {
        assert forall|o: Seq<char>| o != k@ implies field_of(fs@, o) == field_of(before, o) by {
            lemma_field_of_push(before, eg, o);
        }
        lemma_field_of_first(fs@, k@, i as int);
    }
}

// ---------------------------------------------------------------- a request

/// What becomes of a record once the transform chain has run.
pub enum Admission {
    /// The chain dropped it: its result is null or not an object.
    Dropped,
    /// Its timestamp field cannot be read.
    BadTimestamp,
    /// Its timestamp lies before the window.
    TooOld,
    /// It is kept, with this timestamp.
    Accepted(int),
}

/// The timestamp of a record: its timestamp field read, or `now` without one.
pub open spec fn record_timestamp(fs: Seq<(String, JsonValue)>, ts_field: Seq<char>, now: int) -> Option<int> {
    match field_of(fs, ts_field) {
        None => Some(now),
        Some(v) => timestamp_of(v),
    }
}

/// The decision on a transformed record, given the clock and the earliest
/// timestamp accepted.
pub open spec fn admission(value: JsonValue, ts_field: Seq<char>, now: int, earliest: int) -> Admission {
    match value {
        JsonValue::Object(fs) => match record_timestamp(fs@, ts_field, now) {
            None => Admission::BadTimestamp,
            Some(ts) => if ts < earliest {
                Admission::TooOld
            } else {
                Admission::Accepted(ts)
            },
        },
        _ => Admission::Dropped,
    }
}

/// The trigger kept after a record: the record's own when it has one, else
/// the one kept before.
pub open spec fn kept_trigger<T>(cur: Option<T>, t: Option<T>) -> Option<T> {
    if t is Some {
        t
    } else {
        cur
    }
}

/// The trigger kept after records with triggers `ts`, in order.
pub open spec fn run_trigger<T>(ts: Seq<Option<T>>) -> Option<T>
    decreases ts.len(),
{
    if ts.len() == 0 {
        None
    } else {
        kept_trigger(run_trigger(ts.drop_last()), ts.last())
    }
}

/// Whether `f` names a field of the record that is present and not null.
pub open spec fn present(fs: Seq<(String, JsonValue)>, f: Seq<char>) -> bool {
    field_of(fs, f) matches Some(v) && !(v is Null)
}

/// The names among `fields` that the record holds a non-null value for, in order.
pub open spec fn dv_names(fs: Seq<(String, JsonValue)>, fields: Seq<String>) -> Seq<Seq<char>>
    decreases fields.len(),
{
    if fields.len() == 0 {
        Seq::empty()
    } else {
        let prev = dv_names(fs, fields.drop_last());
        if present(fs, fields.last()@) {
            prev.push(fields.last()@)
        } else {
            prev
        }
    }
}

/// The text of a field value as a distinct value: a string's characters or a
/// number's text.
pub open spec fn value_text_is(v: JsonValue, t: Seq<char>) -> bool {
    match v {
        JsonValue::Str(s) => t == s@,
        JsonValue::Number(n) => t == n@,
        JsonValue::Bool(b) => t == (if b { seq!['t', 'r', 'u', 'e'] } else { seq!['f', 'a', 'l', 's', 'e'] }),
        JsonValue::Null => t.len() == 0,
        _ => t == crate::json::json_text_of(v) || (t.len() == 0 && !crate::json::integer_numbers(v)),
    }
}

fn value_text(v: &JsonValue) -> (r: String)
    ensures
        value_text_is(*v, r@),
{
    match v {
        JsonValue::Str(s) => s.clone(),
        JsonValue::Number(n) => n.clone(),
        JsonValue::Bool(b) => if *b {
            proof {
                reveal_strlit("true");
                assert("true"@ =~= seq!['t', 'r', 'u', 'e']);
            }
            String::from_str("true")
        } else {
            proof {
                reveal_strlit("false");
                assert("false"@ =~= seq!['f', 'a', 'l', 's', 'e']);
            }
            String::from_str("false")
        },
        JsonValue::Null => String::new(),
        _ => match to_json_text(v) {
            Some(t) => t,
            None => String::new(),
        },
    }
}

/// One fact per listed field that the record holds a non-null value for, in
/// the order the fields are listed.
pub fn distinct_values(record: &Vec<(String, JsonValue)>, fields: &Vec<String>, stream: &str) -> (r: Vec<DvItem>)
    ensures
        r@.len() == dv_names(record@, fields@).len(),
        forall|i: int| 0 <= i < r@.len() ==> {
            &&& (#[trigger] r@[i]).field_name@ == dv_names(record@, fields@)[i]
            &&& r@[i].stream_name@ == stream@
            &&& r@[i].stream_type == StreamType::Logs
            &&& value_text_is(field_of(record@, r@[i].field_name@)->0, r@[i].field_value@)
        },
{
    let mut out: Vec<DvItem> = Vec::new();
    let mut i: usize = 0;
    while i < fields.len()
        invariant
            i <= fields@.len(),
            out@.len() == dv_names(record@, fields@.take(i as int)).len(),
            forall|k: int| 0 <= k < out@.len() ==> {
                &&& (#[trigger] out@[k]).field_name@ == dv_names(record@, fields@.take(i as int))[k]
                &&& out@[k].stream_name@ == stream@
                &&& out@[k].stream_type == StreamType::Logs
                &&& value_text_is(field_of(record@, out@[k].field_name@)->0, out@[k].field_value@)
            },
        decreases fields@.len() - i,
    {
        proof { assert(fields@.take(i + 1).drop_last() =~= fields@.take(i as int)); }
        let f = &fields[i];
        match find_field(record, f.as_str()) {
            Some(v) => {
                if !matches!(v, JsonValue::Null) {
                    out.push(DvItem {
                        stream_type: StreamType::Logs,
                        stream_name: String::from_str(stream),
                        field_name: f.clone(),
                        field_value: value_text(v),
                        filter_name: String::new(),
                        filter_value: String::new(),
                    });
                }
            },
            None => {},
        }
        i = i + 1;
    }
    proof { assert(fields@.take(i as int) =~= fields@); }
    out
}

/// The running state of one ingestion request on one stream.
pub struct IngestRun<T> {
    pub stream_name: String,
    pub allowed_hours: i64,
    /// The earliest timestamp accepted.
    pub earliest: i64,
    /// The least timestamp accepted so far, starting from the window's upper end.
    pub min_ts: i64,
    pub status: StreamStatus,
    /// The accepted records, in order, with their timestamp field set.
    pub records: Vec<Vec<(String, JsonValue)>>,
    /// The last alert trigger produced so far.
    pub trigger: Option<T>,
    pub distinct: Vec<DvItem>,
}

impl<T> IngestRun<T> {
    /// A request on `stream` at time `now` (microseconds), accepting records
    /// up to `hours` hours old.
    pub fn new(stream: &str, now: i64, hours: i64) -> (r: IngestRun<T>)
        requires
            window_inputs_ok(now, hours),
        ensures
            r.stream_name@ == stream@,
            r.status.name@ == stream@,
            r.status.successful == 0 && r.status.failed == 0,
            r.earliest == window_lower(now as int, hours as int),
            r.min_ts == window_upper(now as int, hours as int),
            r.allowed_hours == hours,
            r.records@.len() == 0,
            r.trigger is None,
            r.distinct@.len() == 0,
    {
        let (upper, lower) = window_bounds(now, hours);
        IngestRun {
            stream_name: String::from_str(stream),
            allowed_hours: hours,
            earliest: lower,
            min_ts: upper,
            status: StreamStatus::new(stream),
            records: Vec::new(),
            trigger: None,
            distinct: Vec::new(),
        }
    }

    /// Counts a record that could not be flattened as failed.
    pub fn reject_unflattenable(&mut self)
        requires
            old(self).status.failed < u64::MAX,
        ensures
            final(self).status.failed == old(self).status.failed + 1,
            final(self).status.successful == old(self).status.successful,
            final(self).status.error@.len() > 0,
            final(self).min_ts == old(self).min_ts,
            final(self).earliest == old(self).earliest,
            final(self).records == old(self).records,
    {
        self.status.failed = self.status.failed + 1;
        self.status.error = String::from_str("record is not a JSON object");
        proof { reveal_strlit("record is not a JSON object"); }
    }

    /// Decides on a record once the transform chain has run. A dropped,
    /// unreadable or too-old record counts as failed and gives `None`; a kept
    /// one gives its fields with the timestamp field set, lowers the running
    /// minimum, and awaits `accept`.
    pub fn stamp(&mut self, value: JsonValue, ts_field: &str, now: i64) -> (r: Option<Vec<(String, JsonValue)>>)
        requires
            old(self).status.failed < u64::MAX,
            old(self).allowed_hours >= 0,
        ensures
            final(self).earliest == old(self).earliest,
            final(self).allowed_hours == old(self).allowed_hours,
            final(self).records == old(self).records,
            final(self).status.successful == old(self).status.successful,
            match admission(value, ts_field@, now as int, old(self).earliest as int) {
                Admission::Accepted(ts) => {
                    &&& r matches Some(fs) && field_of(fs@, ts_field@) matches Some(JsonValue::Number(t))
                        && t@ == int_decimal(ts)
                    &&& forall|o: Seq<char>| o != ts_field@ ==> field_of(r->0@, o) == field_of(value->Object_0@, o)
                    &&& final(self).status.failed == old(self).status.failed
                    &&& final(self).min_ts == if ts < old(self).min_ts { ts } else { old(self).min_ts as int }
                },
                Admission::Dropped => {
                    &&& r is None
                    &&& final(self).status.failed == old(self).status.failed + 1
                    &&& final(self).status.error == old(self).status.error
                    &&& final(self).min_ts == old(self).min_ts
                },
                Admission::BadTimestamp => {
                    &&& r is None
                    &&& final(self).status.failed == old(self).status.failed + 1
                    &&& final(self).status.error@ == invalid_timestamp_message()
                    &&& final(self).min_ts == old(self).min_ts
                },
                Admission::TooOld => {
                    &&& r is None
                    &&& final(self).status.failed == old(self).status.failed + 1
                    &&& final(self).status.error@ == too_old_message(old(self).allowed_hours as nat)
                    &&& final(self).min_ts == old(self).min_ts
                },
            },
    {
        let mut fs = match value {
            JsonValue::Object(fs) => fs,
            _ => {
                self.status.failed = self.status.failed + 1;
                return None;
            },
        };
        let ts = match find_field(&fs, ts_field) {
            Some(v) => match parse_timestamp(v) {
                Ok(t) => t,
                Err(e) => {
                    self.status.failed = self.status.failed + 1;
                    self.status.error = e;
                    return None;
                },
            },
            None => now,
        };
        if ts < self.earliest {
            self.status.failed = self.status.failed + 1;
            self.status.error = too_old_error(self.allowed_hours);
            return None;
        }
        if ts < self.min_ts {
            self.min_ts = ts;
        }
        set_field(&mut fs, ts_field, JsonValue::Number(int_to_text(ts)));
        Some(fs)
    }

    /// Counts an admitted record as ingested: it joins the buffer, its alert
    /// trigger (if any) replaces the one kept, and its distinct-value facts
    /// are collected.
    pub fn accept(&mut self, record: Vec<(String, JsonValue)>, trigger: Option<T>, dv_fields: &Vec<String>)
        requires
            old(self).status.successful < u64::MAX,
        ensures
            final(self).status.successful == old(self).status.successful + 1,
            final(self).status.failed == old(self).status.failed,
            final(self).records@ == old(self).records@.push(record),
            final(self).trigger == kept_trigger(old(self).trigger, trigger),
            final(self).min_ts == old(self).min_ts,
            final(self).earliest == old(self).earliest,
            final(self).allowed_hours == old(self).allowed_hours,
            final(self).distinct@.len() == old(self).distinct@.len() + dv_names(record@, dv_fields@).len(),
            forall|i: int| 0 <= i < old(self).distinct@.len() ==> final(self).distinct@[i] == old(self).distinct@[i],
            final(self).stream_name == old(self).stream_name,
            forall|i: int|
                0 <= i < dv_names(record@, dv_fields@).len() ==> {
                    let d = #[trigger] final(self).distinct@[old(self).distinct@.len() + i];
                    &&& d.field_name@ == dv_names(record@, dv_fields@)[i]
                    &&& d.stream_name@ == old(self).stream_name@
                    &&& d.stream_type == StreamType::Logs
                    &&& value_text_is(field_of(record@, d.field_name@)->0, d.field_value@)
                },
    {
        let mut items = distinct_values(&record, dv_fields, self.stream_name.as_str());
        let ghost added = items@;
        let ghost before = self.distinct@;
        self.distinct.append(&mut items);
        proof {
            assert forall|i: int| 0 <= i < added.len() implies #[trigger] self.distinct@[before.len() + i] == added[i] by {}
        }
        self.records.push(record);
        self.status.successful = self.status.successful + 1;
        if trigger.is_some() {
            self.trigger = trigger;
        }
    }
}

/// The timestamp window: with an allowance of `hours`, a record stamped one
/// second before `now − hours` is refused as too old, and one stamped one
/// second after it is kept with that timestamp.
pub proof fn lemma_timestamp_window(late: JsonValue, edge: JsonValue, ts_field: Seq<char>, now: int, hours: int)
    requires
        late is Object,
        edge is Object,
        record_timestamp(late->Object_0@, ts_field, now) == Some(window_lower(now, hours) - 1_000_000),
        record_timestamp(edge->Object_0@, ts_field, now) == Some(window_lower(now, hours) + 1_000_000),
    ensures
        admission(late, ts_field, now, window_lower(now, hours)) == Admission::TooOld,
        admission(edge, ts_field, now, window_lower(now, hours)) == Admission::Accepted(
            window_lower(now, hours) + 1_000_000,
        ),
{
}

/// One trigger per request: the trigger kept after a run of records is the
/// last one any record produced.
pub proof fn lemma_last_trigger_wins<T>(ts: Seq<Option<T>>, i: int)
    requires
        0 <= i < ts.len(),
        ts[i] is Some,
        forall|j: int| i < j < ts.len() ==> (#[trigger] ts[j]) is None,
    ensures
        run_trigger(ts) == ts[i],
    decreases ts.len(),
{
    if i < ts.len() - 1 {
        let d = ts.drop_last();
        assert forall|j: int| i < j < d.len() implies (#[trigger] d[j]) is None by {
            assert(d[j] == ts[j]);
        }
        lemma_last_trigger_wins(d, i);
    }
}

} // verus!
