//! The record form of transforms in the registry: a JSON object with the
//! fields `function`, `name`, `params`, `numArgs`, `transType` and, for a
//! stream-bound transform, `streams`.

use vstd::prelude::*;
use crate::decimal::{all_digits, decimal, int_decimal, lemma_decimal_reads_back, parse_decimal, to_decimal, value_of};
use crate::functions::{stream_type_name, FunctionList, StreamOrder, StreamType, Transform, ZoFunction};
use crate::json::{integer_numbers, json_of_bytes, json_text_of, parse_json, to_json_text, JsonValue};

verus! {

// ---------------------------------------------------------------- field names

pub open spec fn key_function() -> Seq<char> { seq!['f', 'u', 'n', 'c', 't', 'i', 'o', 'n'] }
pub open spec fn key_name() -> Seq<char> { seq!['n', 'a', 'm', 'e'] }
pub open spec fn key_params() -> Seq<char> { seq!['p', 'a', 'r', 'a', 'm', 's'] }
pub open spec fn key_num_args() -> Seq<char> { seq!['n', 'u', 'm', 'A', 'r', 'g', 's'] }
pub open spec fn key_trans_type() -> Seq<char> {
    seq!['t', 'r', 'a', 'n', 's', 'T', 'y', 'p', 'e']
}
pub open spec fn key_streams() -> Seq<char> { seq!['s', 't', 'r', 'e', 'a', 'm', 's'] }
pub open spec fn key_stream() -> Seq<char> { seq!['s', 't', 'r', 'e', 'a', 'm'] }
pub open spec fn key_order() -> Seq<char> { seq!['o', 'r', 'd', 'e', 'r'] }
pub open spec fn key_stream_type() -> Seq<char> {
    seq!['s', 't', 'r', 'e', 'a', 'm', 'T', 'y', 'p', 'e']
}
pub open spec fn key_list() -> Seq<char> { seq!['l', 'i', 's', 't'] }
pub open spec fn key_text() -> Seq<char> { seq!['t', 'e', 'x', 't'] }

// ---------------------------------------------------------------- reading fields

/// The value of the first field named `k`.
pub open spec fn field_of(fs: Seq<(String, JsonValue)>, k: Seq<char>) -> Option<JsonValue>
    decreases fs.len(),
{
    if fs.len() == 0 {
        None
    } else if fs[0].0@ == k {
        Some(fs[0].1)
    } else {
        field_of(fs.drop_first(), k)
    }
}

/// A text field: absent (read as empty) or a string.
pub open spec fn text_ok(f: Option<JsonValue>) -> bool {
    f is None || f->0 is Str
}

pub open spec fn text_of(f: Option<JsonValue>) -> Seq<char> {
    match f {
        Some(JsonValue::Str(s)) => s@,
        _ => Seq::empty(),
    }
}

/// A small count: absent (read as 0) or a number whose text is digits of a
/// value below 256.
pub open spec fn u8_ok(f: Option<JsonValue>) -> bool {
    match f {
        None => true,
        Some(JsonValue::Number(t)) => all_digits(t@) && value_of(t@) <= 255,
        _ => false,
    }
}

pub open spec fn u8_of(f: Option<JsonValue>) -> u8 {
    match f {
        Some(JsonValue::Number(t)) => value_of(t@) as u8,
        _ => 0,
    }
}

/// The engine field: absent (read as engine 0), null (no engine), or a small count.
pub open spec fn trans_type_ok(f: Option<JsonValue>) -> bool {
    f matches Some(JsonValue::Null) || u8_ok(f)
}

pub open spec fn trans_type_of(f: Option<JsonValue>) -> Option<u8> {
    match f {
        None => Some(0u8),
        Some(JsonValue::Null) => None,
        _ => Some(u8_of(f)),
    }
}

/// A stream type field: absent (read as logs) or a stream type's name.
pub open spec fn stream_type_ok(f: Option<JsonValue>) -> bool {
    match f {
        None => true,
        Some(JsonValue::Str(s)) => exists|t: StreamType| stream_type_name(t) == s@,
        _ => false,
    }
}

pub open spec fn stream_type_is(f: Option<JsonValue>, t: StreamType) -> bool {
    match f {
        Some(JsonValue::Str(s)) => stream_type_name(t) == s@,
        _ => t == StreamType::Logs,
    }
}

/// `j` is a well-formed binding record.
pub open spec fn order_record_ok(j: JsonValue) -> bool {
    match j {
        JsonValue::Object(fs) => text_ok(field_of(fs@, key_stream())) && u8_ok(
            field_of(fs@, key_order()),
        ) && stream_type_ok(field_of(fs@, key_stream_type())),
        _ => false,
    }
}

/// Binding record `j` reads as `o`.
pub open spec fn order_record(j: JsonValue, o: StreamOrder) -> bool {
    match j {
        JsonValue::Object(fs) => {
            &&& order_record_ok(j)
            &&& o.stream@ == text_of(field_of(fs@, key_stream()))
            &&& o.order == u8_of(field_of(fs@, key_order()))
            &&& stream_type_is(field_of(fs@, key_stream_type()), o.stream_type)
        },
        _ => false,
    }
}

/// A bindings field: absent or null (query-time), or an array of binding records.
pub open spec fn streams_ok(f: Option<JsonValue>) -> bool {
    match f {
        None => true,
        Some(JsonValue::Null) => true,
        Some(JsonValue::Array(items)) => forall|i: int|
            0 <= i < items@.len() ==> order_record_ok(#[trigger] items@[i]),
        _ => false,
    }
}

pub open spec fn streams_are(f: Option<JsonValue>, s: Option<Vec<StreamOrder>>) -> bool {
    match f {
        Some(JsonValue::Array(items)) => s matches Some(v) && v@.len() == items@.len() && forall|
            i: int,
        |
            0 <= i < items@.len() ==> order_record(#[trigger] items@[i], v@[i]),
        _ => s is None,
    }
}

/// `j` is a well-formed transform record: an object with a string `function`.
pub open spec fn transform_record_ok(j: JsonValue) -> bool {
    match j {
        JsonValue::Object(fs) => {
            &&& field_of(fs@, key_function()) matches Some(JsonValue::Str(_))
            &&& text_ok(field_of(fs@, key_name()))
            &&& text_ok(field_of(fs@, key_params()))
            &&& u8_ok(field_of(fs@, key_num_args()))
            &&& trans_type_ok(field_of(fs@, key_trans_type()))
            &&& streams_ok(field_of(fs@, key_streams()))
        },
        _ => false,
    }
}

/// Transform record `j` reads as `t`.
pub open spec fn transform_record(j: JsonValue, t: Transform) -> bool {
    match j {
        JsonValue::Object(fs) => {
            &&& transform_record_ok(j)
            &&& t.function@ == text_of(field_of(fs@, key_function()))
            &&& t.name@ == text_of(field_of(fs@, key_name()))
            &&& t.params@ == text_of(field_of(fs@, key_params()))
            &&& t.num_args == u8_of(field_of(fs@, key_num_args()))
            &&& t.trans_type == trans_type_of(field_of(fs@, key_trans_type()))
            &&& streams_are(field_of(fs@, key_streams()), t.streams)
        },
        _ => false,
    }
}

/// Two transforms agree in every field, bindings included.
pub open spec fn same_fields(a: Transform, b: Transform) -> bool {
    &&& a.function@ == b.function@
    &&& a.name@ == b.name@
    &&& a.params@ == b.params@
    &&& a.num_args == b.num_args
    &&& a.trans_type == b.trans_type
    &&& a.streams is Some <==> b.streams is Some
    &&& (a.streams matches Some(x) ==> b.streams matches Some(y) && x@.len() == y@.len()
        && forall|i: int|
        0 <= i < x@.len() ==> {
            &&& (#[trigger] x@[i]).stream@ == y@[i].stream@
            &&& x@[i].order == y@[i].order
            &&& x@[i].stream_type == y@[i].stream_type
        })
}

proof fn lemma_stream_type_name_injective(a: StreamType, b: StreamType)
    requires
        stream_type_name(a) == stream_type_name(b),
    ensures
        a == b,
{
    assert(stream_type_name(a).len() == stream_type_name(b).len());
}

/// A record reads as at most one transform: two readings agree in every field.
pub proof fn lemma_record_determines(j: JsonValue, a: Transform, b: Transform)
    requires
        transform_record(j, a),
        transform_record(j, b),
    ensures
        same_fields(a, b),
{
    if let JsonValue::Object(fs) = j {
        if let Some(JsonValue::Array(items)) = field_of(fs@, key_streams()) {
            let x = a.streams->0;
            let y = b.streams->0;
            assert forall|i: int| 0 <= i < x@.len() implies {
                &&& (#[trigger] x@[i]).stream@ == y@[i].stream@
                &&& x@[i].order == y@[i].order
                &&& x@[i].stream_type == y@[i].stream_type
            } by {
                assert(order_record(items@[i], x@[i]));
                assert(order_record(items@[i], y@[i]));
                if let JsonValue::Object(g) = items@[i] {
                    if let Some(JsonValue::Str(s)) = field_of(g@, key_stream_type()) {
                        lemma_stream_type_name_injective(x@[i].stream_type, y@[i].stream_type);
                    }
                }
            }
        }
    }
}

// ---------------------------------------------------------------- executable reading

spec fn deref_opt(f: Option<&JsonValue>) -> Option<JsonValue> {
    match f {
        Some(v) => Some(*v),
        None => None,
    }
}

pub(crate) fn find_field<'a>(fs: &'a Vec<(String, JsonValue)>, k: &str) -> (r: Option<&'a JsonValue>)
    ensures
        r matches Some(v) ==> field_of(fs@, k@) == Some(*v),
        r is None ==> field_of(fs@, k@) is None,
{
    let mut i: usize = 0;
    proof { assert(fs@.skip(0) =~= fs@); }
    while i < fs.len()
        invariant
            i <= fs@.len(),
            field_of(fs@, k@) == field_of(fs@.skip(i as int), k@),
        decreases fs@.len() - i,
    {
        proof { assert(fs@.skip(i as int).drop_first() =~= fs@.skip(i + 1)); }
        let n = fs[i].0.as_str();
        if n.unicode_len() == k.unicode_len() && crate::text::starts_with_at(n, k, 0) {
            proof { assert(n@ =~= n@.subrange(0, k@.len() as int)); }
            return Some(&fs[i].1);
        }
        proof {
            if fs[i as int].0@ == k@ {
                assert(n@.subrange(0, k@.len() as int) =~= n@);
            }
        }
        i = i + 1;
    }
    None
}

fn read_text(f: Option<&JsonValue>) -> (r: Option<String>)
    ensures
        r is Some <==> text_ok(deref_opt(f)),
        r matches Some(s) ==> s@ == text_of(deref_opt(f)),
{
    match f {
        None => Some(String::new()),
        Some(JsonValue::Str(s)) => Some(s.clone()),
        Some(_) => None,
    }
}

fn read_u8(f: Option<&JsonValue>) -> (r: Option<u8>)
    ensures
        r is Some <==> u8_ok(deref_opt(f)),
        r matches Some(n) ==> n == u8_of(deref_opt(f)),
{
    match f {
        None => Some(0),
        Some(JsonValue::Number(t)) => match parse_decimal(t.as_str(), 255) {
            Some(n) => Some(n as u8),
            None => None,
        },
        Some(_) => None,
    }
}

fn read_trans_type(f: Option<&JsonValue>) -> (r: Option<Option<u8>>)
    ensures
        r is Some <==> trans_type_ok(deref_opt(f)),
        r matches Some(n) ==> n == trans_type_of(deref_opt(f)),
{
    match f {
        None => Some(crate::functions::default_trans_type()),
        Some(JsonValue::Null) => Some(None),
        Some(_) => match read_u8(f) {
            Some(n) => Some(Some(n)),
            None => None,
        },
    }
}

fn read_stream_type(f: Option<&JsonValue>) -> (r: Option<StreamType>)
    ensures
        r is Some <==> stream_type_ok(deref_opt(f)),
        r matches Some(t) ==> stream_type_is(deref_opt(f), t),
{
    match f {
        None => Some(StreamType::Logs),
        Some(JsonValue::Str(s)) => StreamType::from_name(s.as_str()),
        Some(_) => None,
    }
}

/// Reads a binding record.
pub fn decode_stream_order(j: &JsonValue) -> (r: Option<StreamOrder>)
    ensures
        r is Some <==> order_record_ok(*j),
        r matches Some(o) ==> order_record(*j, o),
{
    proof {
        reveal_strlit("stream");
        reveal_strlit("order");
        reveal_strlit("streamType");
        assert("stream"@ =~= key_stream());
        assert("order"@ =~= key_order());
        assert("streamType"@ =~= key_stream_type());
    }
    match j {
        JsonValue::Object(fs) => {
            let stream = read_text(find_field(fs, "stream"));
            let order = read_u8(find_field(fs, "order"));
            let stream_type = read_stream_type(find_field(fs, "streamType"));
            match (stream, order, stream_type) {
                (Some(stream), Some(order), Some(stream_type)) => Some(
                    StreamOrder { stream, order, stream_type },
                ),
                _ => None,
            }
        },
        _ => None,
    }
}

fn read_streams(f: Option<&JsonValue>) -> (r: Option<Option<Vec<StreamOrder>>>)
    ensures
        r is Some <==> streams_ok(deref_opt(f)),
        r matches Some(s) ==> streams_are(deref_opt(f), s),
{
    match f {
        Some(JsonValue::Array(items)) => {
            let mut out: Vec<StreamOrder> = Vec::new();
            let mut i: usize = 0;
            while i < items.len()
                invariant
                    deref_opt(f) == Some(JsonValue::Array(*items)),
                    i <= items@.len(),
                    out@.len() == i,
                    forall|k: int| 0 <= k < i ==> order_record(#[trigger] items@[k], out@[k]),
                decreases items@.len() - i,
            {
                match decode_stream_order(&items[i]) {
                    Some(o) => out.push(o),
                    None => {
                        proof {
                            assert(!order_record_ok(items@[i as int]));
                            let ghost jv = deref_opt(f)->0;
                            assert(jv->Array_0@[i as int] == items@[i as int]);
                            assert(!streams_ok(deref_opt(f)));
                        }
                        return None;
                    },
                }
                i = i + 1;
            }
            Some(Some(out))
        },
        Some(JsonValue::Null) => Some(None),
        None => Some(None),
        Some(_) => None,
    }
}

/// Reads a transform record; `None` exactly where `j` is not one.
pub fn decode_transform(j: &JsonValue) -> (r: Option<Transform>)
    ensures
        r is Some <==> transform_record_ok(*j),
        r matches Some(t) ==> transform_record(*j, t),
{
    proof {
        reveal_strlit("function");
        reveal_strlit("name");
        reveal_strlit("params");
        reveal_strlit("numArgs");
        reveal_strlit("transType");
        reveal_strlit("streams");
        assert("function"@ =~= key_function());
        assert("name"@ =~= key_name());
        assert("params"@ =~= key_params());
        assert("numArgs"@ =~= key_num_args());
        assert("transType"@ =~= key_trans_type());
        assert("streams"@ =~= key_streams());
    }
    match j {
        JsonValue::Object(fs) => {
            let function = match find_field(fs, "function") {
                Some(JsonValue::Str(s)) => s.clone(),
                _ => return None,
            };
            let name = read_text(find_field(fs, "name"));
            let params = read_text(find_field(fs, "params"));
            let num_args = read_u8(find_field(fs, "numArgs"));
            let trans_type = read_trans_type(find_field(fs, "transType"));
            let streams = read_streams(find_field(fs, "streams"));
            match (name, params, num_args, trans_type, streams) {
                (Some(name), Some(params), Some(num_args), Some(trans_type), Some(streams)) => {
                    Some(Transform { function, name, params, num_args, trans_type, streams })
                },
                _ => None,
            }
        },
        _ => None,
    }
}

// ---------------------------------------------------------------- writing

/// `j` is exactly the record written for binding `o`: the fields `stream`,
/// `order` and `streamType`, in that order, and no others.
pub open spec fn encoded_order(j: JsonValue, o: StreamOrder) -> bool {
    &&& j is Object
    &&& j->Object_0@.len() == 3
    &&& j->Object_0@[0].0@ == key_stream()
    &&& j->Object_0@[0].1 is Str && j->Object_0@[0].1->Str_0@ == o.stream@
    &&& j->Object_0@[1].0@ == key_order()
    &&& j->Object_0@[1].1 is Number && j->Object_0@[1].1->Number_0@ == decimal(o.order as nat)
    &&& j->Object_0@[2].0@ == key_stream_type()
    &&& j->Object_0@[2].1 is Str && j->Object_0@[2].1->Str_0@ == stream_type_name(o.stream_type)
}

/// `j` is exactly the record written for transform `t`: `function`, `name`,
/// `params`, `numArgs`, `transType` (null for no engine) and, only for a
/// stream-bound transform, `streams`, in that order and no others.
pub open spec fn encoded_transform(j: JsonValue, t: Transform) -> bool {
    let fs = j->Object_0@;
    &&& j is Object
    &&& fs.len() == if t.streams is Some { 6int } else { 5int }
    &&& fs[0].0@ == key_function() && fs[0].1 is Str && fs[0].1->Str_0@ == t.function@
    &&& fs[1].0@ == key_name() && fs[1].1 is Str && fs[1].1->Str_0@ == t.name@
    &&& fs[2].0@ == key_params() && fs[2].1 is Str && fs[2].1->Str_0@ == t.params@
    &&& fs[3].0@ == key_num_args() && fs[3].1 is Number && fs[3].1->Number_0@ == decimal(
        t.num_args as nat,
    )
    &&& fs[4].0@ == key_trans_type()
    &&& (match t.trans_type {
        None => fs[4].1 is Null,
        Some(n) => fs[4].1 is Number && fs[4].1->Number_0@ == decimal(n as nat),
    })
    &&& (t.streams matches Some(v) ==> {
        &&& fs[5].0@ == key_streams()
        &&& fs[5].1 is Array
        &&& fs[5].1->Array_0@.len() == v@.len()
        &&& forall|i: int|
            0 <= i < v@.len() ==> encoded_order(#[trigger] fs[5].1->Array_0@[i], v@[i])
    })
}

proof fn lemma_stream_type_names_exist(t: StreamType)
    ensures
        exists|u: StreamType| stream_type_name(u) == stream_type_name(t),
{
    assert(stream_type_name(t) == stream_type_name(t));
}

fn number_value(n: u8) -> (r: JsonValue)
    ensures
        u8_ok(Some(r)),
        u8_of(Some(r)) == n,
        r is Number,
        r->Number_0@ == decimal(n as nat),
        integer_numbers(r),
{
    proof { lemma_decimal_reads_back(n as nat); }
    let r = JsonValue::Number(to_decimal(n as u64));
    proof { assert(int_decimal(n as int) == decimal(n as nat)); }
    r
}

fn text_value(s: &String) -> (r: JsonValue)
    ensures
        r matches JsonValue::Str(x) && x@ == s@,
{
    JsonValue::Str(s.clone())
}

/// The record of a binding.
pub fn encode_stream_order(o: &StreamOrder) -> (r: JsonValue)
    ensures
        order_record(r, *o),
        encoded_order(r, *o),
        integer_numbers(r),
{
    proof {
        reveal_strlit("stream");
        reveal_strlit("order");
        reveal_strlit("streamType");
    }
    let mut fs: Vec<(String, JsonValue)> = Vec::new();
    fs.push((String::from_str("stream"), text_value(&o.stream)));
    fs.push((String::from_str("order"), number_value(o.order)));
    fs.push((String::from_str("streamType"), JsonValue::Str(String::from_str(o.stream_type.name()))));
    proof {
        reveal_with_fuel(field_of, 4);
        assert("stream"@ =~= key_stream());
        assert("order"@ =~= key_order());
        assert("streamType"@ =~= key_stream_type());
        let s0 = fs@;
        let s1 = s0.drop_first();
        let s2 = s1.drop_first();
        assert(s1[0] == s0[1] && s2[0] == s0[2] && s2.drop_first().len() == 0);
        assert(key_order() != key_stream() && key_stream_type() != key_stream());
        assert(key_stream_type() != key_order());
        assert(field_of(s0, key_stream()) == Some(s0[0].1));
        assert(field_of(s0, key_order()) == Some(s0[1].1));
        assert(field_of(s0, key_stream_type()) == Some(s0[2].1));
        lemma_stream_type_names_exist(o.stream_type);
        assert forall|i: int| 0 <= i < fs@.len() implies integer_numbers(#[trigger] fs@[i].1) by {}
    }
    JsonValue::Object(fs)
}

/// The record of a transform: `function`, `name`, `params`, `numArgs`,
/// `transType` (null when the transform names no engine) and, for a
/// stream-bound transform, `streams`.
pub fn encode_transform(t: &Transform) -> (r: JsonValue)
    ensures
        transform_record(r, *t),
        encoded_transform(r, *t),
        integer_numbers(r),
{
    proof {
        reveal_strlit("function");
        reveal_strlit("name");
        reveal_strlit("params");
        reveal_strlit("numArgs");
        reveal_strlit("transType");
        reveal_strlit("streams");
    }
    let mut fs: Vec<(String, JsonValue)> = Vec::new();
    fs.push((String::from_str("function"), text_value(&t.function)));
    fs.push((String::from_str("name"), text_value(&t.name)));
    fs.push((String::from_str("params"), text_value(&t.params)));
    fs.push((String::from_str("numArgs"), number_value(t.num_args)));
    let tt = match t.trans_type {
        Some(n) => number_value(n),
        None => JsonValue::Null,
    };
    fs.push((String::from_str("transType"), tt));
    let ghost five = fs@;
    match &t.streams {
        Some(v) => {
            let mut items: Vec<JsonValue> = Vec::new();
            let mut i: usize = 0;
            while i < v.len()
                invariant
                    i <= v@.len(),
                    items@.len() == i,
                    forall|k: int| 0 <= k < i ==> order_record(#[trigger] items@[k], v@[k]),
                    forall|k: int| 0 <= k < i ==> encoded_order(#[trigger] items@[k], v@[k]),
                    forall|k: int| 0 <= k < i ==> integer_numbers(#[trigger] items@[k]),
                decreases v@.len() - i,
            {
                items.push(encode_stream_order(&v[i]));
                i = i + 1;
            }
            let arr = JsonValue::Array(items);
            proof { assert(integer_numbers(arr)); }
            fs.push((String::from_str("streams"), arr));
        },
        None => {},
    }
    proof {
        reveal_with_fuel(field_of, 7);
        assert("function"@ =~= key_function());
        assert("name"@ =~= key_name());
        assert("params"@ =~= key_params());
        assert("numArgs"@ =~= key_num_args());
        assert("transType"@ =~= key_trans_type());
        assert("streams"@ =~= key_streams());
        let ks = seq![key_function(), key_name(), key_params(), key_num_args(), key_trans_type(), key_streams()];
        assert forall|a: int, b: int| 0 <= a < b < 6 implies ks[a] != ks[b] by {
            assert(ks[a].len() != ks[b].len() || ks[a][0] != ks[b][0]);
        }
        assert(fs@[0].0@ == ks[0] && fs@[1].0@ == ks[1] && fs@[2].0@ == ks[2]);
        assert(fs@[3].0@ == ks[3] && fs@[4].0@ == ks[4]);
        assert(fs@.drop_first().drop_first().drop_first().drop_first().drop_first() =~= fs@.skip(5));
        assert(fs@.drop_first().drop_first().drop_first().drop_first() =~= fs@.skip(4));
        assert(fs@.drop_first().drop_first().drop_first() =~= fs@.skip(3));
        assert(fs@.drop_first().drop_first() =~= fs@.skip(2));
        assert(fs@.drop_first() =~= fs@.skip(1));
        assert(fs@.skip(4)[0] == fs@[4]);
        assert(fs@.skip(3)[0] == fs@[3]);
        assert(fs@.skip(2)[0] == fs@[2]);
        assert(fs@.skip(1)[0] == fs@[1]);
        if t.streams is Some {
            assert(fs@[5].0@ == ks[5]);
            assert(fs@.skip(5)[0] == fs@[5]);
            assert(fs@.skip(5).drop_first().len() == 0);
        } else {
            assert(fs@.skip(5).len() == 0);
        }
        assert(field_of(fs@, key_function()) == Some(fs@[0].1));
        assert(field_of(fs@, key_name()) == Some(fs@[1].1));
        assert(field_of(fs@, key_params()) == Some(fs@[2].1));
        assert(field_of(fs@, key_num_args()) == Some(fs@[3].1));
        assert(field_of(fs@, key_trans_type()) == Some(fs@[4].1));
        assert forall|i: int| 0 <= i < fs@.len() implies integer_numbers(#[trigger] fs@[i].1) by {}
    }
    JsonValue::Object(fs)
}

/// Encoding and then decoding a transform gives back every field: a record
/// written for `t` is well-formed, and whatever it reads as agrees with `t`
/// in function, name, params, arity, engine and each binding.
pub proof fn lemma_round_trip(t: Transform, j: JsonValue, d: Transform)
    requires
        transform_record(j, t),
        transform_record(j, d),
    ensures
        transform_record_ok(j),
        same_fields(t, d),
{
    lemma_record_determines(j, t, d);
}

/// `j` is a list record `{"list": [...]}` whose items read as `ts`.
pub open spec fn list_record(j: JsonValue, ts: Seq<Transform>) -> bool {
    match j {
        JsonValue::Object(fs) => match field_of(fs@, key_list()) {
            Some(JsonValue::Array(items)) => items@.len() == ts.len() && forall|i: int|
                0 <= i < ts.len() ==> transform_record(#[trigger] items@[i], ts[i]),
            _ => false,
        },
        _ => false,
    }
}

/// `j` is a well-formed list record: an object whose `list` is an array of
/// transform records.
pub open spec fn list_record_ok(j: JsonValue) -> bool {
    match j {
        JsonValue::Object(fs) => match field_of(fs@, key_list()) {
            Some(JsonValue::Array(items)) => forall|i: int|
                0 <= i < items@.len() ==> transform_record_ok(#[trigger] items@[i]),
            _ => false,
        },
        _ => false,
    }
}

/// Encoding and then decoding a list of transforms keeps its length and
/// every field of every item.
pub proof fn lemma_list_round_trip(j: JsonValue, ts: Seq<Transform>, ds: Seq<Transform>)
    requires
        list_record(j, ts),
        list_record(j, ds),
    ensures
        ts.len() == ds.len(),
        forall|i: int| 0 <= i < ts.len() ==> same_fields(#[trigger] ts[i], ds[i]),
{
    if let JsonValue::Object(fs) = j {
        if let Some(JsonValue::Array(items)) = field_of(fs@, key_list()) {
            assert forall|i: int| 0 <= i < ts.len() implies same_fields(#[trigger] ts[i], ds[i]) by {
                lemma_record_determines(items@[i], ts[i], ds[i]);
            }
        }
    }
}

impl FunctionList {
    /// The record `{"list": [...]}` of the list.
    pub fn encode(&self) -> (r: JsonValue)
        ensures
            list_record(r, self.list@),
            integer_numbers(r),
    {
        proof { reveal_strlit("list"); }
        let mut items: Vec<JsonValue> = Vec::new();
        let mut i: usize = 0;
        while i < self.list.len()
            invariant
                i <= self.list@.len(),
                items@.len() == i,
                forall|k: int| 0 <= k < i ==> transform_record(#[trigger] items@[k], self.list@[k]),
                forall|k: int| 0 <= k < i ==> integer_numbers(#[trigger] items@[k]),
            decreases self.list@.len() - i,
        {
            items.push(encode_transform(&self.list[i]));
            i = i + 1;
        }
        let arr = JsonValue::Array(items);
        proof { assert(integer_numbers(arr)); }
        let mut fs: Vec<(String, JsonValue)> = Vec::new();
        fs.push((String::from_str("list"), arr));
        proof {
            assert forall|k: int| 0 <= k < fs@.len() implies integer_numbers(#[trigger] fs@[k].1) by {}
            reveal_with_fuel(field_of, 2);
            assert("list"@ =~= key_list());
        }
        JsonValue::Object(fs)
    }

    /// Reads a list record; `None` where `j` is not one.
    pub fn decode(j: &JsonValue) -> (r: Option<FunctionList>)
        ensures
            r is Some <==> list_record_ok(*j),
            r matches Some(l) ==> list_record(*j, l.list@),
    {
        proof {
            reveal_strlit("list");
            assert("list"@ =~= key_list());
        }
        match j {
            JsonValue::Object(fs) => match find_field(fs, "list") {
                Some(JsonValue::Array(items)) => {
                    let mut out: Vec<Transform> = Vec::new();
                    let mut i: usize = 0;
                    while i < items.len()
                        invariant
                            j is Object && j->Object_0 == *fs,
                            field_of(fs@, key_list()) == Some(JsonValue::Array(*items)),
                            i <= items@.len(),
                            out@.len() == i,
                            forall|k: int| 0 <= k < i ==> transform_record(#[trigger] items@[k], out@[k]),
                        decreases items@.len() - i,
                    {
                        match decode_transform(&items[i]) {
                            Some(t) => out.push(t),
                            None => {
                                proof {
                                    assert(!transform_record_ok(items@[i as int]));
                                    let ghost jj = field_of(fs@, key_list())->0;
                                    assert(jj->Array_0@[i as int] == items@[i as int]);
                                    assert(!list_record_ok(*j));
                                }
                                return None;
                            },
                        }
                        i = i + 1;
                    }
                    Some(FunctionList { list: out })
                },
                _ => None,
            },
            _ => None,
        }
    }

    /// The JSON text of the list's record.
    pub fn to_json(&self) -> (r: Option<String>)
        ensures
            r matches Some(s) && exists|j: JsonValue| list_record(j, self.list@) && s@ == json_text_of(j),
    {
        let j = self.encode();
        let r = to_json_text(&j);
        proof { assert(list_record(j, self.list@) && r->0@ == json_text_of(j)); }
        r
    }

    /// Reads a list from JSON text.
    pub fn from_json(b: &[u8]) -> (r: Option<FunctionList>)
        ensures
            r is Some <==> (json_of_bytes(b@) matches Some(j) && list_record_ok(j)),
            r matches Some(l) ==> list_record(json_of_bytes(b@)->0, l.list@),
    {
        match parse_json(b) {
            Some(j) => FunctionList::decode(&j),
            None => None,
        }
    }
}

impl Transform {
    /// The JSON text of the transform's record.
    pub fn to_json(&self) -> (r: Option<String>)
        ensures
            r matches Some(s) && exists|j: JsonValue|
                encoded_transform(j, *self) && transform_record(j, *self) && s@ == json_text_of(j),
    {
        let j = encode_transform(self);
        let r = to_json_text(&j);
        proof { assert(encoded_transform(j, *self) && r->0@ == json_text_of(j)); }
        r
    }

    /// Reads a transform from the JSON text of its record.
    pub fn from_json(b: &[u8]) -> (r: Option<Transform>)
        ensures
            r is Some <==> (json_of_bytes(b@) matches Some(j) && transform_record_ok(j)),
            r matches Some(t) ==> transform_record(json_of_bytes(b@)->0, t),
    {
        match parse_json(b) {
            Some(j) => decode_transform(&j),
            None => None,
        }
    }
}

/// `j` is an object whose `name` and `text` fields are strings.
pub open spec fn zo_record_ok(j: JsonValue) -> bool {
    &&& j is Object
    &&& field_of(j->Object_0@, key_name()) matches Some(JsonValue::Str(_))
    &&& field_of(j->Object_0@, key_text()) matches Some(JsonValue::Str(_))
}

/// Function record `j` holds name `n` and text `t`.
pub open spec fn zo_record(j: JsonValue, n: Seq<char>, t: Seq<char>) -> bool {
    &&& zo_record_ok(j)
    &&& field_of(j->Object_0@, key_name())->0->Str_0@ == n
    &&& field_of(j->Object_0@, key_text())->0->Str_0@ == t
}

impl<'a> ZoFunction<'a> {
    /// The record `{"name": ..., "text": ...}` of the function.
    pub fn encode(&self) -> (r: JsonValue)
        ensures
            zo_record(r, self.name@, self.text@),
            r->Object_0@.len() == 2,
            integer_numbers(r),
    {
        proof {
            reveal_strlit("name");
            reveal_strlit("text");
            assert("name"@ =~= key_name());
            assert("text"@ =~= key_text());
        }
        let mut fs: Vec<(String, JsonValue)> = Vec::new();
        fs.push((String::from_str("name"), JsonValue::Str(String::from_str(self.name))));
        fs.push((String::from_str("text"), JsonValue::Str(String::from_str(self.text))));
        proof {
            reveal_with_fuel(field_of, 3);
            assert(fs@.drop_first()[0] == fs@[1]);
            assert(field_of(fs@, key_text()) == Some(fs@[1].1));
            assert forall|k: int| 0 <= k < fs@.len() implies integer_numbers(#[trigger] fs@[k].1) by {}
        }
        JsonValue::Object(fs)
    }

    /// The JSON text of the function's record.
    pub fn to_json(&self) -> (r: Option<String>)
        ensures
            r matches Some(s) && exists|j: JsonValue|
                zo_record(j, self.name@, self.text@) && j->Object_0@.len() == 2 && s@ == json_text_of(j),
    {
        let j = self.encode();
        let r = to_json_text(&j);
        proof { assert(zo_record(j, self.name@, self.text@) && r->0@ == json_text_of(j)); }
        r
    }

    /// The name and text of a function record; `None` where `j` is not an
    /// object with string `name` and `text`.
    pub fn decode_parts(j: &JsonValue) -> (r: Option<(String, String)>)
        ensures
            r is Some <==> zo_record_ok(*j),
            r matches Some(p) ==> zo_record(*j, p.0@, p.1@),
    {
        proof {
            reveal_strlit("name");
            reveal_strlit("text");
            assert("name"@ =~= key_name());
            assert("text"@ =~= key_text());
        }
        match j {
            JsonValue::Object(fs) => match (find_field(fs, "name"), find_field(fs, "text")) {
                (Some(JsonValue::Str(n)), Some(JsonValue::Str(t))) => Some((n.clone(), t.clone())),
                _ => None,
            },
            _ => None,
        }
    }

    /// The name and text of a function, read from the JSON text of its record.
    pub fn parts_from_json(b: &[u8]) -> (r: Option<(String, String)>)
        ensures
            r is Some <==> (json_of_bytes(b@) matches Some(j) && zo_record_ok(j)),
            r matches Some(p) ==> zo_record(json_of_bytes(b@)->0, p.0@, p.1@),
    {
        match parse_json(b) {
            Some(j) => ZoFunction::decode_parts(&j),
            None => None,
        }
    }
}

} // verus!
