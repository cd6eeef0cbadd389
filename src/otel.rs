//! OpenTelemetry attribute values and their JSON form.

use vstd::prelude::*;
use crate::decimal::{decimal, int_decimal, to_decimal};
use crate::ingest::{int_to_text, set_field};
use crate::json::{to_json_text, JsonValue};
use crate::codec::field_of;

verus! {

/// The value of an attribute. A double is held as its decimal text.
#[derive(Debug)]
pub enum OtelValue {
    StringValue(String),
    BoolValue(bool),
    IntValue(i64),
    DoubleValue(String),
    ArrayValue(Vec<AnyValue>),
    KvlistValue(Vec<KeyValue>),
    BytesValue(Vec<u8>),
}

/// An attribute value that may be unset.
#[derive(Debug)]
pub struct AnyValue {
    pub value: Option<OtelValue>,
}

/// A named attribute.
#[derive(Debug)]
pub struct KeyValue {
    pub key: String,
    pub value: Option<AnyValue>,
}

/// The text of a boolean.
pub open spec fn bool_text(b: bool) -> Seq<char> {
    if b {
        seq!['t', 'r', 'u', 'e']
    } else {
        seq!['f', 'a', 'l', 's', 'e']
    }
}

fn bool_to_text(b: bool) -> (r: String)
    ensures
        r@ == bool_text(b),
{
    if b {
        proof { reveal_strlit("true"); }
        String::from_str("true")
    } else {
        proof { reveal_strlit("false"); }
        String::from_str("false")
    }
}

/// The JSON form of a byte: its decimal number.
pub open spec fn byte_json(j: JsonValue, b: u8) -> bool {
    j matches JsonValue::Number(t) && t@ == decimal(b as nat)
}

/// `j` is the JSON form of attribute value `a`: strings as they are;
/// booleans and numbers as such when `typed`, else as their text; arrays
/// element by element and key-value lists entry by entry, each in the untyped
/// form (the last entry of a key gives its value); bytes as an array of
/// numbers; null for an unset value.
pub open spec fn any_form(a: AnyValue, j: JsonValue, typed: bool) -> bool
    decreases a,
{
    match a.value {
        None => j is Null,
        Some(v) => match v {
            OtelValue::StringValue(s) => j is Str && j->Str_0@ == s@,
            OtelValue::BoolValue(b) => if typed {
                j == JsonValue::Bool(b)
            } else {
                j is Str && j->Str_0@ == bool_text(b)
            },
            OtelValue::IntValue(n) => if typed {
                j is Number && j->Number_0@ == int_decimal(n as int)
            } else {
                j is Str && j->Str_0@ == int_decimal(n as int)
            },
            OtelValue::DoubleValue(d) => if typed {
                j is Number && j->Number_0@ == d@
            } else {
                j is Str && j->Str_0@ == d@
            },
            OtelValue::ArrayValue(items) => {
                &&& j is Array
                &&& j->Array_0@.len() == items@.len()
                &&& forall|i: int|
                    0 <= i < items@.len() ==> any_form(#[trigger] items@[i], j->Array_0@[i], false)
            },
            OtelValue::KvlistValue(kvs) => {
                &&& j is Object
                &&& forall|i: int|
                    #![trigger kvs@[i]]
                    0 <= i < kvs@.len() && last_of_key(kvs@, i) ==> (field_of(
                        j->Object_0@,
                        kvs@[i].key@,
                    ) matches Some(x) && match kvs@[i].value {
                        None => x is Null,
                        Some(c) => any_form(c, x, false),
                    })
            },
            OtelValue::BytesValue(bs) => {
                &&& j is Array
                &&& j->Array_0@.len() == bs@.len()
                &&& forall|i: int| 0 <= i < bs@.len() ==> byte_json(#[trigger] j->Array_0@[i], bs@[i])
            },
        },
    }
}

/// Entry `i` is the last of its key among `kvs`.
pub open spec fn last_of_key(kvs: Seq<KeyValue>, i: int) -> bool {
    forall|m: int| i < m < kvs.len() ==> (#[trigger] kvs[m]).key@ != kvs[i].key@
}

/// `j` is the JSON form of an attribute value that may be absent.
pub open spec fn json_form(a: Option<AnyValue>, j: JsonValue, typed: bool) -> bool {
    match a {
        None => j is Null,
        Some(x) => any_form(x, j, typed),
    }
}

fn bytes_json(bs: &Vec<u8>) -> (r: JsonValue)
    ensures
        r matches JsonValue::Array(js) && js@.len() == bs@.len() && forall|i: int|
            0 <= i < bs@.len() ==> byte_json(#[trigger] js@[i], bs@[i]),
{
    let mut out: Vec<JsonValue> = Vec::new();
    let mut i: usize = 0;
    while i < bs.len()
        invariant
            i <= bs@.len(),
            out@.len() == i,
            forall|k: int|
                0 <= k < i ==> byte_json(#[trigger] out@[k], bs@[k]),
        decreases bs@.len() - i,
    {
        out.push(JsonValue::Number(to_decimal(bs[i] as u64)));
        i = i + 1;
    }
    JsonValue::Array(out)
}

fn any_json(a: &AnyValue, typed: bool) -> (r: JsonValue)
    ensures
        any_form(*a, r, typed),
    decreases a,
{
    {
        match &a.value {
            None => JsonValue::Null,
            Some(v) => match v {
                OtelValue::StringValue(s) => JsonValue::Str(s.clone()),
                OtelValue::BoolValue(b) => if typed {
                    JsonValue::Bool(*b)
                } else {
                    JsonValue::Str(bool_to_text(*b))
                },
                OtelValue::IntValue(n) => if typed {
                    JsonValue::Number(int_to_text(*n))
                } else {
                    JsonValue::Str(int_to_text(*n))
                },
                OtelValue::DoubleValue(d) => if typed {
                    JsonValue::Number(d.clone())
                } else {
                    JsonValue::Str(d.clone())
                },
                OtelValue::ArrayValue(items) => {
                    let mut out: Vec<JsonValue> = Vec::new();
                    let mut i: usize = 0;
                    while i < items.len()
                        invariant
                            a.value is Some && a.value->0 == *v,
                            v is ArrayValue && v->ArrayValue_0 == *items,
                            i <= items@.len(),
                            out@.len() == i,
                            forall|k: int| 0 <= k < i ==> any_form(#[trigger] items@[k], out@[k], false),
                        decreases items@.len() - i,
                    {
                        proof {
                            assert(decreases_to!(*a => a.value));
                            assert(decreases_to!(a.value => a.value->0));
                            assert(decreases_to!(*v => v->ArrayValue_0));
                            assert(decreases_to!(*items => items[i as int]));
                        }
                        out.push(any_json(&items[i], false));
                        i = i + 1;
                    }
                    JsonValue::Array(out)
                },
                OtelValue::KvlistValue(kvs) => {
                    let mut out: Vec<(String, JsonValue)> = Vec::new();
                    let mut i: usize = 0;
                    while i < kvs.len()
                        invariant
                            a.value is Some && a.value->0 == *v,
                            v is KvlistValue && v->KvlistValue_0 == *kvs,
                            i <= kvs@.len(),
                            forall|k: int|
                                #![trigger kvs@[k]]
                                0 <= k < i && last_of_key(kvs@.take(i as int), k) ==> (field_of(
                                    out@,
                                    kvs@[k].key@,
                                ) matches Some(x) && match kvs@[k].value {
                                    None => x is Null,
                                    Some(c) => any_form(c, x, false),
                                }),
                        decreases kvs@.len() - i,
                    {
                        proof {
                            assert(decreases_to!(*a => a.value));
                            assert(decreases_to!(a.value => a.value->0));
                            assert(decreases_to!(*v => v->KvlistValue_0));
                            assert(decreases_to!(*kvs => kvs[i as int]));
                            assert(decreases_to!(kvs[i as int] => kvs[i as int].value));
                        }
                        let child = match &kvs[i].value {
                            Some(c) => {
                                proof { assert(decreases_to!(kvs[i as int].value => kvs[i as int].value->0)); }
                                any_json(c, false)
                            },
                            None => JsonValue::Null,
                        };
                        let ghost before = out@;
                        let ghost cg = child;
                        set_field(&mut out, kvs[i].key.as_str(), child);
                        proof {
                            assert forall|k: int|
                                #![trigger kvs@[k]]
                                0 <= k < i + 1 && last_of_key(kvs@.take(i + 1), k) implies (field_of(
                                    out@,
                                    kvs@[k].key@,
                                ) matches Some(x) && match kvs@[k].value {
                                    None => x is Null,
                                    Some(c) => any_form(c, x, false),
                                }) by {
                                if k < i {
                                    assert(kvs@.take(i + 1)[i as int] == kvs@[i as int]);
                                    assert(kvs@[k].key@ != kvs@[i as int].key@);
                                    assert forall|m: int| k < m < i implies (#[trigger] kvs@.take(i as int)[m]).key@ != kvs@.take(i as int)[k].key@ by {
                                        assert(kvs@.take(i + 1)[m] == kvs@[m]);
                                    }
                                    assert(last_of_key(kvs@.take(i as int), k));
                                }
                            }
                        }
                        i = i + 1;
                    }
                    proof { assert(kvs@.take(i as int) =~= kvs@); }
                    JsonValue::Object(out)
                },
                OtelValue::BytesValue(bs) => bytes_json(bs),
            },
        }
    }
}

/// The JSON form of an attribute value: strings as they are, booleans and
/// numbers as their text, arrays and key-value lists element by element
/// (a later key replaces an earlier one), bytes as an array of numbers, and
/// null for an unset value.
pub fn get_val(attr_val: &Option<AnyValue>) -> (r: JsonValue)
    ensures
        json_form(*attr_val, r, false),
{
    match attr_val {
        Some(a) => any_json(a, false),
        None => JsonValue::Null,
    }
}

/// As `get_val`, but booleans and numbers keep their JSON type at the top level.
pub fn get_val_with_type_retained(attr_val: &Option<AnyValue>) -> (r: JsonValue)
    ensures
        json_form(*attr_val, r, true),
{
    match attr_val {
        Some(a) => any_json(a, true),
        None => JsonValue::Null,
    }
}

/// The text of the first value of an object: a string's characters, or the
/// JSON text of any other value; null for an empty object.
pub fn get_val_for_attr(attr_val: JsonValue) -> (r: JsonValue)
    requires
        attr_val is Object,
    ensures
        attr_val->Object_0@.len() == 0 ==> r is Null,
        attr_val->Object_0@.len() > 0 ==> r is Str,
        attr_val->Object_0@.len() > 0 ==> (attr_val->Object_0@[0].1 matches JsonValue::Str(s) ==> (
        r matches JsonValue::Str(t) && t@ == s@)),
        attr_val->Object_0@.len() > 0 && !(attr_val->Object_0@[0].1 is Str) && crate::json::integer_numbers(
            attr_val->Object_0@[0].1,
        ) ==> r->Str_0@ == crate::json::json_text_of(attr_val->Object_0@[0].1),
{
    match attr_val {
        JsonValue::Object(fields) => {
            if fields.len() == 0 {
                return JsonValue::Null;
            }
            match &fields[0].1 {
                JsonValue::Str(s) => JsonValue::Str(s.clone()),
                v => match to_json_text(v) {
                    Some(t) => JsonValue::Str(t),
                    None => JsonValue::Str(String::new()),
                },
            }
        },
        _ => JsonValue::Null,
    }
}

} // verus!
