//! Names and routes: partition keys, stream names, severity names, and the
//! choice of the node a proxied request goes to.

use vstd::prelude::*;
use crate::text::{contains_seq, contains_str, push_char, push_str};

verus! {

// ---------------------------------------------------------------- partition keys

/// The longest partition key, in bytes, after which no character is added.
pub const MAX_KEY_LENGTH: usize = 100;

/// What `char::is_alphanumeric` says of a character.
pub uninterp spec fn alphanumeric(c: char) -> bool;

/// Relies on `char::is_alphanumeric`: alphabetic or numeric in Unicode's sense.
#[verifier::external_body]
fn is_alphanumeric(c: char) -> (r: bool)
    ensures
        r == alphanumeric(c),
{
    c.is_alphanumeric()
}

/// The number of bytes of a character in UTF-8.
pub open spec fn utf8_len(c: char) -> nat {
    if (c as u32) < 0x80 {
        1
    } else if (c as u32) < 0x800 {
        2
    } else if (c as u32) < 0x10000 {
        3
    } else {
        4
    }
}

/// The number of bytes of a text in UTF-8.
pub open spec fn utf8_bytes(s: Seq<char>) -> nat
    decreases s.len(),
{
    if s.len() == 0 {
        0
    } else {
        utf8_bytes(s.drop_last()) + utf8_len(s.last())
    }
}

fn char_utf8_len(c: char) -> (r: usize)
    ensures
        r == utf8_len(c),
{
    let v = c as u32;
    if v < 0x80 {
        1
    } else if v < 0x800 {
        2
    } else if v < 0x10000 {
        3
    } else {
        4
    }
}

/// Characters a partition key keeps.
pub open spec fn key_char(c: char) -> bool {
    alphanumeric(c) || c == '=' || c == '-' || c == '_'
}

/// The partition key made of the first `n` characters of `s`: the characters
/// it keeps, until the key is longer than `MAX_KEY_LENGTH` bytes.
pub open spec fn partition_key_prefix(s: Seq<char>, n: int) -> Seq<char>
    decreases n,
{
    if n <= 0 {
        Seq::empty()
    } else {
        let o = partition_key_prefix(s, n - 1);
        if utf8_bytes(o) > MAX_KEY_LENGTH {
            o
        } else if key_char(s[n - 1]) {
            o.push(s[n - 1])
        } else {
            o
        }
    }
}

proof fn lemma_partition_key_bound(s: Seq<char>, n: int)
    ensures
        utf8_bytes(partition_key_prefix(s, n)) <= MAX_KEY_LENGTH + 4,
    decreases n,
{
    if n > 0 {
        lemma_partition_key_bound(s, n - 1);
        let o = partition_key_prefix(s, n - 1);
        assert(o.push(s[n - 1]).drop_last() =~= o);
    }
}

proof fn lemma_partition_key_stops(s: Seq<char>, i: int, n: int)
    requires
        0 <= i <= n,
        utf8_bytes(partition_key_prefix(s, i)) > MAX_KEY_LENGTH,
    ensures
        partition_key_prefix(s, n) == partition_key_prefix(s, i),
    decreases n - i,
{
    if i < n {
        lemma_partition_key_stops(s, i, n - 1);
    }
}

/// The partition key of `input`: the letters, digits, `=`, `-` and `_` of it,
/// until the key is longer than `MAX_KEY_LENGTH` bytes.
pub fn format_partition_key(input: &str) -> (r: String)
    ensures
        r@ == partition_key_prefix(input@, input@.len() as int),
{
    let n = input.unicode_len();
    let mut output = String::new();
    let mut bytes: usize = 0;
    let mut i: usize = 0;
    while i < n
        invariant
            n == input@.len(),
            i <= n,
            output@ == partition_key_prefix(input@, i as int),
            bytes == utf8_bytes(output@),
        decreases n - i,
    {
        proof { lemma_partition_key_bound(input@, i as int); }
        if bytes > MAX_KEY_LENGTH {
            proof { lemma_partition_key_stops(input@, i as int, n as int); }
            return output;
        }
        let c = input.get_char(i);
        if is_alphanumeric(c) || c == '=' || c == '-' || c == '_' {
            let ghost before = output@;
            push_char(&mut output, c);
            proof { assert(output@.drop_last() =~= before); }
            bytes = bytes + char_utf8_len(c);
        }
        i = i + 1;
    }
    output
}

// ---------------------------------------------------------------- stream names

/// What `regex` makes of replacing every match of `pattern` in `text` by
/// `rep`; `None` where `pattern` is not a valid expression.
pub uninterp spec fn regex_replace_all(pattern: Seq<char>, text: Seq<char>, rep: Seq<char>) -> Option<Seq<char>>;

/// The text `_`.
pub open spec fn underscore() -> Seq<char> {
    seq!['_']
}

/// A character a stream name keeps: an ASCII letter or digit, `_` or `:`.
pub open spec fn stream_name_char(c: char) -> bool {
    ('a' <= c && c <= 'z') || ('A' <= c && c <= 'Z') || ('0' <= c && c <= '9') || c == '_' || c
        == ':'
}

/// `s` with each maximal run of characters that a stream name does not keep
/// replaced by one `_`.
pub open spec fn collapse_runs(s: Seq<char>) -> Seq<char>
    decreases s.len(),
{
    if s.len() == 0 {
        s
    } else {
        let p = collapse_runs(s.drop_last());
        if stream_name_char(s.last()) {
            p.push(s.last())
        } else if s.len() > 1 && !stream_name_char(s[s.len() - 2]) {
            p
        } else {
            p.push('_')
        }
    }
}

/// Relies on `regex::Regex::new` and `Regex::replace_all`: every
/// non-overlapping match, leftmost first, replaced by `rep`. With the
/// pattern `[^a-zA-Z0-9_:]+`, a match is a maximal run of characters outside
/// that class, so each such run becomes one copy of `rep`.
#[verifier::external_body]
fn replace_all_matches(pattern: &str, text: &str, rep: &str) -> (r: Option<String>)
    ensures
        r is Some <==> regex_replace_all(pattern@, text@, rep@) is Some,
        r matches Some(s) ==> regex_replace_all(pattern@, text@, rep@) == Some(s@),
        (pattern@ == stream_name_pattern() && rep@ == underscore()) ==> (r is Some && r->0@
            == collapse_runs(text@)),
{
    regex::Regex::new(pattern).ok().map(|re| re.replace_all(text, rep).into_owned())
}

/// Runs of characters other than ASCII letters, digits, `_` and `:`.
pub open spec fn stream_name_pattern() -> Seq<char> {
    seq!['[', '^', 'a', '-', 'z', 'A', '-', 'Z', '0', '-', '9', '_', ':', ']', '+']
}

/// A stream name with each run of characters other than ASCII letters,
/// digits, `_` and `:` replaced by one `_`.
pub open spec fn formatted_stream_name(s: Seq<char>) -> Seq<char> {
    collapse_runs(s)
}

/// The stream name with each run of characters other than ASCII letters,
/// digits, `_` and `:` replaced by one `_`.
pub fn format_stream_name(stream_name: &str) -> (r: String)
    ensures
        r@ == formatted_stream_name(stream_name@),
{
    proof {
        reveal_strlit("[^a-zA-Z0-9_:]+");
        reveal_strlit("_");
        assert("[^a-zA-Z0-9_:]+"@ =~= stream_name_pattern());
        assert("_"@ =~= seq!['_']);
    }
    match replace_all_matches("[^a-zA-Z0-9_:]+", stream_name, "_") {
        Some(s) => s,
        None => String::from_str(stream_name),
    }
}

/// The name a stream is stored under: as given when the schema store knows
/// it, else its formatted form.
pub fn resolve_stream_name(stream_name: &str, known: bool) -> (r: String)
    ensures
        known ==> r@ == stream_name@,
        !known ==> r@ == formatted_stream_name(stream_name@),
{
    if known {
        String::from_str(stream_name)
    } else {
        format_stream_name(stream_name)
    }
}

// ---------------------------------------------------------------- severity

/// The name of an OpenTelemetry severity number.
pub open spec fn severity_name(n: i32) -> Seq<char> {
    if n == 1 {
        seq!['T', 'r', 'a', 'c', 'e']
    }
    else if n == 2 {
        seq!['T', 'r', 'a', 'c', 'e', '2']
    }
    else if n == 3 {
        seq!['T', 'r', 'a', 'c', 'e', '3']
    }
    else if n == 4 {
        seq!['T', 'r', 'a', 'c', 'e', '4']
    }
    else if n == 5 {
        seq!['D', 'e', 'b', 'u', 'g']
    }
    else if n == 6 {
        seq!['D', 'e', 'b', 'u', 'g', '2']
    }
    else if n == 7 {
        seq!['D', 'e', 'b', 'u', 'g', '3']
    }
    else if n == 8 {
        seq!['D', 'e', 'b', 'u', 'g', '4']
    }
    else if n == 9 {
        seq!['I', 'n', 'f', 'o']
    }
    else if n == 10 {
        seq!['I', 'n', 'f', 'o', '2']
    }
    else if n == 11 {
        seq!['I', 'n', 'f', 'o', '3']
    }
    else if n == 12 {
        seq!['I', 'n', 'f', 'o', '4']
    }
    else if n == 13 {
        seq!['W', 'a', 'r', 'n', ' ']
    }
    else if n == 14 {
        seq!['W', 'a', 'r', 'n', '2']
    }
    else if n == 15 {
        seq!['W', 'a', 'r', 'n', '3']
    }
    else if n == 16 {
        seq!['W', 'a', 'r', 'n', '4']
    }
    else if n == 17 {
        seq!['E', 'r', 'r', 'o', 'r']
    }
    else if n == 18 {
        seq!['E', 'r', 'r', 'o', 'r', '2']
    }
    else if n == 19 {
        seq!['E', 'r', 'r', 'o', 'r', '3']
    }
    else if n == 20 {
        seq!['E', 'r', 'r', 'o', 'r', '4']
    }
    else if n == 21 {
        seq!['F', 'a', 't', 'a', 'l']
    }
    else if n == 22 {
        seq!['F', 'a', 't', 'a', 'l', '2']
    }
    else if n == 23 {
        seq!['F', 'a', 't', 'a', 'l', '3']
    }
    else if n == 24 {
        seq!['F', 'a', 't', 'a', 'l', '4']
    } else {
        seq!['U', 'n', 's', 'p', 'e', 'c', 'i', 'f', 'i', 'e', 'd']
    }
}

/// The name of a severity number; numbers outside 1 to 24 are "Unspecified".
pub fn get_severity_value(severity_number: i32) -> (r: String)
    ensures
        r@ == severity_name(severity_number),
{
    let s: &str = match severity_number {
        0 => {
            proof { reveal_strlit("Unspecified"); }
            "Unspecified"
        },
        1 => {
            proof { reveal_strlit("Trace"); }
            "Trace"
        },
        2 => {
            proof { reveal_strlit("Trace2"); }
            "Trace2"
        },
        3 => {
            proof { reveal_strlit("Trace3"); }
            "Trace3"
        },
        4 => {
            proof { reveal_strlit("Trace4"); }
            "Trace4"
        },
        5 => {
            proof { reveal_strlit("Debug"); }
            "Debug"
        },
        6 => {
            proof { reveal_strlit("Debug2"); }
            "Debug2"
        },
        7 => {
            proof { reveal_strlit("Debug3"); }
            "Debug3"
        },
        8 => {
            proof { reveal_strlit("Debug4"); }
            "Debug4"
        },
        9 => {
            proof { reveal_strlit("Info"); }
            "Info"
        },
        10 => {
            proof { reveal_strlit("Info2"); }
            "Info2"
        },
        11 => {
            proof { reveal_strlit("Info3"); }
            "Info3"
        },
        12 => {
            proof { reveal_strlit("Info4"); }
            "Info4"
        },
        13 => {
            proof { reveal_strlit("Warn "); }
            "Warn "
        },
        14 => {
            proof { reveal_strlit("Warn2"); }
            "Warn2"
        },
        15 => {
            proof { reveal_strlit("Warn3"); }
            "Warn3"
        },
        16 => {
            proof { reveal_strlit("Warn4"); }
            "Warn4"
        },
        17 => {
            proof { reveal_strlit("Error"); }
            "Error"
        },
        18 => {
            proof { reveal_strlit("Error2"); }
            "Error2"
        },
        19 => {
            proof { reveal_strlit("Error3"); }
            "Error3"
        },
        20 => {
            proof { reveal_strlit("Error4"); }
            "Error4"
        },
        21 => {
            proof { reveal_strlit("Fatal"); }
            "Fatal"
        },
        22 => {
            proof { reveal_strlit("Fatal2"); }
            "Fatal2"
        },
        23 => {
            proof { reveal_strlit("Fatal3"); }
            "Fatal3"
        },
        24 => {
            proof { reveal_strlit("Fatal4"); }
            "Fatal4"
        },
        _ => {
            proof { reveal_strlit("Unspecified"); }
            "Unspecified"
        },
    };
    String::from_str(s)
}

// ---------------------------------------------------------------- routing

/// The paths served by query nodes.
pub open spec fn querier_routes() -> Seq<Seq<char>> {
    seq![
        seq!['/', 's', 'u', 'm', 'm', 'a', 'r', 'y'],
        seq!['/', 's', 'c', 'h', 'e', 'm', 'a'],
        seq!['/', 's', 't', 'r', 'e', 'a', 'm', 's'],
        seq!['/', '_', 's', 'e', 'a', 'r', 'c', 'h'],
        seq!['/', '_', 'a', 'r', 'o', 'u', 'n', 'd'],
        seq!['/', '_', 'v', 'a', 'l', 'u', 'e', 's'],
        seq!['/', 'a', 'p', 'i', '/', 'c', 'a', 'c', 'h', 'e', '/', 's', 't', 'a', 't', 'u', 's'],
        seq!['/', 'p', 'r', 'o', 'm', 'e', 't', 'h', 'e', 'u', 's', '/', 'a', 'p', 'i', '/', 'v', '1', '/', 's', 'e', 'r', 'i', 'e', 's'],
        seq!['/', 'p', 'r', 'o', 'm', 'e', 't', 'h', 'e', 'u', 's', '/', 'a', 'p', 'i', '/', 'v', '1', '/', 'q', 'u', 'e', 'r', 'y', '_', 'r', 'a', 'n', 'g', 'e'],
        seq!['/', 'p', 'r', 'o', 'm', 'e', 't', 'h', 'e', 'u', 's', '/', 'a', 'p', 'i', '/', 'v', '1', '/', 'q', 'u', 'e', 'r', 'y'],
        seq!['/', 'p', 'r', 'o', 'm', 'e', 't', 'h', 'e', 'u', 's', '/', 'a', 'p', 'i', '/', 'v', '1', '/', 'm', 'e', 't', 'a', 'd', 'a', 't', 'a'],
        seq!['/', 'p', 'r', 'o', 'm', 'e', 't', 'h', 'e', 'u', 's', '/', 'a', 'p', 'i', '/', 'v', '1', '/', 'l', 'a', 'b', 'e', 'l', 's'],
        seq!['/', 'p', 'r', 'o', 'm', 'e', 't', 'h', 'e', 'u', 's', '/', 'a', 'p', 'i', '/', 'v', '1', '/', 'l', 'a', 'b', 'e', 'l', '/'],
    ]
}

/// Whether a path goes to a query node: it contains one of the query routes.
pub open spec fn is_querier_path(path: Seq<char>) -> bool {
    exists|i: int| 0 <= i < querier_routes().len() && contains_seq(path, #[trigger] querier_routes()[i])
}

/// Whether `path` goes to a query node.
pub fn check_querier_route(path: &str) -> (r: bool)
    ensures
        r == is_querier_path(path@),
{
    proof {
        reveal_strlit("/summary");
        reveal_strlit("/schema");
        reveal_strlit("/streams");
        reveal_strlit("/_search");
        reveal_strlit("/_around");
        reveal_strlit("/_values");
        reveal_strlit("/api/cache/status");
        reveal_strlit("/prometheus/api/v1/series");
        reveal_strlit("/prometheus/api/v1/query_range");
        reveal_strlit("/prometheus/api/v1/query");
        reveal_strlit("/prometheus/api/v1/metadata");
        reveal_strlit("/prometheus/api/v1/labels");
        reveal_strlit("/prometheus/api/v1/label/");
    }
    let routes: [&str; 13] = [
        "/summary",
        "/schema",
        "/streams",
        "/_search",
        "/_around",
        "/_values",
        "/api/cache/status",
        "/prometheus/api/v1/series",
        "/prometheus/api/v1/query_range",
        "/prometheus/api/v1/query",
        "/prometheus/api/v1/metadata",
        "/prometheus/api/v1/labels",
        "/prometheus/api/v1/label/",
    ];
    proof {
        assert(routes@[0]@ =~= querier_routes()[0]);
        assert(routes@[1]@ =~= querier_routes()[1]);
        assert(routes@[2]@ =~= querier_routes()[2]);
        assert(routes@[3]@ =~= querier_routes()[3]);
        assert(routes@[4]@ =~= querier_routes()[4]);
        assert(routes@[5]@ =~= querier_routes()[5]);
        assert(routes@[6]@ =~= querier_routes()[6]);
        assert(routes@[7]@ =~= querier_routes()[7]);
        assert(routes@[8]@ =~= querier_routes()[8]);
        assert(routes@[9]@ =~= querier_routes()[9]);
        assert(routes@[10]@ =~= querier_routes()[10]);
        assert(routes@[11]@ =~= querier_routes()[11]);
        assert(routes@[12]@ =~= querier_routes()[12]);
    }
    let mut i: usize = 0;
    while i < 13
        invariant
            forall|k: int| 0 <= k < 13 ==> (#[trigger] routes@[k])@ == querier_routes()[k],
            forall|k: int| 0 <= k < i ==> !contains_seq(path@, #[trigger] querier_routes()[k]),
        decreases 13 - i,
    {
        if contains_str(path, routes[i]) {
            return true;
        }
        i = i + 1;
    }
    false
}

/// Where a proxied request goes, or why it cannot go anywhere.
#[derive(Debug)]
pub struct URLDetails {
    pub is_error: bool,
    pub value: String,
}

/// The message for a role without online nodes.
pub open spec fn no_nodes_message(querier: bool) -> Seq<char> {
    if querier {
        seq!['N', 'o', ' ', 'o', 'n', 'l', 'i', 'n', 'e', ' ', 'q', 'u', 'e', 'r', 'i', 'e', 'r', ' ', 'n', 'o', 'd', 'e', 's']
    } else {
        seq!['N', 'o', ' ', 'o', 'n', 'l', 'i', 'n', 'e', ' ', 'i', 'n', 'g', 'e', 's', 't', 'e', 'r', ' ', 'n', 'o', 'd', 'e', 's']
    }
}

/// The target of a proxied request on `path`. A path for ingestion goes to
/// `ingester_srv_url` when one is set; otherwise the request goes to the node
/// at position `pick` (taken modulo their number) among the online nodes of
/// the path's role, and fails when there are none.
pub fn get_url(
    path: &str,
    ingester_srv_url: &str,
    querier_nodes: &Option<Vec<String>>,
    ingester_nodes: &Option<Vec<String>>,
    pick: usize,
) -> (r: URLDetails)
    ensures
        ({
            let q = is_querier_path(path@);
            let nodes = if q { *querier_nodes } else { *ingester_nodes };
            if !q && ingester_srv_url@.len() > 0 {
                !r.is_error && r.value@ == ingester_srv_url@ + path@
            } else if nodes is None || nodes->0@.len() == 0 {
                r.is_error && r.value@ == no_nodes_message(q)
            } else {
                !r.is_error && r.value@ == nodes->0@[pick as int % nodes->0@.len() as int]@ + path@
            }
        }),
{
    let q = check_querier_route(path);
    if !q && ingester_srv_url.unicode_len() > 0 {
        let mut v = String::from_str(ingester_srv_url);
        push_str(&mut v, path);
        return URLDetails { is_error: false, value: v };
    }
    let nodes = if q { querier_nodes } else { ingester_nodes };
    match nodes {
        Some(list) if list.len() > 0 => {
            let mut v = list[pick % list.len()].clone();
            push_str(&mut v, path);
            URLDetails { is_error: false, value: v }
        },
        _ => {
            proof {
                reveal_strlit("No online querier nodes");
                reveal_strlit("No online ingester nodes");
            }
            let msg = if q {
                String::from_str("No online querier nodes")
            } else {
                String::from_str("No online ingester nodes")
            };
            URLDetails { is_error: true, value: msg }
        },
    }
}

} // verus!
