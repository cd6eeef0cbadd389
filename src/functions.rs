//! Transforms, their stream bindings, and the expansion of a binding into one
//! entry per target stream.

use vstd::prelude::*;

verus! {

/// The kind of data a stream holds.
#[derive(Clone, Copy, Debug, PartialEq, Eq, Structural)]
pub enum StreamType {
    Logs,
    Metrics,
    Traces,
    EnrichmentTables,
    Filelist,
    Metadata,
}

/// The lower-case name of a stream type, as it appears in cache keys.
pub open spec fn stream_type_name(t: StreamType) -> Seq<char> {
    match t {
        StreamType::Logs => seq!['l', 'o', 'g', 's'],
        StreamType::Metrics => seq!['m', 'e', 't', 'r', 'i', 'c', 's'],
        StreamType::Traces => seq!['t', 'r', 'a', 'c', 'e', 's'],
        StreamType::EnrichmentTables => seq![
            'e', 'n', 'r', 'i', 'c', 'h', 'm', 'e', 'n', 't', '_', 't', 'a', 'b', 'l', 'e', 's',
        ],
        StreamType::Filelist => seq!['f', 'i', 'l', 'e', '_', 'l', 'i', 's', 't'],
        StreamType::Metadata => seq!['m', 'e', 't', 'a', 'd', 'a', 't', 'a'],
    }
}

impl StreamType {
    /// The lower-case name of the stream type.
    pub fn name(&self) -> (r: &'static str)
        ensures
            r@ == stream_type_name(*self),
    {
        match self {
            StreamType::Logs => {
                proof { reveal_strlit("logs"); }
                "logs"
            },
            StreamType::Metrics => {
                proof { reveal_strlit("metrics"); }
                "metrics"
            },
            StreamType::Traces => {
                proof { reveal_strlit("traces"); }
                "traces"
            },
            StreamType::EnrichmentTables => {
                proof { reveal_strlit("enrichment_tables"); }
                "enrichment_tables"
            },
            StreamType::Filelist => {
                proof { reveal_strlit("file_list"); }
                "file_list"
            },
            StreamType::Metadata => {
                proof { reveal_strlit("metadata"); }
                "metadata"
            },
        }
    }

    /// The stream type with the given lower-case name, if there is one.
    pub fn from_name(s: &str) -> (r: Option<StreamType>)
        ensures
            r matches Some(t) ==> stream_type_name(t) == s@,
            r is None ==> forall|t: StreamType| stream_type_name(t) != s@,
    {
        let all = [
            StreamType::Logs,
            StreamType::Metrics,
            StreamType::Traces,
            StreamType::EnrichmentTables,
            StreamType::Filelist,
            StreamType::Metadata,
        ];
        let mut i: usize = 0;
        while i < 6
            invariant
                all@ == seq![
                    StreamType::Logs,
                    StreamType::Metrics,
                    StreamType::Traces,
                    StreamType::EnrichmentTables,
                    StreamType::Filelist,
                    StreamType::Metadata,
                ],
                forall|k: int| 0 <= k < i ==> stream_type_name(#[trigger] all@[k]) != s@,
            decreases 6 - i,
        {
            let t = all[i];
            let n = t.name();
            if crate::text::starts_with_at(s, n, 0) && s.unicode_len() == n.unicode_len() {
                assert(s@ =~= s@.subrange(0, n@.len() as int));
                return Some(t);
            }
            proof {
                if s@.len() == n@.len() {
                    assert(s@.subrange(0, n@.len() as int) =~= s@);
                }
            }
            i = i + 1;
        }
        assert forall|t: StreamType| stream_type_name(t) != s@ by {
            match t {
                StreamType::Logs => assert(all@[0] == t),
                StreamType::Metrics => assert(all@[1] == t),
                StreamType::Traces => assert(all@[2] == t),
                StreamType::EnrichmentTables => assert(all@[3] == t),
                StreamType::Filelist => assert(all@[4] == t),
                StreamType::Metadata => assert(all@[5] == t),
            }
        }
        None
    }
}

/// One binding of a transform to a stream: the stream's name, the position of
/// the transform in the stream's chain, and the stream's type.
#[derive(Clone, Debug)]
pub struct StreamOrder {
    pub stream: String,
    pub order: u8,
    pub stream_type: StreamType,
}

/// A named, user-authored function. With `streams` set it is applied to every
/// record of the listed streams; without, it is a query-time function.
#[derive(Clone, Debug)]
pub struct Transform {
    pub function: String,
    pub name: String,
    pub params: String,
    pub num_args: u8,
    /// The engine: 0 for the expression language, 1 for the scripting language.
    pub trans_type: Option<u8>,
    pub streams: Option<Vec<StreamOrder>>,
}

/// A transform bound to exactly one stream.
#[derive(Clone, Debug)]
pub struct StreamTransform {
    pub transform: Transform,
    pub stream: String,
    pub order: u8,
    pub stream_type: StreamType,
}

/// A function name with its source text.
#[derive(Clone, Debug)]
pub struct ZoFunction<'a> {
    pub name: &'a str,
    pub text: &'a str,
}

/// A list of transforms.
#[derive(Clone, Debug)]
pub struct FunctionList {
    pub list: Vec<Transform>,
}

/// The ordered chain of transforms bound to one stream.
#[derive(Clone, Debug)]
pub struct StreamFunctionsList {
    pub list: Vec<StreamTransform>,
}

/// The engine a transform gets when its record does not name one.
pub fn default_trans_type() -> (r: Option<u8>)
    ensures
        r == Some(0u8),
{
    Some(0)
}

/// Two transforms are the same function when name, source and parameters agree.
pub open spec fn same_transform(a: Transform, b: Transform) -> bool {
    a.name@ == b.name@ && a.function@ == b.function@ && a.params@ == b.params@
}

/// The key that identifies a stream binding: stream, transform name, stream type.
pub open spec fn binding_key(st: StreamTransform) -> (Seq<char>, Seq<char>, StreamType) {
    (st.stream@, st.transform.name@, st.stream_type)
}

impl PartialEq for Transform {
    fn eq(&self, other: &Self) -> (r: bool)
        ensures
            r == same_transform(*self, *other),
    {
        self.name == other.name && self.function == other.function && self.params == other.params
    }
}

impl vstd::std_specs::cmp::PartialEqSpecImpl for Transform {
    open spec fn obeys_eq_spec() -> bool {
        true
    }

    open spec fn eq_spec(&self, other: &Transform) -> bool {
        same_transform(*self, *other)
    }
}

impl PartialEq for StreamTransform {
    fn eq(&self, other: &Self) -> (r: bool)
        ensures
            r == (binding_key(*self) == binding_key(*other)),
    {
        self.stream == other.stream && self.transform.name == other.transform.name
            && self.stream_type == other.stream_type
    }
}

impl vstd::std_specs::cmp::PartialEqSpecImpl for StreamTransform {
    open spec fn obeys_eq_spec() -> bool {
        true
    }

    open spec fn eq_spec(&self, other: &StreamTransform) -> bool {
        binding_key(*self) == binding_key(*other)
    }
}

/// `t` with its stream bindings removed: the form a transform takes inside
/// each of its stream entries.
pub open spec fn unbound(t: Transform) -> Transform {
    Transform { streams: None, ..t }
}

/// Whether `st` is `t` bound to the target `o`.
pub open spec fn binds(st: StreamTransform, t: Transform, o: StreamOrder) -> bool {
    &&& st.transform == unbound(t)
    &&& st.stream == o.stream
    &&& st.order == o.order
    &&& st.stream_type == o.stream_type
}

/// The targets a transform is bound to; none for a query-time function.
pub open spec fn targets(t: Transform) -> Seq<StreamOrder> {
    match t.streams {
        Some(v) => v@,
        None => Seq::empty(),
    }
}

/// The stream entries of a transform, one per target, in target order.
pub open spec fn expansion(t: Transform) -> Seq<StreamTransform> {
    Seq::new(
        targets(t).len(),
        |i: int|
            StreamTransform {
                transform: unbound(t),
                stream: targets(t)[i].stream,
                order: targets(t)[i].order,
                stream_type: targets(t)[i].stream_type,
            },
    )
}

impl StreamOrder {
    /// A copy of the binding.
    pub fn copy(&self) -> (r: StreamOrder)
        ensures
            r == *self,
    {
        StreamOrder { stream: self.stream.clone(), order: self.order, stream_type: self.stream_type }
    }
}

impl Transform {
    /// A copy of the transform without its stream bindings.
    pub fn unbound_copy(&self) -> (r: Transform)
        ensures
            r == unbound(*self),
    {
        Transform {
            function: self.function.clone(),
            name: self.name.clone(),
            params: self.params.clone(),
            num_args: self.num_args,
            trans_type: self.trans_type,
            streams: None,
        }
    }

    /// Whether the transform is bound to streams.
    pub fn is_stream_bound(&self) -> (r: bool)
        ensures
            r == self.streams is Some,
    {
        self.streams.is_some()
    }

    /// One entry per target stream, in the order the targets are listed, each
    /// holding the transform without its bindings.
    pub fn to_stream_transform(&self) -> (r: Vec<StreamTransform>)
        ensures
            r@.len() == targets(*self).len(),
            forall|i: int|
                0 <= i < r@.len() ==> binds(#[trigger] r@[i], *self, targets(*self)[i]),
            r@ == expansion(*self),
    {
        let mut ret: Vec<StreamTransform> = Vec::new();
        if let Some(streams) = &self.streams {
            let mut i: usize = 0;
            while i < streams.len()
                invariant
                    self.streams == Some(*streams),
                    i <= streams@.len(),
                    ret@.len() == i,
                    forall|k: int| 0 <= k < i ==> binds(#[trigger] ret@[k], *self, streams@[k]),
                decreases streams@.len() - i,
            {
                let target = &streams[i];
                ret.push(
                    StreamTransform {
                        transform: self.unbound_copy(),
                        stream: target.stream.clone(),
                        order: target.order,
                        stream_type: target.stream_type,
                    },
                );
                i = i + 1;
            }
        }
        proof { assert(ret@ =~= expansion(*self)); }
        ret
    }
}

/// Identity of a transform does not depend on its stream bindings: a transform
/// is the same function as itself with the bindings cleared.
pub proof fn lemma_eq_ignores_bindings(t: Transform)
    ensures
        same_transform(t, unbound(t)),
        forall|s: Option<Vec<StreamOrder>>| same_transform(t, Transform { streams: s, ..t }),
{
}

/// Expanding a transform bound to `k` targets gives exactly `k` entries; entry
/// `i` carries target `i`'s stream, order and type and the unbound transform.
pub proof fn lemma_expansion(t: Transform, r: Seq<StreamTransform>)
    requires
        r.len() == targets(t).len(),
        forall|i: int| 0 <= i < r.len() ==> binds(#[trigger] r[i], t, targets(t)[i]),
    ensures
        t.streams matches Some(v) ==> r.len() == v@.len(),
        t.streams is None ==> r.len() == 0,
        forall|i: int|
            0 <= i < r.len() ==> {
                &&& (#[trigger] r[i]).stream == targets(t)[i].stream
                &&& r[i].order == targets(t)[i].order
                &&& r[i].stream_type == targets(t)[i].stream_type
                &&& r[i].transform.streams is None
                &&& same_transform(r[i].transform, t)
            },
{
}

} // verus!
