//! Toxics: configured fault-injection effects attached to a proxy's
//! upstream or downstream stream.

use vstd::prelude::*;
use vstd::string::*;

verus! {

/// Attribute values carried by a toxic are unsigned integers.
pub type ToxicValueType = u32;

/// A toxicity is a probability in [0, 1] that the toxic applies to a
/// connection, held in thousandths so that it stays an exact integer.
#[derive(Clone, Copy, Debug, PartialEq, Eq, Structural)]
pub struct Toxicity {
    pub thousandths: u32,
}

/// How many thousandths make up the full toxicity of 1.0.
pub const TOXICITY_SCALE: u32 = 1000;

impl Toxicity {
    /// True when the held value is a probability, that is at most 1.0.
    pub open spec fn wf(self) -> bool {
        self.thousandths <= TOXICITY_SCALE
    }

    /// Build a toxicity from thousandths; rejects values above 1.0.
    pub fn new(thousandths: u32) -> (r: Option<Toxicity>)
        ensures
            thousandths <= TOXICITY_SCALE ==> r == Some(Toxicity { thousandths }),
            thousandths > TOXICITY_SCALE ==> r is None,
    {
        if thousandths <= TOXICITY_SCALE {
            Some(Toxicity { thousandths })
        } else {
            None
        }
    }

    /// The full toxicity of 1.0: the toxic applies to every connection.
    pub fn full() -> (r: Toxicity)
        ensures
            r == (Toxicity { thousandths: TOXICITY_SCALE }),
            r.wf(),
    {
        Toxicity { thousandths: TOXICITY_SCALE }
    }

    /// The zero toxicity of 0.0: the toxic applies to no connection.
    pub fn zero() -> (r: Toxicity)
        ensures
            r == (Toxicity { thousandths: 0 }),
            r.wf(),
    {
        Toxicity { thousandths: 0 }
    }
}

/// Mathematical model of a [`ToxicCondition`].
#[verifier::ext_equal]
pub ghost struct ConditionModel {
    pub matcher_type: Seq<char>,
    pub header_key: Seq<char>,
    pub header_value_regex: Seq<char>,
}

/// An optional matcher restricting which requests a toxic affects.
#[derive(Debug, PartialEq)]
pub struct ToxicCondition {
    pub matcher_type: String,
    pub header_key: String,
    pub header_value_regex: String,
}

impl View for ToxicCondition {
    type V = ConditionModel;

    open spec fn view(&self) -> ConditionModel {
        ConditionModel {
            matcher_type: self.matcher_type@,
            header_key: self.header_key@,
            header_value_regex: self.header_value_regex@,
        }
    }
}

/// The one matcher type the server understands: match on an HTTP header.
pub open spec fn http_header_matcher_type() -> Seq<char> {
    "httpRequestHeaderMatcher"@
}

impl ToxicCondition {
    /// Build a condition that scopes a toxic to requests whose header
    /// `header_key` matches `header_value_regex`.
    pub fn new_http_request_header_matcher(header_key: String, header_value_regex: String) -> (r:
        Self)
        ensures
            r@ == (ConditionModel {
                matcher_type: http_header_matcher_type(),
                header_key: header_key@,
                header_value_regex: header_value_regex@,
            }),
    {
        ToxicCondition {
            matcher_type: "httpRequestHeaderMatcher".to_owned(),
            header_key,
            header_value_regex,
        }
    }
}

impl Clone for ToxicCondition {
    fn clone(&self) -> (r: Self)
        ensures
            r@ == self@,
    {
        ToxicCondition {
            matcher_type: self.matcher_type.clone(),
            header_key: self.header_key.clone(),
            header_value_regex: self.header_value_regex.clone(),
        }
    }
}

/// Mathematical model of a [`ToxicPack`].
#[verifier::ext_equal]
pub ghost struct ToxicModel {
    pub name: Seq<char>,
    pub kind: Seq<char>,
    pub stream: Seq<char>,
    pub toxicity: Toxicity,
    pub attributes: Seq<(Seq<char>, ToxicValueType)>,
    pub condition: Option<ConditionModel>,
}

/// The model of an attribute list: each key paired with its value, in order.
pub open spec fn attrs_view(attributes: Seq<(String, ToxicValueType)>) -> Seq<
    (Seq<char>, ToxicValueType),
> {
    attributes.map_values(|p: (String, ToxicValueType)| (p.0@, p.1))
}

/// The model of an optional condition.
pub open spec fn condition_view(condition: Option<ToxicCondition>) -> Option<ConditionModel> {
    match condition {
        Some(c) => Some(c@),
        None => None,
    }
}

/// The name the server derives for a toxic: its kind and its stream,
/// joined by an underscore.
pub open spec fn derived_toxic_name(kind: Seq<char>, stream: Seq<char>) -> Seq<char> {
    kind + "_"@ + stream
}

/// Config of a toxic as sent to and echoed by the server.
#[derive(Debug, PartialEq)]
pub struct ToxicPack {
    pub name: String,
    pub kind: String,
    pub stream: String,
    pub toxicity: Toxicity,
    pub attributes: Vec<(String, ToxicValueType)>,
    pub condition: Option<ToxicCondition>,
}

impl View for ToxicPack {
    type V = ToxicModel;

    open spec fn view(&self) -> ToxicModel {
        ToxicModel {
            name: self.name@,
            kind: self.kind@,
            stream: self.stream@,
            toxicity: self.toxicity,
            attributes: attrs_view(self.attributes@),
            condition: condition_view(self.condition),
        }
    }
}

/// The model of a freshly built toxic: every field as given, and the
/// name derived from the kind and the stream.
pub open spec fn toxic_model(
    kind: Seq<char>,
    stream: Seq<char>,
    toxicity: Toxicity,
    attributes: Seq<(Seq<char>, ToxicValueType)>,
    condition: Option<ConditionModel>,
) -> ToxicModel {
    ToxicModel {
        name: derived_toxic_name(kind, stream),
        kind,
        stream,
        toxicity,
        attributes,
        condition,
    }
}

/// True when some toxic of the list carries this name.
pub open spec fn toxic_name_on(toxics: Seq<ToxicModel>, name: Seq<char>) -> bool {
    exists|i: int| 0 <= i < toxics.len() && toxics[i].name == name
}

/// No two attributes of the list share a key, as the keys of a JSON
/// object must not.
pub open spec fn attr_keys_unique(attributes: Seq<(Seq<char>, ToxicValueType)>) -> bool {
    forall|i: int, j: int|
        0 <= i < j < attributes.len() ==> attributes[i].0 != attributes[j].0
}

/// A latency toxic: delays data by `latency` ms, varied by `jitter` ms.
pub open spec fn latency_toxic(
    stream: Seq<char>,
    latency: ToxicValueType,
    jitter: ToxicValueType,
    toxicity: Toxicity,
    condition: Option<ConditionModel>,
) -> ToxicModel {
    toxic_model(
        "latency"@,
        stream,
        toxicity,
        seq![("latency"@, latency), ("jitter"@, jitter)],
        condition,
    )
}

/// A bandwidth toxic: caps throughput at `rate` KB/s.
pub open spec fn bandwidth_toxic(
    stream: Seq<char>,
    rate: ToxicValueType,
    toxicity: Toxicity,
    condition: Option<ConditionModel>,
) -> ToxicModel {
    toxic_model("bandwidth"@, stream, toxicity, seq![("rate"@, rate)], condition)
}

/// A slow-close toxic: keeps the connection open `delay` ms after closing.
pub open spec fn slow_close_toxic(
    stream: Seq<char>,
    delay: ToxicValueType,
    toxicity: Toxicity,
    condition: Option<ConditionModel>,
) -> ToxicModel {
    toxic_model("slow_close"@, stream, toxicity, seq![("delay"@, delay)], condition)
}

/// A timeout toxic: stops data and closes after `timeout` ms.
pub open spec fn timeout_toxic(
    stream: Seq<char>,
    timeout: ToxicValueType,
    toxicity: Toxicity,
    condition: Option<ConditionModel>,
) -> ToxicModel {
    toxic_model("timeout"@, stream, toxicity, seq![("timeout"@, timeout)], condition)
}

/// A slicer toxic: slices data into pieces around `average_size` bytes.
pub open spec fn slicer_toxic(
    stream: Seq<char>,
    average_size: ToxicValueType,
    size_variation: ToxicValueType,
    delay: ToxicValueType,
    toxicity: Toxicity,
    condition: Option<ConditionModel>,
) -> ToxicModel {
    toxic_model(
        "slicer"@,
        stream,
        toxicity,
        seq![
            ("average_size"@, average_size),
            ("size_variation"@, size_variation),
            ("delay"@, delay),
        ],
        condition,
    )
}

/// A limit-data toxic: closes the connection after `bytes` bytes.
pub open spec fn limit_data_toxic(
    stream: Seq<char>,
    bytes: ToxicValueType,
    toxicity: Toxicity,
    condition: Option<ConditionModel>,
) -> ToxicModel {
    toxic_model("limit_data"@, stream, toxicity, seq![("bytes"@, bytes)], condition)
}

impl ToxicPack {
    /// Build a toxic without a condition; the name is derived from the
    /// kind and the stream.
    pub fn new(
        kind: String,
        stream: String,
        toxicity: Toxicity,
        attributes: Vec<(String, ToxicValueType)>,
    ) -> (r: Self)
        requires
            toxicity.wf(),
            attr_keys_unique(attrs_view(attributes@)),
        ensures
            r@ == toxic_model(kind@, stream@, toxicity, attrs_view(attributes@), None),
    {
        Self::new_with_condition(kind, stream, toxicity, attributes, None)
    }

    /// Build a toxic with an optional condition; the name is derived
    /// from the kind and the stream.
    pub fn new_with_condition(
        kind: String,
        stream: String,
        toxicity: Toxicity,
        attributes: Vec<(String, ToxicValueType)>,
        condition: Option<ToxicCondition>,
    ) -> (r: Self)
        requires
            toxicity.wf(),
            attr_keys_unique(attrs_view(attributes@)),
        ensures
            r@ == toxic_model(
                kind@,
                stream@,
                toxicity,
                attrs_view(attributes@),
                condition_view(condition),
            ),
    {
        let mut name = kind.clone();
        name.append("_");
        name.append(stream.as_str());
        ToxicPack { name, kind, stream, toxicity, attributes, condition }
    }
}

/// Deep copy of an attribute list, preserving its model.
fn clone_attributes(attributes: &Vec<(String, ToxicValueType)>) -> (r: Vec<
    (String, ToxicValueType),
>)
    ensures
        attrs_view(r@) == attrs_view(attributes@),
{
    let mut r: Vec<(String, ToxicValueType)> = Vec::new();
    let mut i: usize = 0;
    while i < attributes.len()
        invariant
            i <= attributes.len(),
            r@.len() == i,
            forall|j: int|
                0 <= j < i ==> r@[j].0@ == attributes@[j].0@ && r@[j].1 == attributes@[j].1,
        decreases attributes.len() - i,
    {
        let pair = (attributes[i].0.clone(), attributes[i].1);
        r.push(pair);
        i += 1;
    }
    proof {
        assert(attrs_view(r@) =~= attrs_view(attributes@));
    }
    r
}

impl Clone for ToxicPack {
    fn clone(&self) -> (r: Self)
        ensures
            r@ == self@,
    {
        ToxicPack {
            name: self.name.clone(),
            kind: self.kind.clone(),
            stream: self.stream.clone(),
            toxicity: self.toxicity,
            attributes: clone_attributes(&self.attributes),
            condition: match &self.condition {
                Some(c) => Some(c.clone()),
                None => None,
            },
        }
    }
}

} // verus!
