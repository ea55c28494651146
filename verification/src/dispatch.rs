//! The dispatcher: finds the first rule whose pattern matches an inbound
//! topic, derives the wildcard captures, renders the field name and the
//! templated tags, reads the payload (raw text, or a structured document
//! through the configured paths), coerces the value, and assembles the
//! data point.
//!
//! Every failure here concerns one message only; the caller reports it
//! and goes on. When no timestamp is carried in the payload (a raw rule,
//! or no timestamp path), the data point leaves the timestamp empty and
//! the caller substitutes the wall-clock time; a configured timestamp
//! path whose node is missing is a per-message error.

use vstd::prelude::*;
use vstd::utf8::{valid_utf8, decode_utf8};
use crate::interpolate::{
    TemplateError,
    refs_positive,
    refs_resolvable,
    spec_max_ref,
    spec_render,
    lemma_render_succeeds_iff_enough,
};
use crate::json::{json_parses, parse_json, node_of};
use crate::mapping::{Mapping, MappingModel, Payload, PayloadModel, TagValue, TagValueModel};
use crate::topic::{
    count_singles,
    multi_only_last,
    spec_captures,
    spec_matches,
    spec_split,
    split_levels,
    topic_captures,
    topic_matches,
    lemma_captures_count,
};
use crate::value::{
    CoerceError,
    JsonNode,
    NodeModel,
    TypedValue,
    ValModel,
    coerce_node,
    coerce_text,
    spec_coerce_node,
    spec_coerce_text,
};

verus! {

/// One assembled data point, handed to the datastore collaborator. An
/// empty timestamp means none was extracted; the caller substitutes the
/// wall-clock time.
#[derive(Clone, Debug, PartialEq)]
pub struct DataPoint {
    pub timestamp: Option<u64>,
    pub field_name: String,
    pub value: TypedValue,
    pub tags: Vec<(String, TypedValue)>,
}

/// Mathematical model of a data point.
#[verifier::ext_equal]
pub struct DataPointModel {
    pub timestamp: Option<u64>,
    pub field_name: Seq<char>,
    pub value: ValModel,
    pub tags: Seq<(Seq<char>, ValModel)>,
}

impl View for DataPoint {
    type V = DataPointModel;

    open spec fn view(&self) -> DataPointModel {
        DataPointModel {
            timestamp: self.timestamp,
            field_name: self.field_name@,
            value: self.value@,
            tags: self.tags.deep_view(),
        }
    }
}

/// Rejections raised while processing one message; none of them outlives
/// the message.
#[derive(Clone, Copy, Debug, PartialEq, Eq, Structural)]
pub enum DispatchError {
    /// A raw-text payload whose bytes are not valid UTF-8.
    InvalidPayloadEncoding,
    /// A structured payload that does not decode and parse as a document.
    MalformedPayload,
    /// The value path matches no node.
    ValueNotFound,
    /// A timestamp path is configured but matches no node.
    TimestampNotFound,
    /// The timestamp node is not a non-negative integer.
    TimestampNotNumeric,
    /// A template reference with no capture to stand for it.
    Render(TemplateError),
    /// The extracted or raw value does not coerce to the declared kind.
    Coerce(CoerceError),
}

/// Relies on String::from_utf8: building text from bytes succeeds exactly
/// on valid UTF-8 and yields the decoded characters.
#[verifier::external_body]
fn utf8_to_string(bytes: Vec<u8>) -> (r: Option<String>)
    ensures
        (match r {
            Some(s) => valid_utf8(bytes@) && s@ == decode_utf8(bytes@),
            None => !valid_utf8(bytes@),
        }),
{
    String::from_utf8(bytes).ok()
}

// ---------------------------------------------------------------------------
// Rule selection
// ---------------------------------------------------------------------------

/// Finds the first rule whose pattern matches the topic: rules are tried
/// in configured order and the first match wins, with no tie-breaking by
/// specificity.
pub fn find_mapping(mappings: &Vec<Mapping>, topic: &str) -> (r: Option<usize>)
    ensures
        (match r {
            Some(i) => i < mappings.len() && spec_matches(
                mappings.deep_view()[i as int].topic,
                spec_split(topic@),
            ) && (forall|j: int| 0 <= j < i ==> !spec_matches(
                (#[trigger] mappings.deep_view()[j]).topic,
                spec_split(topic@),
            )),
            None => forall|j: int| 0 <= j < mappings.len() ==> !spec_matches(
                (#[trigger] mappings.deep_view()[j]).topic,
                spec_split(topic@),
            ),
        }),
{
    let levels = split_levels(topic);
    let mut i: usize = 0;
    while i < mappings.len()
        invariant
            i <= mappings.len(),
            levels.deep_view() == spec_split(topic@),
            forall|j: int| 0 <= j < i ==> !spec_matches(
                (#[trigger] mappings.deep_view()[j]).topic,
                spec_split(topic@),
            ),
        decreases mappings.len() - i,
    {
        proof {
            assert(mappings.deep_view()[i as int] == mappings[i as int]@);
        }
        if topic_matches(&mappings[i].topic, &levels) {
            return Some(i);
        }
        i += 1;
    }
    None
}

// ---------------------------------------------------------------------------
// Tag rendering
// ---------------------------------------------------------------------------

/// What rendering one compiled tag value yields: a fixed literal passes
/// through, a templated text renders over the captures.
pub open spec fn spec_render_tag(
    tv: TagValueModel,
    caps: Seq<Seq<char>>,
) -> Result<ValModel, DispatchError> {
    match tv {
        TagValueModel::Lit(v) => Ok(v),
        TagValueModel::Interp(ps) => if refs_resolvable(ps, caps.len() as nat) {
            Ok(ValModel::T(spec_render(ps, caps)))
        } else {
            Err(DispatchError::Render(TemplateError::UnresolvedReference))
        },
    }
}

/// What rendering the tag list yields: the first rejection, or every tag
/// rendered, in order.
pub open spec fn spec_render_tags(
    tags: Seq<(Seq<char>, TagValueModel)>,
    caps: Seq<Seq<char>>,
) -> Result<Seq<(Seq<char>, ValModel)>, DispatchError>
    decreases tags.len(),
{
    if tags.len() == 0 {
        Ok(Seq::empty())
    } else {
        match spec_render_tag(tags[0].1, caps) {
            Err(e) => Err(e),
            Ok(v) => match spec_render_tags(tags.skip(1), caps) {
                Err(e) => Err(e),
                Ok(rest) => Ok(seq![(tags[0].0, v)] + rest),
            },
        }
    }
}

impl TypedValue {
    /// A copy whose model is the original's.
    pub fn duplicate(&self) -> (r: TypedValue)
        ensures
            r@ == self@,
    {
        match self {
            TypedValue::Boolean(b) => TypedValue::Boolean(*b),
            TypedValue::Float(s) => TypedValue::Float(s.clone()),
            TypedValue::SignedInteger(v) => TypedValue::SignedInteger(*v),
            TypedValue::UnsignedInteger(v) => TypedValue::UnsignedInteger(*v),
            TypedValue::Text(s) => TypedValue::Text(s.clone()),
        }
    }
}

/// Renders every tag of a rule over the captures: fixed literals pass
/// through unchanged, templated texts render like the field name.
pub fn render_tags(tags: &Vec<(String, TagValue)>, captures: &Vec<String>) -> (r: Result<
    Vec<(String, TypedValue)>,
    DispatchError,
>)
    ensures
        (match r {
            Ok(out) => spec_render_tags(tags.deep_view(), captures.deep_view()) == Ok::<
                Seq<(Seq<char>, ValModel)>,
                DispatchError,
            >(out.deep_view()),
            Err(e) => spec_render_tags(tags.deep_view(), captures.deep_view()) == Err::<
                Seq<(Seq<char>, ValModel)>,
                DispatchError,
            >(e),
        }),
{
    let ghost gtags = tags.deep_view();
    let ghost caps = captures.deep_view();
    let mut out: Vec<(String, TypedValue)> = Vec::new();
    let mut i: usize = 0;
    proof {
        assert(gtags.skip(0) =~= gtags);
        assert(out.deep_view() =~= Seq::<(Seq<char>, ValModel)>::empty());
    }
    while i < tags.len()
        invariant
            i <= tags.len(),
            gtags == tags.deep_view(),
            caps == captures.deep_view(),
            gtags.len() == tags.len(),
            (match spec_render_tags(gtags, caps) {
                Ok(all) => spec_render_tags(gtags.skip(i as int), caps) matches Ok(rest) && all
                    == out.deep_view() + rest,
                Err(e) => spec_render_tags(gtags.skip(i as int), caps) == Err::<
                    Seq<(Seq<char>, ValModel)>,
                    DispatchError,
                >(e),
            }),
        decreases tags.len() - i,
    {
        proof {
            assert(gtags.skip(i as int)[0] == gtags[i as int]);
            assert(gtags[i as int] == tags[i as int].deep_view());
            assert(gtags.skip(i as int).skip(1) =~= gtags.skip(i + 1));
        }
        let pair = &tags[i];
        let value: TypedValue = match &pair.1 {
            TagValue::Literal(v) => v.duplicate(),
            TagValue::InterpolatedStr(name) => {
                match name.interpolate(captures) {
                    Ok(text) => TypedValue::Text(text),
                    Err(e) => {
                        proof {
                            assert(spec_render_tags(gtags.skip(i as int), caps) == Err::<
                                Seq<(Seq<char>, ValModel)>,
                                DispatchError,
                            >(DispatchError::Render(e)));
                        }
                        return Err(DispatchError::Render(e));
                    },
                }
            },
        };
        let ghost old_out = out.deep_view();
        let ghost value_model = value@;
        out.push((pair.0.clone(), value));
        proof {
            assert(out.deep_view() =~= old_out.push((pair.0@, value_model)));
            if spec_render_tags(gtags.skip(i + 1), caps) is Ok {
                assert(old_out + (seq![(gtags[i as int].0, value_model)] + spec_render_tags(
                    gtags.skip(i + 1),
                    caps,
                )->Ok_0) =~= out.deep_view() + spec_render_tags(gtags.skip(i + 1), caps)->Ok_0);
            }
        }
        i += 1;
    }
    proof {
        assert(gtags.skip(i as int) =~= Seq::<(Seq<char>, TagValueModel)>::empty());
        assert(out.deep_view() + Seq::<(Seq<char>, ValModel)>::empty() =~= out.deep_view());
    }
    Ok(out)
}

// ---------------------------------------------------------------------------
// Message processing
// ---------------------------------------------------------------------------

/// What processing a raw-payload message yields, step by step: captures,
/// field name, payload text, coercion, tags.
pub open spec fn spec_process_raw(
    m: MappingModel,
    topic: Seq<char>,
    payload: Seq<u8>,
) -> Result<DataPointModel, DispatchError> {
    let caps = spec_captures(m.topic, spec_split(topic));
    if !refs_resolvable(m.field_name, caps.len() as nat) {
        Err(DispatchError::Render(TemplateError::UnresolvedReference))
    } else if !valid_utf8(payload) {
        Err(DispatchError::InvalidPayloadEncoding)
    } else {
        match spec_coerce_text(decode_utf8(payload), m.value_type) {
            Err(e) => Err(DispatchError::Coerce(e)),
            Ok(v) => match spec_render_tags(m.tags, caps) {
                Err(e) => Err(e),
                Ok(tags) => Ok(DataPointModel {
                    timestamp: None,
                    field_name: spec_render(m.field_name, caps),
                    value: v,
                    tags: tags,
                }),
            },
        }
    }
}

/// What processing a structured-payload message yields, given the nodes
/// the value path and the timestamp path selected (`vnode`, `tnode`):
/// captures, field name, payload text, document parse, value node,
/// coercion, timestamp, tags.
pub open spec fn spec_process_json(
    m: MappingModel,
    topic: Seq<char>,
    payload: Seq<u8>,
    vnode: Option<NodeModel>,
    tnode: Option<NodeModel>,
) -> Result<DataPointModel, DispatchError> {
    let caps = spec_captures(m.topic, spec_split(topic));
    if !refs_resolvable(m.field_name, caps.len() as nat) {
        Err(DispatchError::Render(TemplateError::UnresolvedReference))
    } else if !valid_utf8(payload) || !json_parses(decode_utf8(payload)) {
        Err(DispatchError::MalformedPayload)
    } else {
        match vnode {
            None => Err(DispatchError::ValueNotFound),
            Some(n) => match spec_coerce_node(n, m.value_type) {
                Err(e) => Err(DispatchError::Coerce(e)),
                Ok(v) => {
                    let ts: Result<Option<u64>, DispatchError> = match m.payload {
                        PayloadModel::Json { timestamp_path: Some(_), .. } => match tnode {
                            None => Err(DispatchError::TimestampNotFound),
                            Some(NodeModel::Num { as_unsigned: Some(u), .. }) => Ok(Some(u)),
                            Some(_) => Err(DispatchError::TimestampNotNumeric),
                        },
                        _ => Ok(None),
                    };
                    match ts {
                        Err(e) => Err(e),
                        Ok(topt) => match spec_render_tags(m.tags, caps) {
                            Err(e) => Err(e),
                            Ok(tags) => Ok(DataPointModel {
                                timestamp: topt,
                                field_name: spec_render(m.field_name, caps),
                                value: v,
                                tags: tags,
                            }),
                        },
                    }
                },
            },
        }
    }
}

/// Processes one inbound message against one rule: derives the captures,
/// renders the field name, reads and coerces the payload value, extracts
/// the optional timestamp, renders the tags, and assembles the data
/// point. For a raw-payload rule the outcome is a function of the rule,
/// the topic and the payload alone; for a structured-payload rule it
/// additionally depends on which nodes the configured paths select.
pub fn process_message(mapping: &Mapping, topic: &str, payload: Vec<u8>) -> (r: Result<
    DataPoint,
    DispatchError,
>)
    ensures
        mapping@.payload is Raw ==> spec_process_raw(mapping@, topic@, payload@) == result_model(
            r,
        ),
        mapping@.payload is Json ==> (exists|vnode: Option<NodeModel>, tnode: Option<NodeModel>|
            spec_process_json(mapping@, topic@, payload@, vnode, tnode) == result_model(r)),
{
    let ghost m = mapping@;
    let ghost gpayload = payload@;
    let levels = split_levels(topic);
    let captures = topic_captures(&mapping.topic, &levels);
    let ghost caps = spec_captures(m.topic, spec_split(topic@));

    let field_name: String = match mapping.field_name.interpolate(&captures) {
        Ok(f) => f,
        Err(e) => {
            proof {
                witness_json(m, topic@, gpayload, r_err(DispatchError::Render(e)));
            }
            return Err(DispatchError::Render(e));
        },
    };

    let text: Option<String> = utf8_to_string(payload);

    match &mapping.payload {
        Payload::Raw => {
            let text: String = match text {
                Some(t) => t,
                None => {
                    return Err(DispatchError::InvalidPayloadEncoding);
                },
            };
            let value: TypedValue = match coerce_text(text.as_str(), mapping.value_type) {
                Ok(v) => v,
                Err(e) => {
                    return Err(DispatchError::Coerce(e));
                },
            };
            let tags: Vec<(String, TypedValue)> = match render_tags(&mapping.tags, &captures) {
                Ok(t) => t,
                Err(e) => {
                    return Err(e);
                },
            };
            Ok(DataPoint { timestamp: None, field_name, value, tags })
        },
        Payload::Json { value_selector, timestamp_selector } => {
            let text: String = match text {
                Some(t) => t,
                None => {
                    proof {
                        witness_json(m, topic@, gpayload, r_err(DispatchError::MalformedPayload));
                    }
                    return Err(DispatchError::MalformedPayload);
                },
            };
            let doc = match parse_json(text.as_str()) {
                Some(d) => d,
                None => {
                    proof {
                        witness_json(m, topic@, gpayload, r_err(DispatchError::MalformedPayload));
                    }
                    return Err(DispatchError::MalformedPayload);
                },
            };
            let value_node: JsonNode = match value_selector.select_first(&doc) {
                Some(v) => node_of(&v),
                None => {
                    proof {
                        let e = r_err::<DataPointModel, DispatchError>(
                            DispatchError::ValueNotFound,
                        );
                        assert(spec_process_json(m, topic@, gpayload, None, None) == e);
                    }
                    return Err(DispatchError::ValueNotFound);
                },
            };
            let ghost vnode = Some(value_node@);
            let value: TypedValue = match coerce_node(&value_node, mapping.value_type) {
                Ok(v) => v,
                Err(e) => {
                    proof {
                        assert(spec_process_json(m, topic@, gpayload, vnode, None) == r_err::<
                            DataPointModel,
                            DispatchError,
                        >(DispatchError::Coerce(e)));
                    }
                    return Err(DispatchError::Coerce(e));
                },
            };
            let timestamp_value: Option<u64> = match timestamp_selector {
                None => None,
                Some(selector) => {
                    match selector.select_first(&doc) {
                        None => {
                            proof {
                                assert(spec_process_json(m, topic@, gpayload, vnode, None)
                                    == r_err::<DataPointModel, DispatchError>(
                                    DispatchError::TimestampNotFound,
                                ));
                            }
                            return Err(DispatchError::TimestampNotFound);
                        },
                        Some(tv) => {
                            let tnode_exec: JsonNode = node_of(&tv);
                            match &tnode_exec {
                                JsonNode::Number { as_unsigned: Some(u), .. } => Some(*u),
                                _ => {
                                    proof {
                                        assert(spec_process_json(
                                            m,
                                            topic@,
                                            gpayload,
                                            vnode,
                                            Some(tnode_exec@),
                                        ) == r_err::<DataPointModel, DispatchError>(
                                            DispatchError::TimestampNotNumeric,
                                        ));
                                    }
                                    return Err(DispatchError::TimestampNotNumeric);
                                },
                            }
                        },
                    }
                },
            };
            let ghost tnode = match timestamp_value {
                Some(u) => Some(
                    NodeModel::Num { repr: Seq::empty(), as_signed: None, as_unsigned: Some(u) },
                ),
                None => None,
            };
            let tags: Vec<(String, TypedValue)> = match render_tags(&mapping.tags, &captures) {
                Ok(t) => t,
                Err(e) => {
                    proof {
                        assert(spec_process_json(m, topic@, gpayload, vnode, tnode) == r_err::<
                            DataPointModel,
                            DispatchError,
                        >(e));
                    }
                    return Err(e);
                },
            };
            let d = DataPoint { timestamp: timestamp_value, field_name, value, tags };
            proof {
                assert(spec_process_json(m, topic@, gpayload, vnode, tnode) matches Ok(dm)
                    && dm =~~= d@);
            }
            Ok(d)
        },
    }
}

/// Shorthand for naming an error outcome in proofs.
pub open spec fn r_err<T, E>(e: E) -> Result<T, E> {
    Err(e)
}

/// The model of a processing outcome: the data point's model, or the
/// error unchanged.
pub open spec fn result_model(r: Result<DataPoint, DispatchError>) -> Result<
    DataPointModel,
    DispatchError,
> {
    match r {
        Ok(d) => Ok(d@),
        Err(e) => Err(e),
    }
}

/// Both spec outcomes reject the early stages the same way, whatever
/// nodes the paths would select.
proof fn witness_json(
    m: MappingModel,
    topic: Seq<char>,
    payload: Seq<u8>,
    e: Result<DataPointModel, DispatchError>,
)
    requires
        spec_process_json(m, topic, payload, None, None) == e,
    ensures
        exists|vnode: Option<NodeModel>, tnode: Option<NodeModel>|
            spec_process_json(m, topic, payload, vnode, tnode) == e,
{
    assert(spec_process_json(m, topic, payload, None, None) == e);
}

// ---------------------------------------------------------------------------
// Laws
// ---------------------------------------------------------------------------

/// Law: for a rule that passed compile-time validation, rendering its
/// field name can never fail on a message whose topic the pattern
/// matches: the captures are always enough.
pub proof fn lemma_validated_render_total(m: MappingModel, topic: Seq<char>)
    requires
        m.wf(),
        spec_matches(m.topic, spec_split(topic)),
    ensures
        refs_resolvable(m.field_name, spec_captures(m.topic, spec_split(topic)).len() as nat),
{
    lemma_captures_count(m.topic, spec_split(topic));
    lemma_render_succeeds_iff_enough(
        m.field_name,
        spec_captures(m.topic, spec_split(topic)).len() as nat,
    );
}

/// Law: tags whose references stay within the capture count always
/// render.
pub proof fn lemma_validated_tags_total(tags: Seq<(Seq<char>, TagValueModel)>, caps: Seq<Seq<char>>)
    requires
        forall|i: int| 0 <= i < tags.len() ==> ((#[trigger] tags[i].1)
            matches TagValueModel::Interp(ps) ==> refs_positive(ps) && spec_max_ref(ps)
            <= caps.len()),
    ensures
        spec_render_tags(tags, caps) is Ok,
    decreases tags.len(),
{
    if tags.len() == 0 {
    } else {
        match tags[0].1 {
            TagValueModel::Interp(ps) => {
                lemma_render_succeeds_iff_enough(ps, caps.len() as nat);
                assert(refs_resolvable(ps, caps.len() as nat));
            },
            TagValueModel::Lit(_) => {},
        }
        assert forall|i: int| 0 <= i < tags.skip(1).len() implies ((#[trigger] tags.skip(
            1,
        )[i].1) matches TagValueModel::Interp(ps) ==> refs_positive(ps) && spec_max_ref(ps)
            <= caps.len()) by {
            assert(tags.skip(1)[i] == tags[i + 1]);
        }
        lemma_validated_tags_total(tags.skip(1), caps);
    }
}

/// Law: a rule that passed compile-time validation never drops a matching
/// message for an unresolved template reference, in the field name or in
/// a tag; only payload trouble can fail it.
pub proof fn lemma_validated_message_never_unresolved(
    m: MappingModel,
    topic: Seq<char>,
    payload: Seq<u8>,
    vnode: Option<NodeModel>,
    tnode: Option<NodeModel>,
)
    requires
        m.wf(),
        spec_matches(m.topic, spec_split(topic)),
    ensures
        !(spec_process_raw(m, topic, payload) matches Err(DispatchError::Render(_))),
        !(spec_process_json(m, topic, payload, vnode, tnode) matches Err(
            DispatchError::Render(_),
        )),
{
    let caps = spec_captures(m.topic, spec_split(topic));
    lemma_validated_render_total(m, topic);
    lemma_captures_count(m.topic, spec_split(topic));
    lemma_validated_tags_total(m.tags, caps);
}

} // verus!
