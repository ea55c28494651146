//! Compiled rules: a topic pattern, a payload directive, a templated field
//! name, a declared value kind, and tag values. Rules are compiled once at
//! startup; a rule that does not compile is refused outright.

use vstd::prelude::*;
use crate::config;
use crate::config::{MappingCfgModel, PayloadCfgModel, TagValueCfgModel};
use crate::interpolate::{
    InterpolatedName,
    InterpolatedNamePart,
    PartModel,
    ScanResult,
    TemplateError,
    spec_scan,
    spec_max_ref,
    refs_positive,
    find_max_ref,
};
use crate::json::{CheckedSelector, PathError, path_compiles, spec_filter_free};
use crate::topic::{
    TopicLevel,
    LevelModel,
    PatternError,
    spec_compile_pattern,
    compile_pattern,
    count_singles,
    multi_only_last,
};
use crate::value::{TypedValue, ValModel, ValueType, CoerceError, spec_coerce_text, coerce_text};

verus! {

/// One compiled tag value: a fixed literal, or a templated text rendered
/// per message.
#[derive(Debug)]
pub enum TagValue {
    InterpolatedStr(InterpolatedName),
    Literal(TypedValue),
}

/// Mathematical model of a compiled tag value.
#[verifier::ext_equal]
pub enum TagValueModel {
    Interp(Seq<PartModel>),
    Lit(ValModel),
}

impl View for TagValue {
    type V = TagValueModel;

    open spec fn view(&self) -> TagValueModel {
        match self {
            TagValue::InterpolatedStr(name) => TagValueModel::Interp(name@),
            TagValue::Literal(v) => TagValueModel::Lit(v@),
        }
    }
}

impl DeepView for TagValue {
    type V = TagValueModel;

    open spec fn deep_view(&self) -> TagValueModel {
        self.view()
    }
}

/// How a compiled rule reads its payload. For a structured payload the
/// compiled selectors carry the paths they were compiled from.
pub enum Payload {
    Raw,
    Json { value_selector: CheckedSelector, timestamp_selector: Option<CheckedSelector> },
}

/// Mathematical model of a compiled payload directive.
#[verifier::ext_equal]
pub enum PayloadModel {
    Raw,
    Json { value_path: Seq<char>, timestamp_path: Option<Seq<char>> },
}

impl View for Payload {
    type V = PayloadModel;

    open spec fn view(&self) -> PayloadModel {
        match self {
            Payload::Raw => PayloadModel::Raw,
            Payload::Json { value_selector, timestamp_selector } => PayloadModel::Json {
                value_path: value_selector@,
                timestamp_path: match timestamp_selector {
                    Option::None => Option::None,
                    Option::Some(cs) => Option::Some(cs@),
                },
            },
        }
    }
}

/// One compiled rule.
pub struct Mapping {
    pub topic: Vec<TopicLevel>,
    pub payload: Payload,
    pub field_name: InterpolatedName,
    pub value_type: ValueType,
    pub tags: Vec<(String, TagValue)>,
}

/// Mathematical model of a compiled rule.
#[verifier::ext_equal]
pub struct MappingModel {
    pub topic: Seq<LevelModel>,
    pub payload: PayloadModel,
    pub field_name: Seq<PartModel>,
    pub value_type: ValueType,
    pub tags: Seq<(Seq<char>, TagValueModel)>,
}

impl View for Mapping {
    type V = MappingModel;

    open spec fn view(&self) -> MappingModel {
        MappingModel {
            topic: self.topic.deep_view(),
            payload: self.payload@,
            field_name: self.field_name@,
            value_type: self.value_type,
            tags: self.tags.deep_view(),
        }
    }
}

impl DeepView for Mapping {
    type V = MappingModel;

    open spec fn deep_view(&self) -> MappingModel {
        self.view()
    }
}

/// Rejections raised while compiling a rule; any of them refuses the
/// whole configuration.
#[derive(Clone, Copy, Debug, PartialEq, Eq, Structural)]
pub enum MappingError {
    /// The topic pattern does not compile.
    Pattern(PatternError),
    /// The field name or a templated tag value does not compile.
    Template(TemplateError),
    /// A template reference exceeds the pattern's single-wildcard count.
    ReferenceExceedsCaptures,
    /// A payload path expression does not compile.
    InvalidPathExpression,
    /// A payload path expression using a filter form, which this library
    /// refuses.
    UnsupportedPathExpression,
    /// A fixed tag literal that fails coercion to its declared kind.
    TagLiteral(CoerceError),
}

// ---------------------------------------------------------------------------
// Tag values
// ---------------------------------------------------------------------------

/// What compiling one configured tag value yields: text with exactly one
/// literal part collapses to a fixed literal, other text stays templated,
/// and any other declared kind is coerced once, at compile time.
pub open spec fn spec_tag_value(
    v: Seq<char>,
    vt: ValueType,
) -> Result<TagValueModel, MappingError> {
    if vt is Text {
        match spec_scan(v) {
            ScanResult::Parts(ps) => if ps.len() == 1 && ps[0] is Lit {
                Ok(TagValueModel::Lit(ValModel::T(ps[0]->Lit_0)))
            } else {
                Ok(TagValueModel::Interp(ps))
            },
            ScanResult::BadIndex => Err(
                MappingError::Template(TemplateError::InvalidReferenceIndex),
            ),
            ScanResult::TooLarge => Err(MappingError::Template(TemplateError::ReferenceTooLarge)),
        }
    } else {
        match spec_coerce_text(v, vt) {
            Ok(m) => Ok(TagValueModel::Lit(m)),
            Err(e) => Err(MappingError::TagLiteral(e)),
        }
    }
}

impl TagValue {
    /// Compiles one configured tag value.
    pub fn from_config(tag_value: &config::TagValue) -> (r: Result<TagValue, MappingError>)
        ensures
            (match r {
                Ok(tv) => spec_tag_value(tag_value.value@, tag_value.value_type) == Ok::<
                    TagValueModel,
                    MappingError,
                >(tv@) && tv.wf(),
                Err(e) => spec_tag_value(tag_value.value@, tag_value.value_type) == Err::<
                    TagValueModel,
                    MappingError,
                >(e),
            }),
    {
        match tag_value.value_type {
            ValueType::Text => {
                match InterpolatedName::parse(tag_value.value.as_str()) {
                    Ok(interp) => {
                        let single_literal: bool = interp.parts.len() == 1 && matches!(
                            &interp.parts[0],
                            InterpolatedNamePart::Literal(_),
                        );
                        if single_literal {
                            match &interp.parts[0] {
                                InterpolatedNamePart::Literal(l) => Ok(
                                    TagValue::Literal(TypedValue::Text(l.clone())),
                                ),
                                InterpolatedNamePart::Reference(_) => {
                                    proof {
                                        assert(false);
                                    }
                                    Err(MappingError::ReferenceExceedsCaptures)
                                },
                            }
                        } else {
                            Ok(TagValue::InterpolatedStr(interp))
                        }
                    },
                    Err(e) => Err(MappingError::Template(e)),
                }
            },
            other => {
                match coerce_text(tag_value.value.as_str(), other) {
                    Ok(v) => Ok(TagValue::Literal(v)),
                    Err(e) => Err(MappingError::TagLiteral(e)),
                }
            },
        }
    }

    /// A compiled tag value is well formed: a templated one has accurate
    /// counts and 1-based references.
    pub open spec fn wf(&self) -> bool {
        match self {
            TagValue::InterpolatedStr(name) => name.wf(),
            TagValue::Literal(_) => true,
        }
    }
}

// ---------------------------------------------------------------------------
// Whole rules
// ---------------------------------------------------------------------------

/// What compiling the tag list yields: the first rejection, or every tag
/// compiled, in order, each templated tag's references checked against
/// the pattern's single-wildcard count.
pub open spec fn spec_compile_tags(
    tags: Seq<(Seq<char>, TagValueCfgModel)>,
    max_refs: nat,
) -> Result<Seq<(Seq<char>, TagValueModel)>, MappingError>
    decreases tags.len(),
{
    if tags.len() == 0 {
        Ok(Seq::empty())
    } else {
        match spec_tag_value(tags[0].1.value, tags[0].1.value_type) {
            Err(e) => Err(e),
            Ok(tv) => if (tv is Interp) && spec_max_ref(tv->Interp_0) > max_refs {
                Err(MappingError::ReferenceExceedsCaptures)
            } else {
                match spec_compile_tags(tags.skip(1), max_refs) {
                    Err(e) => Err(e),
                    Ok(rest) => Ok(seq![(tags[0].0, tv)] + rest),
                }
            },
        }
    }
}

/// What compiling one configured rule yields. The checks run in order:
/// the topic pattern, the field-name template and its reference bound,
/// the payload paths, then the tags.
pub open spec fn spec_compile_mapping(c: MappingCfgModel) -> Result<MappingModel, MappingError> {
    match spec_compile_pattern(c.topic) {
        Err(e) => Err(MappingError::Pattern(e)),
        Ok(levels) => {
            let max_refs = count_singles(levels);
            match spec_scan(c.field_name) {
                ScanResult::BadIndex => Err(
                    MappingError::Template(TemplateError::InvalidReferenceIndex),
                ),
                ScanResult::TooLarge => Err(
                    MappingError::Template(TemplateError::ReferenceTooLarge),
                ),
                ScanResult::Parts(fps) => if spec_max_ref(fps) > max_refs {
                    Err(MappingError::ReferenceExceedsCaptures)
                } else {
                    let payload = match c.payload {
                        None => Ok(PayloadModel::Raw),
                        Some(PayloadCfgModel::Json { value_field_path, timestamp_field_path }) => {
                            if !spec_filter_free(value_field_path) {
                                Err(MappingError::UnsupportedPathExpression)
                            } else if !path_compiles(value_field_path) {
                                Err(MappingError::InvalidPathExpression)
                            } else if timestamp_field_path matches Some(p) && !spec_filter_free(
                                p,
                            ) {
                                Err(MappingError::UnsupportedPathExpression)
                            } else if timestamp_field_path matches Some(p) && !path_compiles(p) {
                                Err(MappingError::InvalidPathExpression)
                            } else {
                                Ok(PayloadModel::Json {
                                    value_path: value_field_path,
                                    timestamp_path: timestamp_field_path,
                                })
                            }
                        },
                    };
                    match payload {
                        Err(e) => Err(e),
                        Ok(p) => match spec_compile_tags(c.tags, max_refs) {
                            Err(e) => Err(e),
                            Ok(tags) => Ok(MappingModel {
                                topic: levels,
                                payload: p,
                                field_name: fps,
                                value_type: c.value_type,
                                tags: tags,
                            }),
                        },
                    }
                },
            }
        },
    }
}

impl MappingModel {
    /// A compiled rule is well formed: the multi wildcard stands only
    /// last, every template's references are 1-based, and none of them
    /// exceeds the pattern's single-wildcard count.
    pub open spec fn wf(&self) -> bool {
        &&& multi_only_last(self.topic)
        &&& refs_positive(self.field_name)
        &&& spec_max_ref(self.field_name) <= count_singles(self.topic)
        &&& forall|i: int| 0 <= i < self.tags.len() ==> ((#[trigger] self.tags[i].1)
            matches TagValueModel::Interp(ps) ==> refs_positive(ps) && spec_max_ref(ps)
            <= count_singles(self.topic))
    }
}

impl Mapping {
    /// A compiled rule is well formed: its model is, and the field-name
    /// template's recorded reference count is accurate.
    pub open spec fn wf(&self) -> bool {
        &&& self@.wf()
        &&& self.field_name.wf()
    }

    /// Compiles one configured rule, validating everything that can be
    /// validated before the first message arrives.
    pub fn from_config(mapping: &config::Mapping) -> (r: Result<Mapping, MappingError>)
        ensures
            (match r {
                Ok(m) => spec_compile_mapping(mapping@) == Ok::<MappingModel, MappingError>(m@)
                    && m.wf(),
                Err(e) => spec_compile_mapping(mapping@) == Err::<MappingModel, MappingError>(e),
            }),
    {
        let topic: Vec<TopicLevel> = match compile_pattern(mapping.topic.as_str()) {
            Ok(levels) => levels,
            Err(e) => {
                return Err(MappingError::Pattern(e));
            },
        };
        let max_refs: usize = count_single_wildcards(&topic);

        let field_name: InterpolatedName = match InterpolatedName::parse(
            mapping.field_name.as_str(),
        ) {
            Ok(name) => name,
            Err(e) => {
                return Err(MappingError::Template(e));
            },
        };
        if find_max_ref(&field_name) > max_refs {
            return Err(MappingError::ReferenceExceedsCaptures);
        }

        let payload: Payload = match &mapping.payload {
            None => Payload::Raw,
            Some(config::Payload::Json { value_field_path, timestamp_field_path }) => {
                let value_selector = match CheckedSelector::new(value_field_path.as_str()) {
                    Ok(cs) => cs,
                    Err(PathError::UnsupportedFilter) => {
                        return Err(MappingError::UnsupportedPathExpression);
                    },
                    Err(PathError::Invalid) => {
                        return Err(MappingError::InvalidPathExpression);
                    },
                };
                let timestamp_selector: Option<CheckedSelector> = match timestamp_field_path {
                    None => None,
                    Some(path) => {
                        match CheckedSelector::new(path.as_str()) {
                            Ok(cs) => Some(cs),
                            Err(PathError::UnsupportedFilter) => {
                                return Err(MappingError::UnsupportedPathExpression);
                            },
                            Err(PathError::Invalid) => {
                                return Err(MappingError::InvalidPathExpression);
                            },
                        }
                    },
                };
                Payload::Json { value_selector, timestamp_selector }
            },
        };

        let ghost cfg_tags = mapping.tags.deep_view();
        let mut tags: Vec<(String, TagValue)> = Vec::new();
        let mut i: usize = 0;
        proof {
            assert(cfg_tags.skip(0) =~= cfg_tags);
            assert(tags.deep_view() =~= Seq::<(Seq<char>, TagValueModel)>::empty());
        }
        while i < mapping.tags.len()
            invariant
                i <= mapping.tags.len(),
                cfg_tags == mapping.tags.deep_view(),
                cfg_tags.len() == mapping.tags.len(),
                spec_compile_pattern(mapping.topic@) == Ok::<Seq<LevelModel>, PatternError>(
                    topic.deep_view(),
                ),
                max_refs as nat == count_singles(topic.deep_view()),
                spec_scan(mapping.field_name@) == ScanResult::Parts(field_name@),
                spec_max_ref(field_name@) <= max_refs as nat,
                field_name.wf(),
                (match mapping.payload.deep_view() {
                    Option::None => payload@ is Raw,
                    Option::Some(pm) => (pm matches PayloadCfgModel::Json {
                        value_field_path: vp,
                        timestamp_field_path: tp,
                    } && spec_filter_free(vp) && path_compiles(vp) && (tp matches Some(p)
                        ==> spec_filter_free(p) && path_compiles(p)) && payload@
                        == PayloadModel::Json { value_path: vp, timestamp_path: tp }),
                }),
                (forall|j: int| 0 <= j < tags.deep_view().len() ==> ((
                #[trigger] tags.deep_view()[j].1) matches TagValueModel::Interp(ps)
                    ==> refs_positive(ps) && spec_max_ref(ps) <= max_refs as nat)),
                (match spec_compile_tags(cfg_tags, max_refs as nat) {
                    Ok(all) => spec_compile_tags(cfg_tags.skip(i as int), max_refs as nat)
                        matches Ok(rest) && all == tags.deep_view() + rest,
                    Err(e) => spec_compile_tags(cfg_tags.skip(i as int), max_refs as nat)
                        == Err::<Seq<(Seq<char>, TagValueModel)>, MappingError>(e),
                }),
            decreases mapping.tags.len() - i,
        {
            proof {
                assert(cfg_tags.skip(i as int)[0] == cfg_tags[i as int]);
                assert(cfg_tags[i as int] == mapping.tags[i as int].deep_view());
                assert(cfg_tags.skip(i as int).skip(1) =~= cfg_tags.skip(i + 1));
            }
            let pair = &mapping.tags[i];
            proof {
                assert(cfg_tags[i as int] == (pair.0@, pair.1@));
            }
            match TagValue::from_config(&pair.1) {
                Ok(tv) => {
                    let too_big: bool = match &tv {
                        TagValue::InterpolatedStr(name) => find_max_ref(name) > max_refs,
                        TagValue::Literal(_) => false,
                    };
                    if too_big {
                        proof {
                            assert(spec_compile_tags(cfg_tags.skip(i as int), max_refs as nat)
                                == Err::<Seq<(Seq<char>, TagValueModel)>, MappingError>(
                                MappingError::ReferenceExceedsCaptures,
                            ));
                            assert(spec_compile_tags(cfg_tags, max_refs as nat) == Err::<
                                Seq<(Seq<char>, TagValueModel)>,
                                MappingError,
                            >(MappingError::ReferenceExceedsCaptures));
                        }
                        return Err(MappingError::ReferenceExceedsCaptures);
                    }
                    let ghost old_tags = tags.deep_view();
                    let ghost tv_model = tv@;
                    tags.push((pair.0.clone(), tv));
                    proof {
                        assert(tags.deep_view() =~= old_tags.push((pair.0@, tv_model)));
                        if spec_compile_tags(cfg_tags.skip(i + 1), max_refs as nat) is Ok {
                            assert(old_tags + (seq![(cfg_tags[i as int].0, tv_model)]
                                + spec_compile_tags(cfg_tags.skip(i + 1), max_refs as nat)->Ok_0)
                                =~= tags.deep_view() + spec_compile_tags(
                                cfg_tags.skip(i + 1),
                                max_refs as nat,
                            )->Ok_0);
                        }
                    }
                },
                Err(e) => {
                    proof {
                        assert(spec_compile_tags(cfg_tags.skip(i as int), max_refs as nat)
                            == Err::<Seq<(Seq<char>, TagValueModel)>, MappingError>(e));
                        assert(spec_compile_tags(cfg_tags, max_refs as nat) == Err::<
                            Seq<(Seq<char>, TagValueModel)>,
                            MappingError,
                        >(e));
                    }
                    return Err(e);
                },
            }
            i += 1;
        }
        proof {
            assert(cfg_tags.skip(i as int) =~= Seq::<(Seq<char>, TagValueCfgModel)>::empty());
            assert(spec_compile_tags(cfg_tags.skip(i as int), max_refs as nat) == Ok::<
                Seq<(Seq<char>, TagValueModel)>,
                MappingError,
            >(Seq::empty()));
            assert(tags.deep_view() + Seq::<(Seq<char>, TagValueModel)>::empty()
                =~= tags.deep_view());
            assert(spec_compile_tags(cfg_tags, max_refs as nat) == Ok::<
                Seq<(Seq<char>, TagValueModel)>,
                MappingError,
            >(tags.deep_view()));
        }

        let result = Mapping { topic, payload, field_name, value_type: mapping.value_type, tags };
        proof {
            let spec_r = spec_compile_mapping(mapping@);
            assert(spec_r is Ok);
            assert(spec_r->Ok_0 =~~= result@);
        }
        Ok(result)
    }
}

/// Counts the single-level wildcards of a compiled pattern.
pub fn count_single_wildcards(pattern: &Vec<TopicLevel>) -> (r: usize)
    ensures
        r as nat == count_singles(pattern.deep_view()),
{
    let ghost p = pattern.deep_view();
    let mut r: usize = 0;
    let mut i: usize = 0;
    proof {
        assert(p.skip(0) =~= p);
    }
    while i < pattern.len()
        invariant
            i <= pattern.len(),
            p == pattern.deep_view(),
            p.len() == pattern.len(),
            r <= i,
            count_singles(p) == r as nat + count_singles(p.skip(i as int)),
        decreases pattern.len() - i,
    {
        proof {
            assert(p.skip(i as int)[0] == p[i as int]);
            assert(p[i as int] == pattern[i as int]@);
            assert(p.skip(i as int).skip(1) =~= p.skip(i + 1));
        }
        if matches!(&pattern[i], TopicLevel::SingleWildcard) {
            r += 1;
        }
        i += 1;
    }
    proof {
        assert(count_singles(p.skip(i as int)) == 0);
    }
    r
}

} // verus!
