//! Topic patterns: compilation of slash-delimited patterns into levels,
//! matching of concrete topics, and extraction of wildcard captures.

use vstd::prelude::*;
use crate::str_eq;

verus! {

/// One level of a compiled topic pattern.
#[derive(Clone, Debug, PartialEq)]
pub enum TopicLevel {
    Literal(String),
    SingleWildcard,
    MultiWildcard,
}

/// Mathematical model of a pattern level: the literal's text, or a wildcard.
#[verifier::ext_equal]
pub enum LevelModel {
    Lit(Seq<char>),
    Single,
    Multi,
}

impl View for TopicLevel {
    type V = LevelModel;

    open spec fn view(&self) -> LevelModel {
        match self {
            TopicLevel::Literal(s) => LevelModel::Lit(s@),
            TopicLevel::SingleWildcard => LevelModel::Single,
            TopicLevel::MultiWildcard => LevelModel::Multi,
        }
    }
}

impl DeepView for TopicLevel {
    type V = LevelModel;

    open spec fn deep_view(&self) -> LevelModel {
        self.view()
    }
}

/// Rejections raised while compiling a topic pattern.
#[derive(Clone, Copy, Debug, PartialEq, Eq, Structural)]
pub enum PatternError {
    /// A level mixes a wildcard character with other characters.
    InvalidPatternLevel,
    /// A multi-level wildcard stands before the last level.
    MisplacedMultiWildcard,
}

// ---------------------------------------------------------------------------
// Splitting a slash-delimited string into levels
// ---------------------------------------------------------------------------

/// Index of the first `/` in `s`, or `s.len()` if there is none.
pub open spec fn sep_pos(s: Seq<char>) -> nat
    decreases s.len(),
{
    if s.len() == 0 {
        0
    } else if s[0] == '/' {
        0
    } else {
        (1 + sep_pos(s.skip(1))) as nat
    }
}

/// Splitting on `/`; empty segments are preserved, and the empty string
/// yields a single empty segment.
pub open spec fn spec_split(s: Seq<char>) -> Seq<Seq<char>>
    decreases s.len(),
{
    let p = sep_pos(s) as int;
    if p >= s.len() {
        seq![s]
    } else {
        seq![s.take(p)] + spec_split(s.skip(p + 1))
    }
}

proof fn lemma_sep_pos_at(s: Seq<char>, k: int)
    requires
        0 <= k <= s.len(),
        forall|j: int| 0 <= j < k ==> s[j] != '/',
        k == s.len() || s[k] == '/',
    ensures
        sep_pos(s) == k,
    decreases k,
{
    if k == 0 {
    } else {
        assert(s[0] != '/');
        assert forall|j: int| 0 <= j < k - 1 implies s.skip(1)[j] != '/' by {
            assert(s.skip(1)[j] == s[j + 1]);
        }
        if k < s.len() {
            assert(s.skip(1)[k - 1] == s[k]);
        }
        lemma_sep_pos_at(s.skip(1), k - 1);
    }
}

/// Splits a string on `/`, preserving empty segments.
pub fn split_levels(s: &str) -> (r: Vec<String>)
    ensures
        r.deep_view() == spec_split(s@),
{
    let len = s.unicode_len();
    let mut r: Vec<String> = Vec::new();
    let mut start: usize = 0;
    let mut i: usize = 0;
    proof {
        assert(s@.skip(0) =~= s@);
        assert(r.deep_view() =~= Seq::<Seq<char>>::empty());
        assert(spec_split(s@) =~= r.deep_view() + spec_split(s@.skip(0)));
    }
    while i < len
        invariant
            start <= i <= len,
            len == s@.len(),
            spec_split(s@) =~= r.deep_view() + spec_split(s@.skip(start as int)),
            forall|j: int| start <= j < i ==> s@[j] != '/',
        decreases len - i,
    {
        if s.get_char(i) == '/' {
            let seg = s.substring_char(start, i);
            proof {
                let tail = s@.skip(start as int);
                assert forall|j: int| 0 <= j < i - start implies tail[j] != '/' by {
                    assert(tail[j] == s@[j + start]);
                }
                assert(tail[i - start] == s@[i as int]);
                lemma_sep_pos_at(tail, i - start);
                assert(tail.take(i - start) =~= s@.subrange(start as int, i as int));
                assert(tail.skip(i - start + 1) =~= s@.skip(i + 1));
            }
            let ghost old_r = r.deep_view();
            r.push(seg.to_owned());
            proof {
                assert(r.deep_view() =~= old_r.push(seg@));
                assert(spec_split(s@) =~= r.deep_view() + spec_split(s@.skip(i + 1)));
            }
            start = i + 1;
        }
        i += 1;
    }
    let seg = s.substring_char(start, len);
    proof {
        let tail = s@.skip(start as int);
        assert forall|j: int| 0 <= j < len - start implies tail[j] != '/' by {
            assert(tail[j] == s@[j + start]);
        }
        lemma_sep_pos_at(tail, len - start);
        assert(tail =~= s@.subrange(start as int, len as int));
    }
    let ghost old_r = r.deep_view();
    r.push(seg.to_owned());
    proof {
        assert(r.deep_view() =~= old_r.push(seg@));
        assert(spec_split(s@) =~= r.deep_view());
    }
    r
}

// ---------------------------------------------------------------------------
// Compiling one level and a whole pattern
// ---------------------------------------------------------------------------

/// A level is acceptable when it is exactly `+`, exactly `#`, or free of
/// both wildcard characters.
pub open spec fn spec_level_ok(s: Seq<char>) -> bool {
    s == seq!['+'] || s == seq!['#'] || (!s.contains('+') && !s.contains('#'))
}

/// The level denoted by an acceptable segment.
pub open spec fn spec_level(s: Seq<char>) -> LevelModel {
    if s == seq!['+'] {
        LevelModel::Single
    } else if s == seq!['#'] {
        LevelModel::Multi
    } else {
        LevelModel::Lit(s)
    }
}

/// Reports whether `c` occurs in `s`.
pub fn str_contains_char(s: &str, c: char) -> (r: bool)
    ensures
        r == s@.contains(c),
{
    let len = s.unicode_len();
    let mut i: usize = 0;
    while i < len
        invariant
            i <= len,
            len == s@.len(),
            forall|j: int| 0 <= j < i ==> s@[j] != c,
        decreases len - i,
    {
        if s.get_char(i) == c {
            return true;
        }
        i += 1;
    }
    false
}

impl TopicLevel {
    /// Compiles one pattern segment into a level.
    pub fn parse(s: &str) -> (r: Result<TopicLevel, PatternError>)
        ensures
            r is Ok <==> spec_level_ok(s@),
            r matches Ok(l) ==> l@ == spec_level(s@),
            r matches Err(e) ==> e == PatternError::InvalidPatternLevel,
    {
        let len = s.unicode_len();
        if len == 1 && s.get_char(0) == '+' {
            proof {
                assert(s@ =~= seq!['+']);
            }
            Ok(TopicLevel::SingleWildcard)
        } else if len == 1 && s.get_char(0) == '#' {
            proof {
                assert(s@ =~= seq!['#']);
            }
            Ok(TopicLevel::MultiWildcard)
        } else {
            proof {
                assert(s@ != seq!['+'] && s@ != seq!['#']) by {
                    if s@ == seq!['+'] || s@ == seq!['#'] {
                        assert(s@.len() == 1);
                    }
                }
            }
            if str_contains_char(s, '+') || str_contains_char(s, '#') {
                Err(PatternError::InvalidPatternLevel)
            } else {
                Ok(TopicLevel::Literal(s.to_owned()))
            }
        }
    }
}

/// All segments are acceptable levels.
pub open spec fn spec_levels_ok(segs: Seq<Seq<char>>) -> bool {
    forall|i: int| 0 <= i < segs.len() ==> spec_level_ok(#[trigger] segs[i])
}

/// The levels denoted by a sequence of segments.
pub open spec fn spec_levels(segs: Seq<Seq<char>>) -> Seq<LevelModel> {
    segs.map_values(|seg: Seq<char>| spec_level(seg))
}

/// A multi-level wildcard may stand only as the last level.
pub open spec fn multi_only_last(p: Seq<LevelModel>) -> bool {
    forall|i: int| 0 <= i < p.len() - 1 ==> !(#[trigger] p[i] is Multi)
}

/// The pattern compiled from `s`, or the rejection it deserves.
pub open spec fn spec_compile_pattern(s: Seq<char>) -> Result<Seq<LevelModel>, PatternError> {
    let segs = spec_split(s);
    if !spec_levels_ok(segs) {
        Err(PatternError::InvalidPatternLevel)
    } else if !multi_only_last(spec_levels(segs)) {
        Err(PatternError::MisplacedMultiWildcard)
    } else {
        Ok(spec_levels(segs))
    }
}

/// Compiles a whole slash-delimited pattern into its levels.
pub fn compile_pattern(pattern: &str) -> (r: Result<Vec<TopicLevel>, PatternError>)
    ensures
        r is Ok <==> spec_compile_pattern(pattern@) is Ok,
        r matches Ok(v) ==> spec_compile_pattern(pattern@) == Ok::<_, PatternError>(v.deep_view()),
        r matches Err(e) ==> spec_compile_pattern(pattern@) == Err::<Seq<LevelModel>, _>(e),
{
    let segs = split_levels(pattern);
    let ghost gsegs = spec_split(pattern@);
    let mut levels: Vec<TopicLevel> = Vec::new();
    let mut i: usize = 0;
    while i < segs.len()
        invariant
            i <= segs.len(),
            gsegs == spec_split(pattern@),
            segs.deep_view() == gsegs,
            segs.len() == gsegs.len(),
            levels.len() == i,
            forall|j: int| 0 <= j < i ==> spec_level_ok(#[trigger] gsegs[j]),
            forall|j: int| 0 <= j < i ==> #[trigger] levels.deep_view()[j] == spec_level(gsegs[j]),
        decreases segs.len() - i,
    {
        proof {
            assert(segs.deep_view()[i as int] == segs[i as int]@);
        }
        match TopicLevel::parse(segs[i].as_str()) {
            Ok(level) => {
                let ghost old_levels = levels.deep_view();
                levels.push(level);
                proof {
                    assert(levels.deep_view() =~= old_levels.push(level@));
                }
            },
            Err(e) => {
                proof {
                    assert(!spec_level_ok(gsegs[i as int]));
                    assert(!spec_levels_ok(gsegs));
                }
                return Err(e);
            },
        }
        i += 1;
    }
    proof {
        assert(spec_levels_ok(gsegs));
        assert(levels.deep_view() =~= spec_levels(gsegs));
    }
    let n = levels.len();
    let mut k: usize = 0;
    while k < n
        invariant
            k <= n,
            n == levels.len(),
            levels.deep_view() =~= spec_levels(gsegs),
            spec_levels_ok(gsegs),
            gsegs == spec_split(pattern@),
            forall|j: int| 0 <= j < k && j < n - 1 ==> !(#[trigger] levels.deep_view()[j] is Multi),
        decreases n - k,
    {
        if k + 1 < n && matches!(&levels[k], TopicLevel::MultiWildcard) {
            proof {
                assert(levels.deep_view()[k as int] == levels[k as int]@);
                assert(levels.deep_view()[k as int] is Multi);
                assert(!multi_only_last(spec_levels(gsegs)));
            }
            return Err(PatternError::MisplacedMultiWildcard);
        }
        k += 1;
    }
    proof {
        assert(multi_only_last(spec_levels(gsegs)));
    }
    Ok(levels)
}

// ---------------------------------------------------------------------------
// Matching and captures
// ---------------------------------------------------------------------------

/// Lockstep matching: a single wildcard consumes one segment of any content,
/// a multi wildcard accepts the whole remainder, a literal needs an equal
/// segment, and an exhausted pattern accepts only an exhausted topic.
pub open spec fn spec_matches(p: Seq<LevelModel>, t: Seq<Seq<char>>) -> bool
    decreases p.len(),
{
    if p.len() == 0 {
        t.len() == 0
    } else {
        match p[0] {
            LevelModel::Multi => true,
            LevelModel::Single => t.len() > 0 && spec_matches(p.skip(1), t.skip(1)),
            LevelModel::Lit(s) => t.len() > 0 && t[0] == s && spec_matches(p.skip(1), t.skip(1)),
        }
    }
}

/// The topic segments standing at single-wildcard positions, in pattern
/// order; pairing stops when either sequence is exhausted.
pub open spec fn spec_captures(p: Seq<LevelModel>, t: Seq<Seq<char>>) -> Seq<Seq<char>>
    decreases p.len(),
{
    if p.len() == 0 || t.len() == 0 {
        Seq::empty()
    } else {
        let rest = spec_captures(p.skip(1), t.skip(1));
        if p[0] is Single {
            seq![t[0]] + rest
        } else {
            rest
        }
    }
}

/// Reports whether the compiled pattern matches the split topic.
pub fn topic_matches(pattern: &Vec<TopicLevel>, levels: &Vec<String>) -> (r: bool)
    ensures
        r == spec_matches(pattern.deep_view(), levels.deep_view()),
{
    let ghost p = pattern.deep_view();
    let ghost t = levels.deep_view();
    let mut i: usize = 0;
    proof {
        assert(p.skip(0) =~= p);
        assert(t.skip(0) =~= t);
    }
    while i < pattern.len()
        invariant
            i <= pattern.len(),
            i <= levels.len(),
            p == pattern.deep_view(),
            t == levels.deep_view(),
            p.len() == pattern.len(),
            t.len() == levels.len(),
            spec_matches(p, t) == spec_matches(p.skip(i as int), t.skip(i as int)),
        decreases pattern.len() - i,
    {
        proof {
            assert(p.skip(i as int)[0] == p[i as int]);
            assert(p[i as int] == pattern[i as int]@);
        }
        match &pattern[i] {
            TopicLevel::MultiWildcard => {
                return true;
            },
            TopicLevel::SingleWildcard => {
                if i >= levels.len() {
                    proof {
                        assert(t.skip(i as int).len() == 0);
                    }
                    return false;
                }
                proof {
                    assert(p.skip(i as int).skip(1) =~= p.skip(i + 1));
                    assert(t.skip(i as int).skip(1) =~= t.skip(i + 1));
                }
            },
            TopicLevel::Literal(s) => {
                if i >= levels.len() {
                    proof {
                        assert(t.skip(i as int).len() == 0);
                    }
                    return false;
                }
                proof {
                    assert(t.skip(i as int)[0] == t[i as int]);
                    assert(t[i as int] == levels[i as int]@);
                    assert(p.skip(i as int).skip(1) =~= p.skip(i + 1));
                    assert(t.skip(i as int).skip(1) =~= t.skip(i + 1));
                }
                if !str_eq(s.as_str(), levels[i].as_str()) {
                    return false;
                }
            },
        }
        i += 1;
    }
    proof {
        assert(p.skip(i as int).len() == 0);
    }
    levels.len() == i
}

/// Collects the captures of the compiled pattern against the split topic.
pub fn topic_captures(pattern: &Vec<TopicLevel>, levels: &Vec<String>) -> (r: Vec<String>)
    ensures
        r.deep_view() == spec_captures(pattern.deep_view(), levels.deep_view()),
{
    let ghost p = pattern.deep_view();
    let ghost t = levels.deep_view();
    let mut r: Vec<String> = Vec::new();
    let mut i: usize = 0;
    proof {
        assert(p.skip(0) =~= p);
        assert(t.skip(0) =~= t);
        assert(r.deep_view() =~= Seq::<Seq<char>>::empty());
        assert(spec_captures(p, t) =~= r.deep_view() + spec_captures(p.skip(0), t.skip(0)));
    }
    while i < pattern.len() && i < levels.len()
        invariant
            i <= pattern.len(),
            i <= levels.len(),
            p == pattern.deep_view(),
            t == levels.deep_view(),
            p.len() == pattern.len(),
            t.len() == levels.len(),
            spec_captures(p, t) =~= r.deep_view() + spec_captures(p.skip(i as int), t.skip(i as int)),
        decreases pattern.len() - i,
    {
        proof {
            assert(p.skip(i as int)[0] == p[i as int]);
            assert(p[i as int] == pattern[i as int]@);
            assert(t.skip(i as int)[0] == t[i as int]);
            assert(t[i as int] == levels[i as int]@);
            assert(p.skip(i as int).skip(1) =~= p.skip(i + 1));
            assert(t.skip(i as int).skip(1) =~= t.skip(i + 1));
        }
        if matches!(&pattern[i], TopicLevel::SingleWildcard) {
            let ghost old_r = r.deep_view();
            r.push(levels[i].clone());
            proof {
                assert(r.deep_view() =~= old_r.push(t[i as int]));
            }
        }
        i += 1;
    }
    proof {
        assert(spec_captures(p.skip(i as int), t.skip(i as int)) =~= Seq::<Seq<char>>::empty());
        assert(r.deep_view() =~= spec_captures(p, t));
    }
    r
}

// ---------------------------------------------------------------------------
// Laws
// ---------------------------------------------------------------------------

/// Every level of the pattern is a literal.
pub open spec fn all_literal_levels(p: Seq<LevelModel>) -> bool {
    forall|i: int| 0 <= i < p.len() ==> (#[trigger] p[i]) is Lit
}

/// The literal texts of a wildcard-free pattern.
pub open spec fn literal_texts(p: Seq<LevelModel>) -> Seq<Seq<char>> {
    p.map_values(|l: LevelModel| l->Lit_0)
}

/// Law: a pattern without wildcards matches a topic exactly when the
/// pattern's literal texts equal the topic's segment sequence.
pub proof fn lemma_literal_pattern_matches_exactly(p: Seq<LevelModel>, t: Seq<Seq<char>>)
    requires
        all_literal_levels(p),
    ensures
        spec_matches(p, t) <==> literal_texts(p) =~~= t,
    decreases p.len(),
{
    if p.len() == 0 {
        assert(literal_texts(p).len() == 0);
    } else {
        assert(p[0] is Lit);
        assert(all_literal_levels(p.skip(1))) by {
            assert forall|i: int| 0 <= i < p.skip(1).len() implies (#[trigger] p.skip(1)[i]) is Lit by {
                assert(p.skip(1)[i] == p[i + 1]);
            }
        }
        lemma_literal_pattern_matches_exactly(p.skip(1), t.skip(1));
        assert(literal_texts(p.skip(1)) =~= literal_texts(p).skip(1));
        if spec_matches(p, t) {
            assert(t.len() > 0 && t[0] == p[0]->Lit_0);
            assert(literal_texts(p.skip(1)) =~~= t.skip(1));
            assert(literal_texts(p).len() == t.len());
            assert forall|j: int| 0 <= j < t.len() implies literal_texts(p)[j] == t[j] by {
                if j == 0 {
                    assert(literal_texts(p)[0] == p[0]->Lit_0);
                } else {
                    assert(literal_texts(p)[j] == literal_texts(p).skip(1)[j - 1]);
                    assert(literal_texts(p.skip(1))[j - 1] == t.skip(1)[j - 1]);
                    assert(t.skip(1)[j - 1] == t[j]);
                }
            }
            assert(literal_texts(p) =~~= t);
        }
        if literal_texts(p) =~~= t {
            assert(t.len() == p.len());
            assert(t[0] == literal_texts(p)[0]);
            assert(literal_texts(p)[0] == p[0]->Lit_0);
            assert(literal_texts(p).skip(1) =~~= t.skip(1));
            assert(literal_texts(p.skip(1)) =~~= t.skip(1));
            assert(spec_matches(p.skip(1), t.skip(1)));
            assert(spec_matches(p, t));
        }
    }
}

/// The number of single-level wildcards in a pattern.
pub open spec fn count_singles(p: Seq<LevelModel>) -> nat
    decreases p.len(),
{
    if p.len() == 0 {
        0
    } else {
        (if p[0] is Single {
            1 as nat
        } else {
            0 as nat
        }) + count_singles(p.skip(1))
    }
}

/// Law: when a well-formed pattern (multi wildcard only last) matches a
/// topic, it captures one segment per single-level wildcard.
pub proof fn lemma_captures_count(p: Seq<LevelModel>, t: Seq<Seq<char>>)
    requires
        spec_matches(p, t),
        multi_only_last(p),
    ensures
        spec_captures(p, t).len() == count_singles(p),
    decreases p.len(),
{
    if p.len() == 0 {
    } else {
        assert(multi_only_last(p.skip(1))) by {
            assert forall|i: int| 0 <= i < p.skip(1).len() - 1 implies !((#[trigger] p.skip(1)[i]) is Multi) by {
                assert(p.skip(1)[i] == p[i + 1]);
            }
        }
        match p[0] {
            LevelModel::Multi => {
                assert(p.len() == 1) by {
                    if p.len() > 1 {
                        assert(!(p[0] is Multi));
                    }
                }
                assert(count_singles(p.skip(1)) == 0);
                if t.len() > 0 {
                    assert(spec_captures(p.skip(1), t.skip(1)).len() == 0);
                }
            },
            LevelModel::Single => {
                lemma_captures_count(p.skip(1), t.skip(1));
            },
            LevelModel::Lit(_) => {
                lemma_captures_count(p.skip(1), t.skip(1));
            },
        }
    }
}

/// Law: two matching decisions on identical inputs are identical; the
/// matcher carries no hidden state.
pub proof fn lemma_matches_deterministic(
    p: Seq<LevelModel>,
    t: Seq<Seq<char>>,
    r1: bool,
    r2: bool,
)
    requires
        r1 == spec_matches(p, t),
        r2 == spec_matches(p, t),
    ensures
        r1 == r2,
{
}

} // verus!
