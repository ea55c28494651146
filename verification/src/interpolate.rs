//! Templated names: strings holding literal text interleaved with `$n`
//! back-references to wildcard captures, compiled by a single-pass scanner
//! and rendered against a capture list.
//!
//! A reference is `$` followed by decimal digits; `\$` escapes the dollar
//! sign, and the backslash is removed only immediately before a `$`. An
//! unescaped `$` without digits is literal text. Reference indices are
//! 1-based: `$0` is rejected at compile time.

use vstd::prelude::*;

verus! {

/// One compiled part of a templated name.
#[derive(Clone, Debug, PartialEq)]
pub enum InterpolatedNamePart {
    Literal(String),
    Reference(usize),
}

/// Mathematical model of a part.
#[verifier::ext_equal]
pub enum PartModel {
    Lit(Seq<char>),
    Ref(nat),
}

impl View for InterpolatedNamePart {
    type V = PartModel;

    open spec fn view(&self) -> PartModel {
        match self {
            InterpolatedNamePart::Literal(s) => PartModel::Lit(s@),
            InterpolatedNamePart::Reference(n) => PartModel::Ref(*n as nat),
        }
    }
}

impl DeepView for InterpolatedNamePart {
    type V = PartModel;

    open spec fn deep_view(&self) -> PartModel {
        self.view()
    }
}

/// A compiled templated name.
#[derive(Clone, Debug, PartialEq)]
pub struct InterpolatedName {
    pub parts: Vec<InterpolatedNamePart>,
    pub n_references: usize,
}

impl View for InterpolatedName {
    type V = Seq<PartModel>;

    open spec fn view(&self) -> Seq<PartModel> {
        self.parts.deep_view()
    }
}

/// Rejections raised while compiling or rendering a templated name.
#[derive(Clone, Copy, Debug, PartialEq, Eq, Structural)]
pub enum TemplateError {
    /// A reference index of zero: references are 1-based.
    InvalidReferenceIndex,
    /// A reference index too large for this machine.
    ReferenceTooLarge,
    /// A reference beyond the captures handed to rendering.
    UnresolvedReference,
}

// ---------------------------------------------------------------------------
// Digits
// ---------------------------------------------------------------------------

/// A decimal digit.
pub open spec fn is_digit(c: char) -> bool {
    48 <= (c as u32) <= 57
}

/// The value of one decimal digit.
pub open spec fn digit_val(c: char) -> nat {
    ((c as u32) - 48) as nat
}

/// How many leading characters of `s` are decimal digits.
pub open spec fn digit_run_len(s: Seq<char>) -> nat
    decreases s.len(),
{
    if s.len() == 0 || !is_digit(s[0]) {
        0
    } else {
        1 + digit_run_len(s.skip(1))
    }
}

/// The number denoted by a sequence of decimal digits.
pub open spec fn digits_val(s: Seq<char>) -> nat
    decreases s.len(),
{
    if s.len() == 0 {
        0
    } else {
        digits_val(s.drop_last()) * 10 + digit_val(s.last())
    }
}

proof fn lemma_digit_run_len_le(s: Seq<char>)
    ensures
        digit_run_len(s) <= s.len(),
    decreases s.len(),
{
    if s.len() > 0 && is_digit(s[0]) {
        lemma_digit_run_len_le(s.skip(1));
    }
}

proof fn lemma_digit_run_at(s: Seq<char>, k: int)
    requires
        0 <= k <= s.len(),
        forall|j: int| 0 <= j < k ==> is_digit(#[trigger] s[j]),
        k == s.len() || !is_digit(s[k]),
    ensures
        digit_run_len(s) == k,
    decreases k,
{
    if k == 0 {
    } else {
        assert(is_digit(s[0]));
        assert forall|j: int| 0 <= j < k - 1 implies is_digit(#[trigger] s.skip(1)[j]) by {
            assert(s.skip(1)[j] == s[j + 1]);
        }
        if k < s.len() {
            assert(s.skip(1)[k - 1] == s[k]);
        }
        lemma_digit_run_at(s.skip(1), k - 1);
    }
}

/// Appending one digit multiplies the value by ten and adds the digit.
pub proof fn lemma_digits_val_snoc(s: Seq<char>, c: char)
    ensures
        digits_val(s.push(c)) == digits_val(s) * 10 + digit_val(c),
{
    assert(s.push(c).drop_last() =~= s);
    assert(s.push(c).last() == c);
}

/// A digit prefix never exceeds the value of the whole run.
pub proof fn lemma_digits_val_prefix(s: Seq<char>, m: int)
    requires
        0 <= m <= s.len(),
    ensures
        digits_val(s.take(m)) <= digits_val(s),
    decreases s.len(),
{
    if m < s.len() {
        assert(s.drop_last().take(m) =~= s.take(m));
        lemma_digits_val_prefix(s.drop_last(), m);
        assert(digits_val(s.drop_last()) * 10 >= digits_val(s.drop_last())) by {
            assert(digits_val(s.drop_last()) * 10 == digits_val(s.drop_last()) + digits_val(
                s.drop_last(),
            ) * 9);
            assert(digits_val(s.drop_last()) * 9 >= 0);
        }
    } else {
        assert(s.take(m) =~= s);
    }
}

// ---------------------------------------------------------------------------
// The scanner, as a specification
// ---------------------------------------------------------------------------

/// Outcome of scanning a raw templated name.
#[verifier::ext_equal]
pub enum ScanResult {
    /// The compiled parts, adjacent literals merged.
    Parts(Seq<PartModel>),
    /// A `$0` reference.
    BadIndex,
    /// A reference index beyond this machine's range.
    TooLarge,
}

/// Prepends a literal character to already-scanned parts, merging it into
/// a leading literal part when there is one.
pub open spec fn lit_prepend(c: char, ps: Seq<PartModel>) -> Seq<PartModel> {
    if ps.len() > 0 && ps[0] is Lit {
        seq![PartModel::Lit(seq![c] + ps[0]->Lit_0)] + ps.skip(1)
    } else {
        seq![PartModel::Lit(seq![c])] + ps
    }
}

/// Prepends a literal character to a scan outcome.
pub open spec fn scan_prepend(c: char, rest: ScanResult) -> ScanResult {
    match rest {
        ScanResult::Parts(ps) => ScanResult::Parts(lit_prepend(c, ps)),
        _ => rest,
    }
}

/// The single-pass scan: `\$` becomes a literal dollar sign, `$` followed
/// by digits becomes a reference (consuming the maximal digit run), and
/// every other character is literal text.
pub open spec fn spec_scan(s: Seq<char>) -> ScanResult
    decreases s.len(),
    via spec_scan_decreases
{
    if s.len() == 0 {
        ScanResult::Parts(Seq::empty())
    } else if s[0] == '\\' && s.len() > 1 && s[1] == '$' {
        scan_prepend('$', spec_scan(s.skip(2)))
    } else if s[0] == '$' && s.len() > 1 && is_digit(s[1]) {
        let k = digit_run_len(s.skip(1)) as int;
        let n = digits_val(s.skip(1).take(k));
        if n == 0 {
            ScanResult::BadIndex
        } else if n > usize::MAX {
            ScanResult::TooLarge
        } else {
            match spec_scan(s.skip(1 + k)) {
                ScanResult::Parts(ps) => ScanResult::Parts(seq![PartModel::Ref(n)] + ps),
                err => err,
            }
        }
    } else {
        scan_prepend(s[0], spec_scan(s.skip(1)))
    }
}

#[via_fn]
proof fn spec_scan_decreases(s: Seq<char>) {
    if s.len() > 0 {
        lemma_digit_run_len_le(s.skip(1));
    }
}

// ---------------------------------------------------------------------------
// Derived notions: reference counting, bounds, rendering
// ---------------------------------------------------------------------------

/// The number of reference parts.
pub open spec fn count_refs(ps: Seq<PartModel>) -> nat
    decreases ps.len(),
{
    if ps.len() == 0 {
        0
    } else {
        (if ps[0] is Ref {
            1 as nat
        } else {
            0 as nat
        }) + count_refs(ps.skip(1))
    }
}

/// Every reference index is at least one.
pub open spec fn refs_positive(ps: Seq<PartModel>) -> bool {
    forall|i: int| 0 <= i < ps.len() ==> ((#[trigger] ps[i]) is Ref ==> ps[i]->Ref_0 >= 1)
}

/// Every reference lands inside a capture list of length `k`.
pub open spec fn refs_resolvable(ps: Seq<PartModel>, k: nat) -> bool {
    forall|i: int| 0 <= i < ps.len() ==> ((#[trigger] ps[i]) is Ref ==> 1 <= ps[i]->Ref_0 <= k)
}

/// The largest reference index, or zero if there is none.
pub open spec fn spec_max_ref(ps: Seq<PartModel>) -> nat
    decreases ps.len(),
{
    if ps.len() == 0 {
        0
    } else {
        let rest = spec_max_ref(ps.skip(1));
        match ps[0] {
            PartModel::Ref(n) => if n > rest {
                n
            } else {
                rest
            },
            PartModel::Lit(_) => rest,
        }
    }
}

/// What one part contributes to the rendered text.
pub open spec fn part_text(p: PartModel, vals: Seq<Seq<char>>) -> Seq<char> {
    match p {
        PartModel::Lit(l) => l,
        PartModel::Ref(n) => if 1 <= n <= vals.len() {
            vals[n - 1]
        } else {
            Seq::empty()
        },
    }
}

/// Left-to-right rendering of the parts against a capture list.
pub open spec fn spec_render(ps: Seq<PartModel>, vals: Seq<Seq<char>>) -> Seq<char>
    decreases ps.len(),
{
    if ps.len() == 0 {
        Seq::empty()
    } else {
        part_text(ps[0], vals) + spec_render(ps.skip(1), vals)
    }
}

// ---------------------------------------------------------------------------
// Glue between the iterative compiler and the recursive scan
// ---------------------------------------------------------------------------

/// Flushes a pending literal run in front of already-scanned parts.
pub open spec fn lit_flush(lit: Seq<char>, ps: Seq<PartModel>) -> Seq<PartModel> {
    if lit.len() == 0 {
        ps
    } else if ps.len() > 0 && ps[0] is Lit {
        seq![PartModel::Lit(lit + ps[0]->Lit_0)] + ps.skip(1)
    } else {
        seq![PartModel::Lit(lit)] + ps
    }
}

/// The scan of a whole string, expressed from the middle of a left-to-right
/// pass: parts already finished, the pending literal run, and the scan of
/// the remainder.
pub open spec fn glue(done: Seq<PartModel>, lit: Seq<char>, rest: ScanResult) -> ScanResult {
    match rest {
        ScanResult::Parts(ps) => ScanResult::Parts(done + lit_flush(lit, ps)),
        _ => rest,
    }
}

proof fn lemma_lit_flush_prepend(lit: Seq<char>, c: char, ps: Seq<PartModel>)
    ensures
        lit_flush(lit, lit_prepend(c, ps)) =~~= lit_flush(lit.push(c), ps),
{
    if ps.len() > 0 && ps[0] is Lit {
        assert(lit.push(c) + ps[0]->Lit_0 =~= lit + (seq![c] + ps[0]->Lit_0));
        if lit.len() == 0 {
            assert(lit + (seq![c] + ps[0]->Lit_0) =~= seq![c] + ps[0]->Lit_0);
        }
    } else {
        assert(lit.push(c) =~= lit + seq![c]);
        if lit.len() == 0 {
            assert(lit + seq![c] =~= seq![c]);
        }
    }
}

proof fn lemma_glue_char(done: Seq<PartModel>, lit: Seq<char>, c: char, rest: ScanResult)
    ensures
        glue(done, lit, scan_prepend(c, rest)) == glue(done, lit.push(c), rest),
{
    match rest {
        ScanResult::Parts(ps) => {
            lemma_lit_flush_prepend(lit, c, ps);
            assert(done + lit_flush(lit, lit_prepend(c, ps)) =~~= done + lit_flush(
                lit.push(c),
                ps,
            ));
        },
        _ => {},
    }
}

proof fn lemma_glue_ref(done: Seq<PartModel>, lit: Seq<char>, n: nat, ps: Seq<PartModel>)
    ensures
        glue(done, lit, ScanResult::Parts(seq![PartModel::Ref(n)] + ps)) == glue(
            (done + lit_flush(lit, Seq::empty())).push(PartModel::Ref(n)),
            Seq::empty(),
            ScanResult::Parts(ps),
        ),
{
    let head = seq![PartModel::Ref(n)] + ps;
    assert(head[0] == PartModel::Ref(n));
    assert(!(head[0] is Lit));
    assert(head.skip(1) =~= ps);
    assert(done + lit_flush(lit, head) =~~= ((done + lit_flush(lit, Seq::empty())).push(
        PartModel::Ref(n),
    )) + lit_flush(Seq::empty(), ps));
}

// ---------------------------------------------------------------------------
// Executable compiler and renderer
// ---------------------------------------------------------------------------

/// Reports whether `c` is a decimal digit.
pub(crate) fn char_is_digit(c: char) -> (r: bool)
    ensures
        r == is_digit(c),
{
    let d: u32 = c as u32;
    48 <= d && d <= 57
}

/// First position at or after `from` holding no decimal digit.
fn digit_run_end(s: &str, from: usize) -> (r: usize)
    requires
        from <= s@.len(),
    ensures
        from <= r <= s@.len(),
        forall|q: int| from <= q < r ==> is_digit(#[trigger] s@[q]),
        r == s@.len() || !is_digit(s@[r as int]),
{
    let len: usize = s.unicode_len();
    let mut j: usize = from;
    while j < len
        invariant
            from <= j <= len,
            len == s@.len(),
            forall|q: int| from <= q < j ==> is_digit(#[trigger] s@[q]),
        decreases len - j,
    {
        if !char_is_digit(s.get_char(j)) {
            return j;
        }
        j += 1;
    }
    j
}

impl InterpolatedName {
    /// A compiled name is well formed: the reference count is accurate and
    /// every reference index is at least one.
    pub open spec fn wf(&self) -> bool {
        &&& self.n_references == count_refs(self@)
        &&& refs_positive(self@)
    }

    /// Compiles a raw templated name by a single left-to-right scan.
    pub fn parse(s: &str) -> (r: Result<InterpolatedName, TemplateError>)
        ensures
            match r {
                Ok(t) => spec_scan(s@) == ScanResult::Parts(t@) && t.wf(),
                Err(TemplateError::InvalidReferenceIndex) => spec_scan(s@) is BadIndex,
                Err(TemplateError::ReferenceTooLarge) => spec_scan(s@) is TooLarge,
                Err(TemplateError::UnresolvedReference) => false,
            },
    {
        let len: usize = s.unicode_len();
        let mut parts: Vec<InterpolatedNamePart> = Vec::new();
        let mut cur = String::new();
        let mut n_refs: usize = 0;
        let mut i: usize = 0;
        proof {
            assert(s@.skip(0) =~= s@);
            assert(parts.deep_view() =~= Seq::<PartModel>::empty());
            match spec_scan(s@) {
                ScanResult::Parts(ps) => {
                    assert(parts.deep_view() + lit_flush(cur@, ps) =~= ps);
                },
                _ => {},
            }
        }
        while i < len
            invariant
                i <= len,
                len == s@.len(),
                glue(parts.deep_view(), cur@, spec_scan(s@.skip(i as int))) == spec_scan(s@),
                n_refs == count_refs(parts.deep_view()),
                refs_positive(parts.deep_view()),
                n_refs <= i,
            decreases len - i,
        {
            let ghost prev = s@.skip(i as int);
            let c = s.get_char(i);
            proof {
                assert(prev[0] == s@[i as int]);
            }
            if c == '\\' && i + 1 < len && s.get_char(i + 1) == '$' {
                // an escaped dollar sign: literal text
                proof {
                    assert(prev[1] == s@[i + 1]);
                    assert(prev.skip(2) =~= s@.skip(i + 2));
                    lemma_glue_char(parts.deep_view(), cur@, '$', spec_scan(s@.skip(i + 2)));
                    reveal_strlit("$");
                    assert(cur@.push('$') =~= cur@ + "$"@);
                }
                cur.append("$");
                i += 2;
            } else if c == '$' && i + 1 < len && char_is_digit(s.get_char(i + 1)) {
                // a reference: consume the maximal digit run
                proof {
                    assert(prev[1] == s@[i + 1]);
                }
                let run_start: usize = i + 1;
                let j_end: usize = digit_run_end(s, run_start);
                proof {
                    assert(is_digit(s@[run_start as int]));
                    assert(j_end > run_start);
                }
                let ghost run = s@.skip(run_start as int);
                let ghost k: int = j_end - run_start;
                proof {
                    assert forall|q: int| 0 <= q < k implies is_digit(#[trigger] run[q]) by {
                        assert(run[q] == s@[q + run_start]);
                    }
                    if j_end < len {
                        assert(run[k] == s@[j_end as int]);
                    }
                    lemma_digit_run_at(run, k);
                    assert(prev.skip(1) =~= run);
                    assert(is_digit(prev[1]));
                }
                let mut val: usize = 0;
                let mut q: usize = run_start;
                while q < j_end
                    invariant
                        run_start <= q <= j_end <= len,
                        len == s@.len(),
                        run_start == i + 1,
                        i + 1 < len,
                        run == s@.skip(run_start as int),
                        k == j_end - run_start,
                        digit_run_len(run) == k,
                        forall|w: int| run_start <= w < j_end ==> is_digit(#[trigger] s@[w]),
                        val == digits_val(s@.subrange(run_start as int, q as int)),
                        prev == s@.skip(i as int),
                        prev[0] == '$',
                        is_digit(prev[1]),
                        glue(parts.deep_view(), cur@, spec_scan(s@.skip(i as int))) == spec_scan(
                            s@,
                        ),
                    decreases j_end - q,
                {
                    let d32: u32 = s.get_char(q) as u32;
                    let d: usize = (d32 - 48) as usize;
                    let ghost run_pre = s@.subrange(run_start as int, q as int);
                    proof {
                        assert(is_digit(s@[q as int]));
                        lemma_digits_val_snoc(run_pre, s@[q as int]);
                        assert(run_pre.push(s@[q as int]) =~= s@.subrange(
                            run_start as int,
                            q + 1,
                        ));
                        assert(d == digit_val(s@[q as int]));
                    }
                    let next: Option<usize> = match val.checked_mul(10) {
                        Some(v) => v.checked_add(d),
                        None => None,
                    };
                    match next {
                        Some(v) => {
                            val = v;
                        },
                        None => {
                            // the whole digit run is larger still, so the
                            // reference index cannot fit this machine
                            proof {
                                let m: int = q - run_start;
                                assert(digits_val(s@.subrange(run_start as int, q + 1)) > usize::MAX);
                                assert(run.take(m + 1) =~= s@.subrange(run_start as int, q + 1));
                                assert(run.take(k).take(m + 1) =~= run.take(m + 1));
                                lemma_digits_val_prefix(run.take(k), m + 1);
                                assert(digits_val(run.take(k)) > usize::MAX);
                                assert(prev.skip(1) =~= run);
                                assert(prev.len() > 1);
                                assert(prev[1] == run[0]);
                                assert(digit_run_len(prev.skip(1)) == k);
                                assert(spec_scan(prev) is TooLarge);
                                assert(spec_scan(s@) is TooLarge);
                            }
                            return Err(TemplateError::ReferenceTooLarge);
                        },
                    }
                    q += 1;
                }
                proof {
                    assert(run.take(k) =~= s@.subrange(run_start as int, j_end as int));
                    assert(val == digits_val(run.take(k)));
                    assert(prev.skip(1 + k) =~= s@.skip(j_end as int));
                }
                if val == 0 {
                    proof {
                        assert(spec_scan(prev) is BadIndex);
                        assert(spec_scan(s@) is BadIndex);
                    }
                    return Err(TemplateError::InvalidReferenceIndex);
                }
                // flush the pending literal, then push the reference
                let ghost old_parts = parts.deep_view();
                let ghost old_cur = cur@;
                if !cur.as_str().is_empty() {
                    parts.push(InterpolatedNamePart::Literal(cur));
                    cur = String::new();
                }
                parts.push(InterpolatedNamePart::Reference(val));
                n_refs += 1;
                proof {
                    assert(parts.deep_view() =~= (old_parts + lit_flush(
                        old_cur,
                        Seq::empty(),
                    )).push(PartModel::Ref(val as nat)));
                    assert(cur@ =~= Seq::<char>::empty());
                    lemma_count_refs_snoc_seq(old_parts, old_cur, val as nat);
                    match spec_scan(s@.skip(j_end as int)) {
                        ScanResult::Parts(ps) => {
                            lemma_glue_ref(old_parts, old_cur, val as nat, ps);
                            assert(spec_scan(prev) == ScanResult::Parts(
                                seq![PartModel::Ref(val as nat)] + ps,
                            ));
                        },
                        _ => {},
                    }
                    assert(glue(parts.deep_view(), cur@, spec_scan(s@.skip(j_end as int)))
                        == spec_scan(s@));
                }
                i = j_end;
            } else {
                // ordinary literal character
                let piece = s.substring_char(i, i + 1);
                proof {
                    assert(piece@ =~= seq![c]);
                    assert(prev.skip(1) =~= s@.skip(i + 1));
                    assert(spec_scan(prev) == scan_prepend(c, spec_scan(s@.skip(i + 1)))) by {
                        if prev.len() > 1 {
                            assert(prev[1] == s@[i + 1]);
                        }
                    }
                    lemma_glue_char(parts.deep_view(), cur@, c, spec_scan(s@.skip(i + 1)));
                    assert(cur@.push(c) =~= cur@ + piece@);
                }
                cur.append(piece);
                i += 1;
            }
        }
        proof {
            assert(s@.skip(len as int) =~= Seq::<char>::empty());
        }
        let ghost old_parts = parts.deep_view();
        let ghost old_cur = cur@;
        if !cur.as_str().is_empty() {
            parts.push(InterpolatedNamePart::Literal(cur));
        }
        proof {
            assert(parts.deep_view() =~= old_parts + lit_flush(old_cur, Seq::empty()));
            lemma_count_refs_flush_seq(old_parts, old_cur);
        }
        let result = InterpolatedName { parts, n_references: n_refs };
        proof {
            assert(spec_scan(s@) == ScanResult::Parts(result@));
        }
        Ok(result)
    }

    /// Renders the name against a capture list: literal parts verbatim and
    /// each reference `$n` as the n-th capture, left to right; a reference
    /// with no capture to stand for it fails, and nothing partial is handed
    /// out.
    pub fn interpolate(&self, reference_values: &Vec<String>) -> (r: Result<String, TemplateError>)
        ensures
            r is Ok <==> refs_resolvable(self@, reference_values.deep_view().len() as nat),
            r matches Ok(out) ==> out@ == spec_render(self@, reference_values.deep_view()),
            r matches Err(e) ==> e == TemplateError::UnresolvedReference,
    {
        let ghost ps = self@;
        let ghost vals = reference_values.deep_view();
        let mut out = String::new();
        let mut i: usize = 0;
        proof {
            assert(ps.skip(0) =~= ps);
            assert(spec_render(ps, vals) =~= out@ + spec_render(ps.skip(0), vals));
        }
        while i < self.parts.len()
            invariant
                i <= self.parts.len(),
                ps == self@,
                vals == reference_values.deep_view(),
                ps.len() == self.parts.len(),
                vals.len() == reference_values.len(),
                spec_render(ps, vals) =~= out@ + spec_render(ps.skip(i as int), vals),
                forall|w: int| 0 <= w < i ==> ((#[trigger] ps[w]) is Ref ==> 1 <= ps[w]->Ref_0
                    <= vals.len()),
            decreases self.parts.len() - i,
        {
            proof {
                assert(ps.skip(i as int)[0] == ps[i as int]);
                assert(ps[i as int] == self.parts[i as int]@);
                assert(ps.skip(i as int).skip(1) =~= ps.skip(i + 1));
            }
            match &self.parts[i] {
                InterpolatedNamePart::Literal(l) => {
                    out.append(l.as_str());
                },
                InterpolatedNamePart::Reference(n) => {
                    let n: usize = *n;
                    if n < 1 || n > reference_values.len() {
                        proof {
                            assert(ps[i as int] is Ref);
                            assert(!(1 <= ps[i as int]->Ref_0 <= vals.len()));
                        }
                        return Err(TemplateError::UnresolvedReference);
                    }
                    proof {
                        assert(vals[n - 1] == reference_values[n - 1]@);
                    }
                    out.append(reference_values[n - 1].as_str());
                },
            }
            i += 1;
        }
        proof {
            assert(spec_render(ps.skip(i as int), vals) =~= Seq::<char>::empty());
            assert(out@ =~= spec_render(ps, vals));
        }
        Ok(out)
    }
}

/// The largest reference index used by a compiled name, or zero if the name
/// holds no references.
pub fn find_max_ref(name: &InterpolatedName) -> (r: usize)
    ensures
        r == spec_max_ref(name@),
{
    let ghost ps = name@;
    let mut r: usize = 0;
    let mut i: usize = 0;
    proof {
        assert(ps.skip(0) =~= ps);
    }
    while i < name.parts.len()
        invariant
            i <= name.parts.len(),
            ps == name@,
            ps.len() == name.parts.len(),
            spec_max_ref(ps) == if spec_max_ref(ps.skip(i as int)) > r as nat {
                spec_max_ref(ps.skip(i as int))
            } else {
                r as nat
            },
        decreases name.parts.len() - i,
    {
        proof {
            assert(ps.skip(i as int)[0] == ps[i as int]);
            assert(ps[i as int] == name.parts[i as int]@);
            assert(ps.skip(i as int).skip(1) =~= ps.skip(i + 1));
        }
        match &name.parts[i] {
            InterpolatedNamePart::Literal(_) => {},
            InterpolatedNamePart::Reference(n) => {
                if *n > r {
                    r = *n;
                }
            },
        }
        i += 1;
    }
    proof {
        assert(spec_max_ref(ps.skip(i as int)) == 0);
    }
    r
}

// ---------------------------------------------------------------------------
// Counting helpers for the compiler
// ---------------------------------------------------------------------------

proof fn lemma_count_refs_snoc(ps: Seq<PartModel>, p: PartModel)
    ensures
        count_refs(ps.push(p)) == count_refs(ps) + (if p is Ref {
            1 as nat
        } else {
            0 as nat
        }),
    decreases ps.len(),
{
    assert(ps.push(p).len() == ps.len() + 1);
    if ps.len() == 0 {
        assert(ps.push(p)[0] == p);
        assert(ps.push(p).skip(1) =~= Seq::<PartModel>::empty());
        assert(count_refs(ps.push(p).skip(1)) == 0);
        assert(count_refs(ps) == 0);
        assert(count_refs(ps.push(p)) == (if ps.push(p)[0] is Ref {
            1 as nat
        } else {
            0 as nat
        }) + count_refs(ps.push(p).skip(1)));
    } else {
        assert(ps.push(p)[0] == ps[0]);
        assert(ps.push(p).skip(1) =~= ps.skip(1).push(p));
        lemma_count_refs_snoc(ps.skip(1), p);
        assert(count_refs(ps.push(p)) == (if ps.push(p)[0] is Ref {
            1 as nat
        } else {
            0 as nat
        }) + count_refs(ps.push(p).skip(1)));
    }
}

proof fn lemma_count_refs_flush_seq(done: Seq<PartModel>, lit: Seq<char>)
    ensures
        count_refs(done + lit_flush(lit, Seq::empty())) == count_refs(done),
        refs_positive(done) ==> refs_positive(done + lit_flush(lit, Seq::empty())),
{
    if lit.len() == 0 {
        assert(done + lit_flush(lit, Seq::empty()) =~= done);
    } else {
        let snoc = done.push(PartModel::Lit(lit));
        assert(done + lit_flush(lit, Seq::empty()) =~= snoc);
        lemma_count_refs_snoc(done, PartModel::Lit(lit));
        if refs_positive(done) {
            assert forall|i: int| 0 <= i < snoc.len() implies ((#[trigger] snoc[i]) is Ref
                ==> snoc[i]->Ref_0 >= 1) by {
                if i < done.len() {
                    assert(snoc[i] == done[i]);
                }
            }
        }
    }
}

proof fn lemma_count_refs_snoc_seq(done: Seq<PartModel>, lit: Seq<char>, n: nat)
    requires
        n >= 1,
    ensures
        count_refs((done + lit_flush(lit, Seq::empty())).push(PartModel::Ref(n))) == count_refs(
            done,
        ) + 1,
        refs_positive(done) ==> refs_positive(
            (done + lit_flush(lit, Seq::empty())).push(PartModel::Ref(n)),
        ),
{
    let flushed = done + lit_flush(lit, Seq::empty());
    lemma_count_refs_flush_seq(done, lit);
    lemma_count_refs_snoc(flushed, PartModel::Ref(n));
    if refs_positive(done) {
        let snoc = flushed.push(PartModel::Ref(n));
        assert forall|i: int| 0 <= i < snoc.len() implies ((#[trigger] snoc[i]) is Ref
            ==> snoc[i]->Ref_0 >= 1) by {
            if i < flushed.len() {
                assert(snoc[i] == flushed[i]);
            }
        }
    }
}

// ---------------------------------------------------------------------------
// Laws
// ---------------------------------------------------------------------------

/// Law: for a compiled name (whose references are all at least one),
/// rendering against `k` captures succeeds exactly when the largest
/// reference index does not exceed `k`.
pub proof fn lemma_render_succeeds_iff_enough(ps: Seq<PartModel>, k: nat)
    requires
        refs_positive(ps),
    ensures
        refs_resolvable(ps, k) <==> spec_max_ref(ps) <= k,
    decreases ps.len(),
{
    if ps.len() == 0 {
    } else {
        assert forall|i: int| 0 <= i < ps.skip(1).len() implies ((#[trigger] ps.skip(1)[i]) is Ref
            ==> ps.skip(1)[i]->Ref_0 >= 1) by {
            assert(ps.skip(1)[i] == ps[i + 1]);
        }
        lemma_render_succeeds_iff_enough(ps.skip(1), k);
        if refs_resolvable(ps, k) {
            assert forall|i: int| 0 <= i < ps.skip(1).len() implies ((#[trigger] ps.skip(
                1,
            )[i]) is Ref ==> 1 <= ps.skip(1)[i]->Ref_0 <= k) by {
                assert(ps.skip(1)[i] == ps[i + 1]);
            }
        }
        if spec_max_ref(ps) <= k {
            assert forall|i: int| 0 <= i < ps.len() implies ((#[trigger] ps[i]) is Ref
                ==> 1 <= ps[i]->Ref_0 <= k) by {
                if i > 0 {
                    assert(ps[i] == ps.skip(1)[i - 1]);
                }
            }
        }
    }
}

/// Law: two renderings on identical parts and captures are identical; the
/// renderer carries no hidden state.
pub proof fn lemma_render_deterministic(
    ps: Seq<PartModel>,
    vals: Seq<Seq<char>>,
    r1: Seq<char>,
    r2: Seq<char>,
)
    requires
        r1 == spec_render(ps, vals),
        r2 == spec_render(ps, vals),
    ensures
        r1 == r2,
{
}

} // verus!
