//! Compile-time preparation of translations: parameter counting, tokenising, and
//! naming the constants generated for a language file.
use vstd::prelude::*;
use vstd::string::StringExecFns;

use heck::ToShoutySnakeCase;
use rustc_hash::{FxBuildHasher, FxHashMap};
use serde_json::Value;

use crate::component::ComponentModel;
use crate::translation::{
    chars_of, digit_index, positional_at, sequential_at, split_from, split_segments, split_text,
    token_accepts, tokens_view, TokenModel, TranslationToken,
};

verus! {

/// Number of sequential placeholders `%s` that start before position `n`.
pub open spec fn sequential_count(t: Seq<char>, n: int) -> nat
    decreases n,
{
    if n <= 0 {
        0
    } else {
        sequential_count(t, n - 1) + if sequential_at(t, n - 1) {
            1nat
        } else {
            0nat
        }
    }
}

/// Largest index `n` of a positional placeholder `%n$s` that starts before
/// position `m`; 0 when there is none.
pub open spec fn positional_max(t: Seq<char>, m: int) -> nat
    decreases m,
{
    if m <= 0 {
        0
    } else {
        let before = positional_max(t, m - 1);
        if positional_at(t, m - 1) && digit_index(t[m]) > before {
            digit_index(t[m]) as nat
        } else {
            before
        }
    }
}

/// The number of parameters of a translation text: the number of `%s`
/// placeholders, or the largest `n` of a `%n$s` placeholder, whichever is larger.
pub open spec fn parameter_count(t: Seq<char>) -> nat {
    let s = sequential_count(t, t.len() as int);
    let p = positional_max(t, t.len() as int);
    if s >= p {
        s
    } else {
        p
    }
}

/// Counts the parameters of a translation text (see [`parameter_count`]).
pub fn count_parameters(text: &str) -> (r: usize)
    ensures
        r == parameter_count(text@),
{
    let ghost t = text@;
    let chars = chars_of(text);
    let n = chars.len();
    let mut sequential: usize = 0;
    let mut positional: usize = 0;
    let mut p: usize = 0;
    while p < n
        invariant
            p <= n,
            n == t.len(),
            chars@ == t,
            sequential == sequential_count(t, p as int),
            sequential <= p,
            positional == positional_max(t, p as int),
            positional <= 8,
        decreases n - p,
    {
        if p + 1 < n && chars[p] == '%' && chars[p + 1] == 's' {
            sequential = sequential + 1;
        }
        if 3 < n - p && chars[p] == '%' && '1' <= chars[p + 1] && chars[p + 1] <= '8'
            && chars[p + 2] == '$' && chars[p + 3] == 's' {
            let idx = (chars[p + 1] as u32 - '0' as u32) as usize;
            assert(positional_at(t, p as int));
            assert(idx == digit_index(t[p + 1]));
            if idx > positional {
                positional = idx;
            }
        } else {
            assert(!positional_at(t, p as int));
        }
        p = p + 1;
    }
    if sequential >= positional {
        sequential
    } else {
        positional
    }
}

/// The tokens of a list of segments: each segment's text, followed by a reference
/// to the argument after it when there is one.
pub open spec fn tokens_for(segments: Seq<(Seq<char>, nat)>) -> Seq<TokenModel>
    decreases segments.len(),
{
    if segments.len() == 0 {
        seq![]
    } else {
        let (text, arg) = segments[0];
        seq![TokenModel::Text(text)] + (if arg > 0 {
            seq![TokenModel::Arg(arg)]
        } else {
            seq![]
        }) + tokens_for(segments.drop_first())
    }
}

/// The tokens of a translation text, as slices of the text.
pub fn process_tokens<'a>(text: &'a str) -> (r: Vec<TranslationToken<'a>>)
    ensures
        tokens_view(r@) == tokens_for(split_text(text@)),
{
    let segments = split_segments(text);
    let ghost segs = split_text(text@);
    let mut out: Vec<TranslationToken<'a>> = Vec::new();
    let mut i: usize = 0;
    assert(segs.skip(0) =~= segs);
    assert(tokens_view(out@) =~= Seq::<TokenModel>::empty());
    while i < segments.len()
        invariant
            i <= segments@.len(),
            segs.len() == segments@.len(),
            forall|j: int|
                0 <= j < segs.len() ==> #[trigger] segs[j] == (
                    segments@[j].0@,
                    segments@[j].1 as nat,
                ),
            tokens_view(out@) + tokens_for(segs.skip(i as int)) == tokens_for(segs),
        decreases segments@.len() - i,
    {
        let ghost before = tokens_view(out@);
        let (text_part, arg) = segments[i];
        assert(segs.skip(i as int)[0] == segs[i as int]);
        assert(segs.skip(i as int).drop_first() =~= segs.skip(i + 1));
        out.push(TranslationToken::Text(text_part));
        if arg > 0 {
            out.push(TranslationToken::Arg(arg));
            assert(tokens_view(out@) =~= before + seq![
                TokenModel::Text(text_part@),
                TokenModel::Arg(arg as nat),
            ]);
        } else {
            assert(tokens_view(out@) =~= before + seq![TokenModel::Text(text_part@)]);
        }
        i += 1;
    }
    assert(segs.skip(segs.len() as int) =~= Seq::<(Seq<char>, nat)>::empty());
    out
}

/// A store of translations by locale and key.
pub trait TranslationsRegistry {
    fn register(
        &mut self,
        locale: &'static str,
        key: &'static str,
        translation: &'static [TranslationToken<'static>],
    );
}

// ----- every argument a text refers to is within its parameter count -----

proof fn lemma_sequential_count_monotone(t: Seq<char>, a: int, b: int)
    requires
        a <= b,
    ensures
        sequential_count(t, a) <= sequential_count(t, b),
    decreases b - a,
{
    if a < b {
        lemma_sequential_count_monotone(t, a, b - 1);
    }
}

proof fn lemma_positional_below_max(t: Seq<char>, q: int, m: int)
    requires
        0 <= q < m,
        positional_at(t, q),
    ensures
        digit_index(t[q + 1]) <= positional_max(t, m),
    decreases m - q,
{
    if q < m - 1 {
        lemma_positional_below_max(t, q, m - 1);
    }
}

proof fn lemma_split_from_bounded(t: Seq<char>, start: int, p: int, counter: nat)
    requires
        0 <= p,
        counter == sequential_count(t, p),
    ensures
        forall|i: int|
            0 <= i < split_from(t, start, p, counter).len() ==> (#[trigger] split_from(
                t,
                start,
                p,
                counter,
            )[i]).1 <= parameter_count(t),
    decreases t.len() - p,
{
    let n = t.len() as int;
    let all = split_from(t, start, p, counter);
    if p >= n {
        assert(all == seq![(t.subrange(start, n), 0nat)]);
        assert forall|i: int| 0 <= i < all.len() implies (#[trigger] all[i]).1 <= parameter_count(t) by {
            assert(all[i].1 == 0);
        }
    } else if sequential_at(t, p) {
        assert(sequential_count(t, p + 1) == counter + 1);
        assert(!sequential_at(t, p + 1));
        assert(sequential_count(t, p + 2) == counter + 1);
        lemma_sequential_count_monotone(t, p + 1, n);
        lemma_split_from_bounded(t, p + 2, p + 2, counter + 1);
        let rest = split_from(t, p + 2, p + 2, counter + 1);
        assert(all == seq![(t.subrange(start, p), counter + 1)] + rest);
        assert forall|i: int| 0 <= i < all.len() implies (#[trigger] all[i]).1 <= parameter_count(t) by {
            if i > 0 {
                assert(all[i] == rest[i - 1]);
            }
        }
    } else if positional_at(t, p) {
        lemma_positional_below_max(t, p, n);
        assert(!sequential_at(t, p));
        assert(sequential_count(t, p + 1) == counter);
        assert(!sequential_at(t, p + 1));
        assert(sequential_count(t, p + 2) == counter);
        assert(!sequential_at(t, p + 2));
        assert(sequential_count(t, p + 3) == counter);
        assert(!sequential_at(t, p + 3));
        assert(sequential_count(t, p + 4) == counter);
        lemma_split_from_bounded(t, p + 4, p + 4, counter);
        let rest = split_from(t, p + 4, p + 4, counter);
        assert(all == seq![(t.subrange(start, p), digit_index(t[p + 1]) as nat)] + rest);
        assert forall|i: int| 0 <= i < all.len() implies (#[trigger] all[i]).1 <= parameter_count(t) by {
            if i > 0 {
                assert(all[i] == rest[i - 1]);
            }
        }
    } else {
        assert(sequential_count(t, p + 1) == counter);
        lemma_split_from_bounded(t, start, p + 1, counter);
        assert(all == split_from(t, start, p + 1, counter));
    }
}

proof fn lemma_tokens_for_accept(segments: Seq<(Seq<char>, nat)>, values: Option<Seq<ComponentModel>>)
    requires
        forall|i: int|
            0 <= i < segments.len() ==> (values matches Some(v) ==> (#[trigger] segments[i]).1
                <= v.len()),
    ensures
        forall|i: int|
            0 <= i < tokens_for(segments).len() ==> token_accepts(
                #[trigger] tokens_for(segments)[i],
                values,
            ),
    decreases segments.len(),
{
    if segments.len() > 0 {
        let rest = segments.drop_first();
        assert forall|i: int| 0 <= i < rest.len() implies (values matches Some(v) ==> (
        #[trigger] rest[i]).1 <= v.len()) by {
            assert(rest[i] == segments[i + 1]);
        }
        lemma_tokens_for_accept(rest, values);
        let (text, arg) = segments[0];
        let head: Seq<TokenModel> = seq![TokenModel::Text(text)] + (if arg > 0 {
            seq![TokenModel::Arg(arg)]
        } else {
            seq![]
        });
        let all = tokens_for(segments);
        assert(all == head + tokens_for(rest));
        assert forall|i: int| 0 <= i < all.len() implies token_accepts(#[trigger] all[i], values) by {
            if i >= head.len() {
                assert(all[i] == tokens_for(rest)[i - head.len()]);
            }
        }
    }
}

/// The tokens generated for a translation text, assembled with as many arguments
/// as the text has parameters (or with none), refer only to arguments that are
/// there: assembling them never indexes out of range.
pub proof fn lemma_generated_tokens_are_accepted(
    t: Seq<char>,
    values: Option<Seq<ComponentModel>>,
)
    requires
        values matches Some(v) ==> v.len() == parameter_count(t),
    ensures
        forall|i: int|
            0 <= i < tokens_for(split_text(t)).len() ==> token_accepts(
                #[trigger] tokens_for(split_text(t))[i],
                values,
            ),
{
    lemma_split_from_bounded(t, 0, 0, 0);
    lemma_tokens_for_accept(split_text(t), values);
}

// ----- reading a language file -----

/// `a` comes before `b` in the order of `String`: character by character, by
/// code point, a proper prefix first (for UTF-8 text the order of the bytes is
/// that of the code points).
pub open spec fn key_less(a: Seq<char>, b: Seq<char>) -> bool
    decreases a.len(),
{
    if a.len() == 0 {
        b.len() > 0
    } else if b.len() == 0 {
        false
    } else if a[0] != b[0] {
        (a[0] as u32) < (b[0] as u32)
    } else {
        key_less(a.drop_first(), b.drop_first())
    }
}

/// Each key comes strictly before the next: the keys are sorted and none occurs
/// twice.
pub open spec fn keys_increasing(es: Seq<(Seq<char>, Option<Seq<char>>)>) -> bool {
    forall|i: int| 0 <= i < es.len() - 1 ==> key_less(#[trigger] es[i].0, es[i + 1].0)
}

/// The abstract value of a language file's entries: each key with its text, or
/// `None` where the value is not a string.
pub open spec fn entries_model(es: Seq<(String, Option<String>)>) -> Seq<(Seq<char>, Option<Seq<char>>)> {
    Seq::new(
        es.len(),
        |i: int|
            (
                es[i].0@,
                match es[i].1 {
                    Some(t) => Some(t@),
                    None => None,
                },
            ),
    )
}

/// The entries that `serde_json` reads from the text of a language file (a JSON
/// object), each key with its string value or `None` for a value of another kind;
/// `None` when the text is not a JSON object.
pub uninterp spec fn language_entries(text: Seq<char>) -> Option<Seq<(Seq<char>, Option<Seq<char>>)>>;

/// Parses `text` with `serde_json::from_str` into a `serde_json::Map<String,
/// Value>` and lists its entries, a string value as `Some` and any other value as
/// `None`; `None` when the parse fails. The result is named by
/// [`language_entries`], a function of the text alone; what JSON parsing yields is
/// not stated. Without serde_json's `preserve_order` feature (which this crate does
/// not enable) the map is a `BTreeMap`, whose entries come out once per key, in
/// increasing order of the key.
#[verifier::external_body]
fn parse_language_file(text: &str) -> (r: Option<Vec<(String, Option<String>)>>)
    ensures
        (match r {
            Some(es) => language_entries(text@) == Some(entries_model(es@)) && keys_increasing(
                entries_model(es@),
            ),
            None => language_entries(text@) is None,
        }),
{
    let map: serde_json::Map<String, Value> = serde_json::from_str(text).ok()?;
    let mut out = Vec::new();
    for (key, value) in map {
        let string = match value {
            Value::String(s) => Some(s),
            Value::Null | Value::Bool(_) | Value::Number(_) => None,
            Value::Array(_) | Value::Object(_) => None,
        };
        out.push((key, string));
    }
    Some(out)
}

// ----- naming the translation constants -----

#[verifier::external_type_specification]
#[verifier::external_body]
pub struct ExFxBuildHasher(FxBuildHasher);

/// The SHOUTY_SNAKE_CASE form of a text, as `heck` computes it.
pub uninterp spec fn shouty_snake(text: Seq<char>) -> Seq<char>;

/// Calls `heck::ToShoutySnakeCase::to_shouty_snake_case` on `text`; the result
/// is named by [`shouty_snake`], a function of the text alone. What the
/// conversion does (word boundaries, upper-casing) is not stated.
#[verifier::external_body]
fn to_shouty_snake_case(text: &str) -> (r: String)
    ensures
        r@ == shouty_snake(text@),
{
    text.to_shouty_snake_case()
}

/// The decimal digits of `n`, most significant first.
pub open spec fn decimal(n: nat) -> Seq<char>
    decreases n,
{
    if n < 10 {
        seq![(48 + n) as char]
    } else {
        decimal(n / 10).push((48 + n % 10) as char)
    }
}

/// `n` in decimal, as its `Display` writes it (`ToString::to_string`): the
/// digits of an unsigned integer, most significant first.
#[verifier::external_body]
fn decimal_string(n: usize) -> (r: String)
    ensures
        r@ == decimal(n as nat),
{
    n.to_string()
}

/// `name`, an underscore, and `count` in decimal.
fn numbered_name(name: &String, count: usize) -> (r: String)
    ensures
        r@ == name@ + "_"@ + decimal(count as nat),
{
    let mut out = name.clone();
    out.append("_");
    let digits = decimal_string(count);
    out.append(digits.as_str());
    out
}

/// The names already used, each with how many times it was used again: the
/// contents of an `FxHashMap<String, usize>`, keyed by the text of each name.
pub uninterp spec fn name_counts(m: NameCounts) -> Map<Seq<char>, usize>;

/// The map from used names to how many times each was used again.
pub type NameCounts = FxHashMap<String, usize>;

/// Creates an empty `FxHashMap` (`FxHashMap::default`).
#[verifier::external_body]
fn new_name_counts() -> (r: NameCounts)
    ensures
        name_counts(r) =~= Map::empty(),
{
    FxHashMap::default()
}

/// Looks a name up (`HashMap::get`, the value copied out).
#[verifier::external_body]
fn get_name_count(m: &NameCounts, name: &String) -> (r: Option<usize>)
    ensures
        r == (if name_counts(*m).contains_key(name@) {
            Some(name_counts(*m)[name@])
        } else {
            None
        }),
{
    m.get(name).copied()
}

/// Sets the count of a name (`HashMap::insert`, its result dropped).
#[verifier::external_body]
fn set_name_count(m: &mut NameCounts, name: String, count: usize)
    ensures
        name_counts(*final(m)) == name_counts(*old(m)).insert(name@, count),
{
    m.insert(name, count);
}

/// What preparing one entry of a language file decides.
#[derive(Debug)]
pub enum TranslationPlan {
    /// The value of `key` is not a string: the entry is skipped.
    NotText { key: String },
    /// The text of `key` has `count` parameters, more than eight: the entry is skipped.
    TooManyParameters { key: String, count: usize },
    /// A constant `name` for `key`, whose text takes `param_count` arguments (its
    /// tokens are those of [`process_tokens`]).
    Constant { name: String, key: String, text: String, param_count: usize },
}

/// The abstract value of a [`TranslationPlan`].
pub enum PlanModel {
    NotText { key: Seq<char> },
    TooManyParameters { key: Seq<char>, count: nat },
    Constant { name: Seq<char>, key: Seq<char>, text: Seq<char>, param_count: nat },
}

impl View for TranslationPlan {
    type V = PlanModel;

    open spec fn view(&self) -> PlanModel {
        match self {
            TranslationPlan::NotText { key } => PlanModel::NotText { key: key@ },
            TranslationPlan::TooManyParameters { key, count } => PlanModel::TooManyParameters {
                key: key@,
                count: *count as nat,
            },
            TranslationPlan::Constant { name, key, text, param_count } => PlanModel::Constant {
                name: name@,
                key: key@,
                text: text@,
                param_count: *param_count as nat,
            },
        }
    }
}

/// The name of the constant for `key`, and the names used afterwards: the
/// SHOUTY_SNAKE_CASE form of the key, numbered `_1`, `_2`, ... when that form
/// was used before.
pub open spec fn constant_name(key: Seq<char>, used: Map<Seq<char>, usize>) -> (Seq<char>, Map<Seq<char>, usize>) {
    let base = shouty_snake(key);
    if used.contains_key(base) {
        let n = used[base] + 1;
        (base + "_"@ + decimal(n as nat), used.insert(base, n as usize))
    } else {
        (base, used.insert(base, 0))
    }
}

/// The plan for `es`, given the names used so far: a non-string value is skipped,
/// a text with more than eight parameters is skipped, and any other entry becomes
/// a constant named after its key, with its parameter count.
pub open spec fn plan_from(es: Seq<(Seq<char>, Option<Seq<char>>)>, used: Map<Seq<char>, usize>) -> Seq<PlanModel>
    decreases es.len(),
{
    if es.len() == 0 {
        seq![]
    } else {
        let (key, value) = es[0];
        let rest = es.drop_first();
        match value {
            None => seq![PlanModel::NotText { key }] + plan_from(rest, used),
            Some(text) => {
                let count = parameter_count(text);
                if count > 8 {
                    seq![PlanModel::TooManyParameters { key, count }] + plan_from(rest, used)
                } else {
                    let (name, used2) = constant_name(key, used);
                    seq![PlanModel::Constant { name, key, text, param_count: count }] + plan_from(
                        rest,
                        used2,
                    )
                }
            },
        }
    }
}

/// The abstract value of a list of plans.
pub open spec fn plans_model(ps: Seq<TranslationPlan>) -> Seq<PlanModel> {
    Seq::new(ps.len(), |i: int| ps[i]@)
}

/// Decides, entry by entry in key order, what becomes of a language file:
/// entries whose value is not a string and texts with more than eight parameters
/// are skipped; every other entry becomes a constant named after its key (see
/// [`constant_name`]), with its parameter count.
pub fn plan_translations(entries: &Vec<(String, Option<String>)>) -> (r: Vec<TranslationPlan>)
    requires
        keys_increasing(entries_model(entries@)),
    ensures
        plans_model(r@) == plan_from(entries_model(entries@), Map::empty()),
{
    let ghost es = entries_model(entries@);
    let mut used = new_name_counts();
    let mut out: Vec<TranslationPlan> = Vec::new();
    let mut i: usize = 0;
    assert(es.skip(0) =~= es);
    assert(plans_model(out@) =~= Seq::<PlanModel>::empty());
    while i < entries.len()
        invariant
            i <= entries@.len(),
            es == entries_model(entries@),
            forall|k: Seq<char>|
                #[trigger] name_counts(used).contains_key(k) ==> name_counts(used)[k] <= i,
            plans_model(out@) + plan_from(es.skip(i as int), name_counts(used)) == plan_from(
                es,
                Map::empty(),
            ),
        decreases entries@.len() - i,
    {
        let ghost before = plans_model(out@);
        let ghost used0 = name_counts(used);
        let ghost rest = es.skip(i as int);
        assert(rest[0] == es[i as int]);
        assert(rest.drop_first() =~= es.skip(i + 1));
        let (key, value) = &entries[i];
        match value {
            None => {
                out.push(TranslationPlan::NotText { key: key.clone() });
                assert(plans_model(out@) =~= before + seq![PlanModel::NotText { key: key@ }]);
            },
            Some(text) => {
                let count = count_parameters(text.as_str());
                if count > 8 {
                    out.push(TranslationPlan::TooManyParameters { key: key.clone(), count });
                    assert(plans_model(out@) =~= before + seq![
                        PlanModel::TooManyParameters { key: key@, count: count as nat },
                    ]);
                } else {
                    let base = to_shouty_snake_case(key.as_str());
                    let name = match get_name_count(&used, &base) {
                        Some(n) => {
                            let next = n + 1;
                            let name = numbered_name(&base, next);
                            set_name_count(&mut used, base, next);
                            name
                        },
                        None => {
                            set_name_count(&mut used, base.clone(), 0);
                            base
                        },
                    };
                    let ghost name_model = constant_name(key@, used0);
                    assert(name@ == name_model.0);
                    assert(name_counts(used) =~= name_model.1);
                    out.push(
                        TranslationPlan::Constant {
                            name,
                            key: key.clone(),
                            text: text.clone(),
                            param_count: count,
                        },
                    );
                    assert(plans_model(out@) =~= before + seq![
                        PlanModel::Constant {
                            name: name_model.0,
                            key: key@,
                            text: text@,
                            param_count: count as nat,
                        },
                    ]);
                }
            },
        }
        i += 1;
    }
    assert(es.skip(entries@.len() as int) =~= Seq::<(Seq<char>, Option<Seq<char>>)>::empty());
    out
}

/// What becomes of each entry, whatever names were used before: the plan has one
/// item per entry, in order; an entry whose value is not a string is skipped as
/// such; a text with at most eight parameters becomes a constant for its key,
/// with its text and its parameter count; and only a text with more than eight
/// parameters is skipped for that, with its count.
pub proof fn lemma_plan_entry_by_entry(
    es: Seq<(Seq<char>, Option<Seq<char>>)>,
    used: Map<Seq<char>, usize>,
)
    ensures
        plan_from(es, used).len() == es.len(),
        forall|i: int|
            0 <= i < es.len() ==> match (#[trigger] es[i]).1 {
                None => plan_from(es, used)[i] == PlanModel::NotText { key: es[i].0 },
                Some(t) => if parameter_count(t) <= 8 {
                    plan_from(es, used)[i] matches PlanModel::Constant { key, text, param_count, .. }
                        && key == es[i].0 && text == t && param_count == parameter_count(t)
                } else {
                    plan_from(es, used)[i] == PlanModel::TooManyParameters {
                        key: es[i].0,
                        count: parameter_count(t),
                    }
                },
            },
    decreases es.len(),
{
    if es.len() > 0 {
        let (key, value) = es[0];
        let rest = es.drop_first();
        let next_used = match value {
            Some(text) => if parameter_count(text) > 8 {
                used
            } else {
                constant_name(key, used).1
            },
            None => used,
        };
        lemma_plan_entry_by_entry(rest, next_used);
        let all = plan_from(es, used);
        assert(all == seq![all[0]] + plan_from(rest, next_used));
        assert forall|i: int| 1 <= i < es.len() implies all[i] == plan_from(rest, next_used)[i - 1]
            && #[trigger] es[i] == rest[i - 1] by {}
    }
}

/// The entry becomes a constant: its value is a text with at most eight parameters.
pub open spec fn becomes_constant(e: (Seq<char>, Option<Seq<char>>)) -> bool {
    e.1 matches Some(t) && parameter_count(t) <= 8
}

/// How many of the first `i` entries become constants whose key has the
/// SHOUTY_SNAKE_CASE form `base`.
pub open spec fn constants_before(es: Seq<(Seq<char>, Option<Seq<char>>)>, i: int, base: Seq<char>) -> nat
    decreases i,
{
    if i <= 0 {
        0
    } else {
        constants_before(es, i - 1, base) + if becomes_constant(es[i - 1]) && shouty_snake(
            es[i - 1].0,
        ) == base {
            1nat
        } else {
            0nat
        }
    }
}

/// The name a constant gets when `k` earlier constants of the plan share its base
/// form and `used` holds the names used before the plan.
pub open spec fn expected_name(base: Seq<char>, used: Map<Seq<char>, usize>, k: nat) -> Seq<char> {
    if used.contains_key(base) {
        base + "_"@ + decimal((used[base] + k + 1) as nat)
    } else if k == 0 {
        base
    } else {
        base + "_"@ + decimal(k)
    }
}

proof fn lemma_constants_before_shift(es: Seq<(Seq<char>, Option<Seq<char>>)>, i: int, base: Seq<char>)
    requires
        1 <= i <= es.len(),
    ensures
        constants_before(es, i, base) == constants_before(es.drop_first(), i - 1, base) + if becomes_constant(es[0])
            && shouty_snake(es[0].0) == base {
            1nat
        } else {
            0nat
        },
    decreases i,
{
    let rest = es.drop_first();
    assert(constants_before(es, 0, base) == 0);
    assert(constants_before(rest, 0, base) == 0);
    if i > 1 {
        lemma_constants_before_shift(es, i - 1, base);
        assert(rest[i - 2] == es[i - 1]);
        assert(constants_before(rest, i - 1, base) == constants_before(rest, i - 2, base) + if becomes_constant(rest[i - 2])
            && shouty_snake(rest[i - 2].0) == base {
            1nat
        } else {
            0nat
        });
    }
}

proof fn lemma_plan_names_from(es: Seq<(Seq<char>, Option<Seq<char>>)>, used: Map<Seq<char>, usize>)
    requires
        es.len() <= usize::MAX,
        forall|b: Seq<char>| #[trigger] used.contains_key(b) ==> used[b] + es.len() <= usize::MAX,
    ensures
        forall|i: int|
            0 <= i < es.len() && becomes_constant(#[trigger] es[i]) ==> (plan_from(es, used)[i] matches PlanModel::Constant { name, .. }
                && name == expected_name(
                shouty_snake(es[i].0),
                used,
                constants_before(es, i, shouty_snake(es[i].0)),
            )),
    decreases es.len(),
{
    lemma_plan_entry_by_entry(es, used);
    if es.len() > 0 {
        let (key, value) = es[0];
        let rest = es.drop_first();
        let b0 = shouty_snake(key);
        let next_used = if becomes_constant(es[0]) {
            constant_name(key, used).1
        } else {
            used
        };
        assert forall|b: Seq<char>| #[trigger] next_used.contains_key(b) implies next_used[b]
            + rest.len() <= usize::MAX by {
            if becomes_constant(es[0]) {
                if used.contains_key(b0) {
                    assert(used[b0] + es.len() <= usize::MAX);
                    let n: int = used[b0] + 1;
                    assert(n as usize == n);
                    assert(next_used == used.insert(b0, n as usize));
                    if b == b0 {
                        assert(next_used[b] == n);
                    } else {
                        assert(next_used[b] == used[b]);
                        assert(used[b] + es.len() <= usize::MAX);
                    }
                } else {
                    assert(next_used == used.insert(b0, 0usize));
                    if b != b0 {
                        assert(used.contains_key(b));
                        assert(used[b] + es.len() <= usize::MAX);
                    }
                }
            } else {
                assert(used.contains_key(b));
                assert(used[b] + es.len() <= usize::MAX);
            }
        }
        lemma_plan_names_from(rest, next_used);
        let all = plan_from(es, used);
        assert(all == seq![all[0]] + plan_from(rest, next_used));
        assert forall|i: int|
            0 <= i < es.len() && becomes_constant(#[trigger] es[i]) implies (all[i] matches PlanModel::Constant { name, .. }
                && name == expected_name(
                shouty_snake(es[i].0),
                used,
                constants_before(es, i, shouty_snake(es[i].0)),
            )) by {
            let b = shouty_snake(es[i].0);
            if i == 0 {
                assert(constants_before(es, 0, b) == 0);
            } else {
                lemma_constants_before_shift(es, i, b);
                assert(es[i] == rest[i - 1]);
                assert(all[i] == plan_from(rest, next_used)[i - 1]);
            }
        }
    }
}

/// How constants are named: the first constant whose key has a given
/// SHOUTY_SNAKE_CASE form is named by that form, and the `k`-th one after it
/// (counting only entries that become constants) by that form, an underscore and
/// `k` in decimal.
pub proof fn lemma_plan_names(es: Seq<(Seq<char>, Option<Seq<char>>)>)
    requires
        es.len() <= usize::MAX,
    ensures
        forall|i: int|
            0 <= i < es.len() && becomes_constant(#[trigger] es[i]) ==> ({
                let base = shouty_snake(es[i].0);
                let k = constants_before(es, i, base);
                plan_from(es, Map::empty())[i] matches PlanModel::Constant { name, .. } && name
                    == if k == 0 {
                    base
                } else {
                    base + "_"@ + decimal(k)
                }
            }),
{
    lemma_plan_names_from(es, Map::empty());
}

/// Reads the entries of a language file and decides what becomes of each (see
/// [`plan_translations`]); `None` when the text is not a JSON object.
pub fn plan_language_file(text: &str) -> (r: Option<Vec<TranslationPlan>>)
    ensures
        r is None <==> language_entries(text@) is None,
        (match r {
            Some(ps) => keys_increasing(language_entries(text@)->0) && plans_model(ps@)
                == plan_from(language_entries(text@)->0, Map::empty()),
            None => true,
        }),
{
    match parse_language_file(text) {
        Some(entries) => Some(plan_translations(&entries)),
        None => None,
    }
}

// ----- the parameter count is the largest argument index a text refers to -----

/// Some entry of `s` refers to argument `k`.
pub open spec fn refers_to(s: Seq<(Seq<char>, nat)>, k: nat) -> bool {
    exists|i: int| 0 <= i < s.len() && (#[trigger] s[i]).1 == k
}

proof fn lemma_refers_to_shift(head: (Seq<char>, nat), rest: Seq<(Seq<char>, nat)>, k: nat)
    requires
        refers_to(rest, k),
    ensures
        refers_to(seq![head] + rest, k),
{
    let i = choose|i: int| 0 <= i < rest.len() && (#[trigger] rest[i]).1 == k;
    assert((seq![head] + rest)[i + 1] == rest[i]);
}

proof fn lemma_positional_max_attained(t: Seq<char>, m: int)
    requires
        positional_max(t, m) > 0,
    ensures
        exists|q: int| 0 <= q < m && positional_at(t, q) && digit_index(#[trigger] t[q + 1]) == positional_max(t, m),
    decreases m,
{
    if m > 0 {
        let before = positional_max(t, m - 1);
        if positional_at(t, m - 1) && digit_index(t[m]) > before {
            assert(digit_index(t[(m - 1) + 1]) == positional_max(t, m));
        } else {
            lemma_positional_max_attained(t, m - 1);
        }
    }
}

proof fn lemma_split_from_reaches(t: Seq<char>, start: int, p: int, counter: nat)
    requires
        0 <= start <= p <= t.len(),
        counter == sequential_count(t, p),
    ensures
        sequential_count(t, t.len() as int) > counter ==> refers_to(
            split_from(t, start, p, counter),
            sequential_count(t, t.len() as int),
        ),
        forall|q: int|
            p <= q && positional_at(t, q) ==> refers_to(
                split_from(t, start, p, counter),
                #[trigger] digit_index(t[q + 1]) as nat,
            ),
    decreases t.len() - p,
{
    let n = t.len() as int;
    let total = sequential_count(t, n);
    let all = split_from(t, start, p, counter);
    if p >= n {
        assert(p == n);
    } else if sequential_at(t, p) {
        assert(sequential_count(t, p + 1) == counter + 1);
        assert(!sequential_at(t, p + 1));
        assert(sequential_count(t, p + 2) == counter + 1);
        lemma_split_from_reaches(t, p + 2, p + 2, counter + 1);
        let head = (t.subrange(start, p), counter + 1);
        let rest = split_from(t, p + 2, p + 2, counter + 1);
        assert(all == seq![head] + rest);
        if total > counter {
            if total == counter + 1 {
                assert(all[0].1 == total);
            } else {
                lemma_split_from_reaches(t, p + 2, p + 2, counter + 1);
                lemma_refers_to_shift(head, rest, total);
            }
        }
        assert forall|q: int| p <= q && positional_at(t, q) implies refers_to(
            all,
            #[trigger] digit_index(t[q + 1]) as nat,
        ) by {
            assert(q != p && q != p + 1);
            lemma_refers_to_shift(head, rest, digit_index(t[q + 1]) as nat);
        }
    } else if positional_at(t, p) {
        assert(sequential_count(t, p + 1) == counter);
        assert(!sequential_at(t, p + 1));
        assert(sequential_count(t, p + 2) == counter);
        assert(!sequential_at(t, p + 2));
        assert(sequential_count(t, p + 3) == counter);
        assert(!sequential_at(t, p + 3));
        assert(sequential_count(t, p + 4) == counter);
        lemma_split_from_reaches(t, p + 4, p + 4, counter);
        let head = (t.subrange(start, p), digit_index(t[p + 1]) as nat);
        let rest = split_from(t, p + 4, p + 4, counter);
        assert(all == seq![head] + rest);
        if total > counter {
            lemma_refers_to_shift(head, rest, total);
        }
        assert forall|q: int| p <= q && positional_at(t, q) implies refers_to(
            all,
            #[trigger] digit_index(t[q + 1]) as nat,
        ) by {
            if q == p {
                assert(all[0].1 == digit_index(t[q + 1]) as nat);
            } else {
                assert(q != p + 1 && q != p + 2 && q != p + 3);
                lemma_refers_to_shift(head, rest, digit_index(t[q + 1]) as nat);
            }
        }
    } else {
        assert(sequential_count(t, p + 1) == counter);
        lemma_split_from_reaches(t, start, p + 1, counter);
        assert(all == split_from(t, start, p + 1, counter));
        assert forall|q: int| p <= q && positional_at(t, q) implies refers_to(
            all,
            #[trigger] digit_index(t[q + 1]) as nat,
        ) by {
            assert(q != p);
        }
    }
}

/// The parameter count of a text is the largest argument index its split refers
/// to: every entry refers to an argument within the count, and a text with
/// parameters refers to its last one.
pub proof fn lemma_parameter_count_is_largest_index(t: Seq<char>)
    ensures
        forall|i: int|
            0 <= i < split_text(t).len() ==> (#[trigger] split_text(t)[i]).1 <= parameter_count(t),
        parameter_count(t) > 0 ==> refers_to(split_text(t), parameter_count(t)),
{
    lemma_split_from_bounded(t, 0, 0, 0);
    lemma_split_from_reaches(t, 0, 0, 0);
    let n = t.len() as int;
    if parameter_count(t) > 0 {
        if sequential_count(t, n) >= positional_max(t, n) {
            assert(sequential_count(t, n) > 0);
        } else {
            lemma_positional_max_attained(t, n);
            let q = choose|q: int| 0 <= q < n && positional_at(t, q) && digit_index(#[trigger] t[q + 1]) == positional_max(t, n);
            assert(refers_to(split_text(t), digit_index(t[q + 1]) as nat));
        }
    }
}

} // verus!
