//! Translated messages: keys with arguments, and their pre-split token form.
use vstd::prelude::*;

use crate::component::{
    component_of, models, plain_model, ComponentModel, ContentModel, RawTextComponent,
};

verus! {

/// A translatable message: a key, an optional fallback text, and the arguments
/// that fill the key's placeholders.
#[derive(Debug)]
pub struct TranslatedContent {
    pub key: String,
    pub fallback: Option<String>,
    pub args: Option<Vec<RawTextComponent>>,
}

/// The abstract value of a [`TranslatedContent`].
pub struct TranslatedModel {
    pub key: Seq<char>,
    pub fallback: Option<Seq<char>>,
    pub args: Option<Seq<ComponentModel>>,
}

/// The abstract value of optional translation arguments.
pub open spec fn args_model(args: Option<Vec<RawTextComponent>>) -> Option<Seq<ComponentModel>> {
    match args {
        Some(a) => Some(models(a@)),
        None => None,
    }
}

impl TranslatedContent {
    /// Creates a new `TranslatedContent` without fallback.
    ///
    /// Using this directly is discouraged: prefer a compiled [`Translation`].
    pub fn new(key: &str, args: Option<Vec<RawTextComponent>>) -> (r: TranslatedContent)
        ensures
            r@ == (TranslatedModel { key: key@, fallback: None, args: args_model(args) }),
    {
        TranslatedContent { key: key.to_owned(), args, fallback: None }
    }

    /// A component showing this message.
    pub fn component(self) -> (r: RawTextComponent)
        ensures
            r@ == component_of(ContentModel::Translate(self@)),
    {
        RawTextComponent::translated(self)
    }

    /// A component showing this message, with `fallback` as the text shown when
    /// the key has no translation.
    pub fn component_fallback(self, fallback: String) -> (r: RawTextComponent)
        ensures
            r@ == component_of(
                ContentModel::Translate(TranslatedModel { fallback: Some(fallback@), ..self@ }),
            ),
    {
        let TranslatedContent { key, fallback: _, args } = self;
        RawTextComponent::translated(TranslatedContent { key, fallback: Some(fallback), args })
    }
}

/// A translation key known to take `ARGS` arguments.
pub struct Translation<'a, const ARGS: usize>(pub &'a str);

impl<'a> Translation<'a, 0> {
    /// The message of this key, which takes no arguments.
    pub fn msg(&self) -> (r: TranslatedContent)
        ensures
            r@ == (TranslatedModel { key: self.0@, fallback: None, args: None }),
    {
        TranslatedContent::new(self.0, None)
    }

    /// A component showing the message of this key.
    pub fn component(&self) -> (r: RawTextComponent)
        ensures
            r@ == component_of(
                ContentModel::Translate(TranslatedModel { key: self.0@, fallback: None, args: None }),
            ),
    {
        self.msg().component()
    }
}

impl<'a, const ARGS: usize> Translation<'a, ARGS> {
    /// The message of this key with the given arguments, in order.
    pub fn message(&self, args: [RawTextComponent; ARGS]) -> (r: TranslatedContent)
        ensures
            r@ == (TranslatedModel {
                key: self.0@,
                fallback: None,
                args: Some(Seq::new(ARGS as nat, |i: int| args@[i]@)),
            }),
    {
        let mut v: Vec<RawTextComponent> = Vec::new();
        let mut i: usize = 0;
        while i < ARGS
            invariant
                i <= ARGS,
                v@.len() == i,
                forall|j: int| 0 <= j < i ==> (#[trigger] v@[j])@ == args@[j]@,
            decreases ARGS - i,
        {
            v.push(args[i].clone());
            i += 1;
        }
        let r = TranslatedContent::new(self.0, Some(v));
        assert(models(v@) =~= Seq::new(ARGS as nat, |i: int| args@[i]@));
        r
    }
}

/// The smallest part of a translation: literal text, or the 1-based index of an
/// argument.
#[derive(Debug, Clone, Copy)]
pub enum TranslationToken<'a> {
    Text(&'a str),
    Arg(usize),
}

/// The abstract value of a [`TranslationToken`].
pub enum TokenModel {
    Text(Seq<char>),
    Arg(nat),
}

impl<'a> View for TranslationToken<'a> {
    type V = TokenModel;

    open spec fn view(&self) -> TokenModel {
        match *self {
            TranslationToken::Text(s) => TokenModel::Text(s@),
            TranslationToken::Arg(i) => TokenModel::Arg(i as nat),
        }
    }
}

/// The abstract value of a sequence of tokens.
pub open spec fn tokens_view<'a>(ts: Seq<TranslationToken<'a>>) -> Seq<TokenModel> {
    Seq::new(ts.len(), |i: int| ts[i]@)
}

/// The token refers only to arguments that `values` holds.
pub open spec fn token_accepts(t: TokenModel, values: Option<Seq<ComponentModel>>) -> bool {
    match t {
        TokenModel::Arg(i) => values is Some ==> 1 <= i <= values->0.len(),
        TokenModel::Text(_) => true,
    }
}

/// The component of a token: its text, the argument it refers to, or an empty
/// component when there are no arguments.
pub open spec fn token_model(t: TokenModel, values: Option<Seq<ComponentModel>>) -> ComponentModel {
    match t {
        TokenModel::Text(s) => plain_model(s),
        TokenModel::Arg(i) => match values {
            Some(v) => v[i - 1],
            None => plain_model(Seq::empty()),
        },
    }
}

/// The component of a token sequence: the first token's component, with the
/// components of the other tokens appended to its children in order; an empty
/// component for no tokens.
pub open spec fn tokens_model(ts: Seq<TokenModel>, values: Option<Seq<ComponentModel>>) -> ComponentModel {
    if ts.len() == 0 {
        plain_model(Seq::empty())
    } else {
        let first = token_model(ts[0], values);
        ComponentModel {
            children: first.children + Seq::new(
                (ts.len() - 1) as nat,
                |i: int| token_model(ts[i + 1], values),
            ),
            ..first
        }
    }
}

impl<'a> TranslationToken<'a> {
    /// The component of this token, taking arguments from `values`.
    pub fn component(&self, values: &Option<Vec<RawTextComponent>>) -> (r: RawTextComponent)
        requires
            token_accepts(self@, args_model(*values)),
        ensures
            r@ == token_model(self@, args_model(*values)),
    {
        match self {
            TranslationToken::Text(text) => RawTextComponent::const_plain(text),
            TranslationToken::Arg(idx) => match values {
                Some(v) => {
                    assert(models(v@)[*idx - 1] == v@[*idx - 1]@);
                    v[*idx - 1].clone()
                },
                None => RawTextComponent::new(),
            },
        }
    }
}

/// A sequence of translation tokens that can be assembled into one component.
pub trait TranslationTokenArray {
    /// The tokens refer only to arguments that `values` holds. A verified
    /// implementation defines it; the default names no particular value.
    open spec fn accepts(&self, values: Option<Seq<ComponentModel>>) -> bool {
        arbitrary()
    }

    /// The component that `component` assembles. A verified implementation defines
    /// it; the default names no particular value.
    open spec fn assembled(&self, values: Option<Seq<ComponentModel>>) -> ComponentModel {
        arbitrary()
    }

    /// Assembles the tokens into one component, taking arguments from `values`.
    fn component(&self, values: &Option<Vec<RawTextComponent>>) -> (r: RawTextComponent)
        requires
            self.accepts(args_model(*values)),
        ensures
            r@ == self.assembled(args_model(*values)),
    ;
}

impl<'a> TranslationTokenArray for [TranslationToken<'a>] {
    open spec fn accepts(&self, values: Option<Seq<ComponentModel>>) -> bool {
        forall|i: int| 0 <= i < self@.len() ==> token_accepts(#[trigger] self@[i]@, values)
    }

    open spec fn assembled(&self, values: Option<Seq<ComponentModel>>) -> ComponentModel {
        tokens_model(tokens_view(self@), values)
    }

    fn component(&self, values: &Option<Vec<RawTextComponent>>) -> (r: RawTextComponent) {
        if self.len() == 0 {
            return RawTextComponent::new();
        }
        let ghost ts = tokens_view(self@);
        let mut component = self[0].component(values);
        let ghost first = component@;
        let mut i: usize = 1;
        while i < self.len()
            invariant
                1 <= i <= self@.len(),
                ts == tokens_view(self@),
                self.accepts(args_model(*values)),
                first == token_model(ts[0], args_model(*values)),
                component@ == (ComponentModel {
                    children: first.children + Seq::new(
                        (i - 1) as nat,
                        |j: int| token_model(ts[j + 1], args_model(*values)),
                    ),
                    ..first
                }),
            decreases self@.len() - i,
        {
            let child = self[i].component(values);
            component = component.add_child(child);
            i += 1;
            assert(component@.children =~= first.children + Seq::new(
                (i - 1) as nat,
                |j: int| token_model(ts[j + 1], args_model(*values)),
            ));
        }
        assert(component@.children =~= first.children + Seq::new(
            (ts.len() - 1) as nat,
            |j: int| token_model(ts[j + 1], args_model(*values)),
        ));
        component
    }
}

/// The component of one token: a text token shows its text as a plain component;
/// an argument token `n` stands for the `n`-th argument (counting from one), taken
/// whole, or for an empty text when there are no arguments.
pub proof fn lemma_token_component(t: TokenModel, values: Option<Seq<ComponentModel>>)
    ensures
        t matches TokenModel::Text(s) ==> token_model(t, values) == component_of(
            ContentModel::Text(s),
        ),
        t matches TokenModel::Arg(n) ==> (values matches Some(v) ==> token_model(t, values) == v[n
            - 1]),
        t is Arg && values is None ==> token_model(t, values) == component_of(
            ContentModel::Text(Seq::empty()),
        ),
{
}

/// Assembling tokens keeps the first token's component whole (its content,
/// formatting, interactivity and every one of its children, in order) and appends
/// after those children the component of each further token, in order: nothing
/// of an argument component is lost, and nothing is added. No tokens assemble
/// into an empty component.
pub proof fn lemma_assembled_keeps_first_whole<'a>(
    tokens: &[TranslationToken<'a>],
    values: Option<Seq<ComponentModel>>,
)
    ensures
        tokens@.len() == 0 ==> tokens.assembled(values) == plain_model(Seq::empty()),
        tokens@.len() > 0 ==> ({
            let first = token_model(tokens@[0]@, values);
            let r = tokens.assembled(values);
            &&& r.content == first.content
            &&& r.format == first.format
            &&& r.interactions == first.interactions
            &&& r.children.len() == first.children.len() + tokens@.len() - 1
            &&& r.children.subrange(0, first.children.len() as int) == first.children
            &&& forall|j: int|
                1 <= j < tokens@.len() ==> r.children[first.children.len() + j - 1]
                    == token_model(#[trigger] tokens@[j]@, values)
        }),
{
    if tokens@.len() > 0 {
        let ts = tokens_view(tokens@);
        let first = token_model(tokens@[0]@, values);
        let r = tokens.assembled(values);
        assert(ts[0] == tokens@[0]@);
        assert(r.children.subrange(0, first.children.len() as int) =~= first.children);
        assert forall|j: int| 1 <= j < tokens@.len() implies r.children[first.children.len() + j - 1]
            == token_model(#[trigger] tokens@[j]@, values) by {
            assert(ts[(j - 1) + 1] == tokens@[j]@);
        }
    }
}

// ----- placeholders -----

/// A sequential placeholder `%s` starts at `p`.
pub open spec fn sequential_at(t: Seq<char>, p: int) -> bool {
    0 <= p && p + 1 < t.len() && t[p] == '%' && t[p + 1] == 's'
}

/// The argument index that the character `c` stands for, when it is `1` to `8`.
pub open spec fn digit_index(c: char) -> int {
    (c as int) - ('0' as int)
}

/// A positional placeholder `%n$s`, with `n` from 1 to 8, starts at `p`.
pub open spec fn positional_at(t: Seq<char>, p: int) -> bool {
    0 <= p && p + 3 < t.len() && t[p] == '%' && 1 <= digit_index(t[p + 1]) <= 8 && t[p + 2]
        == '$' && t[p + 3] == 's'
}

/// The segments of `t` from position `p` on: scanning from `p`, the text since
/// `start` is cut at each placeholder and paired with the argument that follows
/// it (the running count of `%s` for a sequential placeholder, `n` for `%n$s`);
/// the text after the last placeholder is paired with 0.
pub open spec fn split_from(t: Seq<char>, start: int, p: int, counter: nat) -> Seq<(Seq<char>, nat)>
    decreases t.len() - p,
{
    if p >= t.len() {
        seq![(t.subrange(start, t.len() as int), 0nat)]
    } else if sequential_at(t, p) {
        seq![(t.subrange(start, p), counter + 1)] + split_from(t, p + 2, p + 2, counter + 1)
    } else if positional_at(t, p) {
        seq![(t.subrange(start, p), digit_index(t[p + 1]) as nat)] + split_from(
            t,
            p + 4,
            p + 4,
            counter,
        )
    } else {
        split_from(t, start, p + 1, counter)
    }
}

/// The segments of a translation text, each with the 1-based index of the argument
/// that follows it, or 0 for the trailing text.
pub open spec fn split_text(t: Seq<char>) -> Seq<(Seq<char>, nat)> {
    split_from(t, 0, 0, 0)
}

/// The abstract value of a list of segments.
pub open spec fn segments_model(v: Seq<(String, usize)>) -> Seq<(Seq<char>, nat)> {
    Seq::new(v.len(), |i: int| (v[i].0@, v[i].1 as nat))
}

/// The abstract value of a list of borrowed segments.
pub open spec fn borrowed_segments_model<'a>(v: Seq<(&'a str, usize)>) -> Seq<(Seq<char>, nat)> {
    Seq::new(v.len(), |i: int| (v[i].0@, v[i].1 as nat))
}

pub(crate) fn chars_of(text: &str) -> (v: Vec<char>)
    ensures
        v@ == text@,
{
    let mut v: Vec<char> = Vec::new();
    for c in it: text.chars()
        invariant
            v@ == it.seq().take(it.index() as int),
    {
        v.push(c);
    }
    v
}

/// The segments of `text` (see [`split_text`]), as slices of `text`.
pub fn split_segments<'a>(text: &'a str) -> (r: Vec<(&'a str, usize)>)
    ensures
        borrowed_segments_model(r@) == split_text(text@),
{
    let chars = chars_of(text);
    let n = chars.len();
    let ghost t = text@;
    let mut out: Vec<(&'a str, usize)> = Vec::new();
    let mut start: usize = 0;
    let mut p: usize = 0;
    let mut counter: usize = 0;
    while p < n
        invariant
            start <= p <= n,
            n == t.len(),
            chars@ == t,
            t == text@,
            counter <= p,
            borrowed_segments_model(out@) + split_from(t, start as int, p as int, counter as nat)
                == split_text(t),
        decreases n - p,
    {
        let ghost before = borrowed_segments_model(out@);
        let ghost start0 = start as int;
        let ghost p0 = p as int;
        let ghost c0 = counter as nat;
        if p + 1 < n && chars[p] == '%' && chars[p + 1] == 's' {
            assert(sequential_at(t, p0));
            counter = counter + 1;
            out.push((text.substring_char(start, p), counter));
            p = p + 2;
            start = p;
            assert(borrowed_segments_model(out@) =~= before + seq![(t.subrange(start0, p0), c0 + 1)]);
        } else if 3 < n - p && chars[p] == '%' && '1' <= chars[p + 1] && chars[p + 1] <= '8'
            && chars[p + 2] == '$' && chars[p + 3] == 's' {
            assert(!sequential_at(t, p0));
            assert(positional_at(t, p0));
            let idx = (chars[p + 1] as u32 - '0' as u32) as usize;
            assert(idx == digit_index(t[p0 + 1]));
            out.push((text.substring_char(start, p), idx));
            p = p + 4;
            start = p;
            assert(borrowed_segments_model(out@) =~= before + seq![
                (t.subrange(start0, p0), digit_index(t[p0 + 1]) as nat),
            ]);
        } else {
            assert(!sequential_at(t, p0));
            assert(!positional_at(t, p0));
            p = p + 1;
        }
    }
    let ghost before = borrowed_segments_model(out@);
    out.push((text.substring_char(start, n), 0));
    assert(borrowed_segments_model(out@) =~= before + seq![(t.subrange(start as int, n as int), 0nat)]);
    out
}

/// Splits a translation text at its placeholders: `%s` (sequential, numbered
/// from 1 in order of appearance) and `%n$s` with `n` from 1 to 8 (positional).
/// Each entry is a literal segment and the 1-based index of the argument that
/// follows it; the last entry holds the trailing text and 0.
pub fn split_placeholders(text: &str) -> (r: Vec<(String, usize)>)
    ensures
        segments_model(r@) == split_text(text@),
{
    let segments = split_segments(text);
    let mut out: Vec<(String, usize)> = Vec::new();
    let mut i: usize = 0;
    while i < segments.len()
        invariant
            i <= segments@.len(),
            out@.len() == i,
            forall|j: int|
                0 <= j < i ==> (#[trigger] out@[j]).0@ == segments@[j].0@ && out@[j].1
                    == segments@[j].1,
        decreases segments@.len() - i,
    {
        let (seg, idx) = segments[i];
        out.push((seg.to_owned(), idx));
        i += 1;
    }
    assert(segments_model(out@) =~= borrowed_segments_model(segments@));
    out
}

// ----- laws of splitting -----

/// No placeholder starts anywhere in `s`.
pub open spec fn placeholder_free(s: Seq<char>) -> bool {
    forall|q: int| 0 <= q < s.len() ==> !#[trigger] sequential_at(s, q) && !positional_at(s, q)
}

/// The shape of a split: the trailing entry, and only it, has index 0, and no
/// segment holds a placeholder.
pub open spec fn well_split(s: Seq<(Seq<char>, nat)>) -> bool {
    &&& s.len() >= 1
    &&& s[s.len() - 1].1 == 0
    &&& forall|i: int| 0 <= i < s.len() - 1 ==> (#[trigger] s[i]).1 >= 1
    &&& forall|i: int| 0 <= i < s.len() ==> placeholder_free(#[trigger] s[i].0)
}

proof fn lemma_scanned_segment_free(t: Seq<char>, start: int, p: int)
    requires
        0 <= start <= p <= t.len(),
        forall|q: int| start <= q < p ==> !#[trigger] sequential_at(t, q) && !positional_at(t, q),
    ensures
        placeholder_free(t.subrange(start, p)),
{
    let seg = t.subrange(start, p);
    assert forall|q: int| 0 <= q < seg.len() implies !#[trigger] sequential_at(seg, q)
        && !positional_at(seg, q) by {
        assert(!sequential_at(t, start + q));
        assert(!positional_at(t, start + q));
        if sequential_at(seg, q) {
            assert(seg[q] == t[start + q] && seg[q + 1] == t[start + q + 1]);
        }
        if positional_at(seg, q) {
            assert(seg[q] == t[start + q] && seg[q + 1] == t[start + q + 1] && seg[q + 2] == t[start
                + q + 2] && seg[q + 3] == t[start + q + 3]);
        }
    }
}

proof fn lemma_split_from_well_split(t: Seq<char>, start: int, p: int, counter: nat)
    requires
        0 <= start <= p <= t.len(),
        forall|q: int| start <= q < p ==> !#[trigger] sequential_at(t, q) && !positional_at(t, q),
    ensures
        well_split(split_from(t, start, p, counter)),
    decreases t.len() - p,
{
    let n = t.len() as int;
    let all = split_from(t, start, p, counter);
    if p >= n {
        lemma_scanned_segment_free(t, start, n);
        assert(all == seq![(t.subrange(start, n), 0nat)]);
    } else if sequential_at(t, p) || positional_at(t, p) {
        lemma_scanned_segment_free(t, start, p);
        let (next, head) = if sequential_at(t, p) {
            (p + 2, (t.subrange(start, p), counter + 1))
        } else {
            (p + 4, (t.subrange(start, p), digit_index(t[p + 1]) as nat))
        };
        let c2 = if sequential_at(t, p) {
            counter + 1
        } else {
            counter
        };
        lemma_split_from_well_split(t, next, next, c2);
        let rest = split_from(t, next, next, c2);
        assert(all == seq![head] + rest);
        assert forall|i: int| 0 <= i < all.len() - 1 implies (#[trigger] all[i]).1 >= 1 by {
            if i > 0 {
                assert(all[i] == rest[i - 1]);
            }
        }
        assert forall|i: int| 0 <= i < all.len() implies placeholder_free(#[trigger] all[i].0) by {
            if i > 0 {
                assert(all[i] == rest[i - 1]);
            }
        }
        assert(all[all.len() - 1] == rest[rest.len() - 1]);
    } else {
        lemma_split_from_well_split(t, start, p + 1, counter);
        assert(all == split_from(t, start, p + 1, counter));
    }
}

/// Splitting a text gives at least one entry; the trailing one, and only it, has
/// argument index 0; and no segment holds a placeholder.
pub proof fn lemma_split_text_well_split(t: Seq<char>)
    ensures
        well_split(split_text(t)),
{
    lemma_split_from_well_split(t, 0, 0, 0);
}

} // verus!
