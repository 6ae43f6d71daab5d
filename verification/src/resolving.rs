//! Resolution of the dynamic parts of a component.
use vstd::prelude::*;
use std::sync::Arc;

use crate::component::{
    all_static, component_of, content_height, content_static, height, is_static,
    lemma_all_static_elem, lemma_seq_height_bounds, models, plain_model, ComponentModel, Content,
    ContentModel, RawTextComponent, Resolvable, ResolvableModel,
};
use crate::custom::CustomData;
use crate::translation::{
    segments_model, split_placeholders, split_text, TranslatedContent, TranslatedModel,
};

verus! {

// ----- the order in which resolution proceeds -----

/// 0 for a static component, 1 for one with something left to resolve.
pub open spec fn rank_flag(c: ComponentModel) -> nat {
    if is_static(c) {
        0
    } else {
        1
    }
}

/// 0 for static content, 1 for content with something left to resolve.
pub open spec fn content_flag(c: ContentModel) -> nat {
    if content_static(c) {
        0
    } else {
        1
    }
}

/// `x` is simpler than the content `c`: it has less left to resolve, or as much
/// and fewer nested levels.
pub open spec fn below(x: ComponentModel, c: ContentModel) -> bool {
    rank_flag(x) < content_flag(c) || (rank_flag(x) == content_flag(c) && height(x)
        < content_height(c))
}

/// What a resolutor hands back for `content` may be resolved further (its
/// translation arguments and its separator are); `fits` says that those parts are
/// simpler than `content`, which is what makes resolution terminate.
pub open spec fn fits(out: ComponentModel, content: ContentModel) -> bool {
    match out.content {
        ContentModel::Translate(t) => match t.args {
            Some(a) => forall|i: int| 0 <= i < a.len() ==> below(#[trigger] a[i], content),
            None => true,
        },
        ContentModel::Resolvable(r) => match r {
            ResolvableModel::Entity { separator, .. } => below(*separator, content),
            ResolvableModel::NBT { separator, .. } => below(*separator, content),
            ResolvableModel::Scoreboard { .. } => true,
        },
        _ => true,
    }
}

/// Resolves the dynamic content of text components.
///
/// It is meant to be implemented on game-world objects (a player, the world), whose
/// live data answers scoreboards, entity selectors, NBT paths and custom content.
/// Each resolving method must return what its spec function names, and the parts
/// of its result that are resolved further must be simpler than its input (`fits`).
pub trait TextResolutor {
    /// What `resolve_other` returns for `content`. A verified implementation
    /// defines it; the default names no particular value.
    open spec fn resolved_other(&self, content: ContentModel) -> ComponentModel {
        arbitrary()
    }

    /// What `resolve_content` returns for `resolvable`. A verified implementation
    /// defines it; the default names no particular value.
    open spec fn resolved_content(&self, resolvable: ResolvableModel) -> ComponentModel {
        arbitrary()
    }

    /// What `resolve_custom` returns for `data`. A verified implementation
    /// defines it; the default names no particular value.
    open spec fn resolved_custom(&self, data: CustomData) -> Option<ComponentModel> {
        arbitrary()
    }

    /// Fallback resolution for content that is neither resolvable nor custom.
    /// [`fallback_resolution`] is the usual choice: the content as a plain component.
    fn resolve_other(&self, content: &Content) -> (r: RawTextComponent)
        ensures
            r@ == self.resolved_other(content@),
            fits(r@, content@),
    ;

    /// Resolves a scoreboard, entity selector or NBT path.
    fn resolve_content(&self, resolvable: &Resolvable) -> (r: RawTextComponent)
        ensures
            r@ == self.resolved_content(resolvable@),
            fits(r@, ContentModel::Resolvable(resolvable@)),
    ;

    /// Resolves custom data; `None` when the id is not recognised.
    fn resolve_custom(&self, data: &CustomData) -> (r: Option<RawTextComponent>)
        ensures
            match r {
                Some(c) => self.resolved_custom(*data) == Some(c@) && fits(
                    c@,
                    ContentModel::Custom(*data),
                ),
                None => self.resolved_custom(*data) is None,
            },
    ;

    /// Translates a key into a text that may hold `%s` and `%n$s` placeholders;
    /// `None` when the key is unknown.
    fn translate(&self, key: &str) -> Option<String>;

    /// Splits a translation text into segments, each with the argument that
    /// follows it (see [`split_placeholders`]).
    fn split_translation(&self, text: String) -> (r: Vec<(String, usize)>)
        default_ensures
            segments_model(r@) == split_text(text@),
    {
        split_placeholders(text.as_str())
    }
}

/// The content as a plain component: no children, formatting or interactivity.
pub fn fallback_resolution(content: &Content) -> (r: RawTextComponent)
    ensures
        r@ == component_of(content@),
        fits(r@, content@),
{
    let r = RawTextComponent::from_content(content.clone());
    proof {
        lemma_component_of_fits(content@);
    }
    r
}

/// A content shown as a plain component fits itself.
pub proof fn lemma_component_of_fits(content: ContentModel)
    ensures
        fits(component_of(content), content),
{
    match content {
        ContentModel::Translate(t) => {
            if let Some(a) = t.args {
                assert forall|i: int| 0 <= i < a.len() implies below(#[trigger] a[i], content) by {
                    lemma_seq_height_bounds(a, i);
                    if content_static(content) {
                        assert(all_static(a));
                        lemma_all_static_elem(a, i);
                    }
                }
            }
        },
        _ => {},
    }
}

// ----- resolution, as a function of the model -----

/// The component that the resolutor hands back for `content`, before its
/// arguments, separator and the children of the resolved component are resolved.
pub open spec fn base_resolution<R: TextResolutor + ?Sized>(r: &R, content: ContentModel) -> ComponentModel {
    match content {
        ContentModel::Custom(d) => match r.resolved_custom(d) {
            Some(x) => x,
            None => plain_model(Seq::empty()),
        },
        ContentModel::Resolvable(v) => r.resolved_content(v),
        _ => r.resolved_other(content),
    }
}

/// The full resolution of `c` by `r`: the resolutor's answer for the content of
/// `c`, with its translation arguments and separator resolved, followed by its own
/// children and by the resolved children of `c`; the formatting and interactivity
/// of the answer are layered over those of `c`. (An answer that does not fit, which
/// the contract of `TextResolutor` rules out, keeps its parts unresolved.)
pub open spec fn resolution<R: TextResolutor + ?Sized>(r: &R, c: ComponentModel) -> ComponentModel
    decreases rank_flag(c), height(c),
{
    proof {
        lemma_resolution_order(c);
    }
    let base = base_resolution(r, c.content);
    let content = if fits(base, c.content) {
        match base.content {
            ContentModel::Translate(t) => ContentModel::Translate(
                TranslatedModel {
                    args: match t.args {
                        Some(a) => Some(
                            Seq::new(
                                a.len(),
                                |i: int|
                                    if 0 <= i < a.len() {
                                        resolution(r, a[i])
                                    } else {
                                        plain_model(Seq::empty())
                                    },
                            ),
                        ),
                        None => None,
                    },
                    ..t
                },
            ),
            ContentModel::Resolvable(v) => ContentModel::Resolvable(
                match v {
                    ResolvableModel::Entity { selector, separator } => ResolvableModel::Entity {
                        selector,
                        separator: Box::new(resolution(r, *separator)),
                    },
                    ResolvableModel::NBT { path, interpret, separator, source } =>
                        ResolvableModel::NBT {
                        path,
                        interpret,
                        separator: Box::new(resolution(r, *separator)),
                        source,
                    },
                    ResolvableModel::Scoreboard { selector, objective } =>
                        ResolvableModel::Scoreboard { selector, objective },
                },
            ),
            other => other,
        }
    } else {
        base.content
    };
    ComponentModel {
        content,
        children: base.children + Seq::new(
            c.children.len(),
            |i: int|
                if 0 <= i < c.children.len() {
                    resolution(r, c.children[i])
                } else {
                    plain_model(Seq::empty())
                },
        ),
        format: c.format.mixed(base.format),
        interactions: c.interactions.mixed(base.interactions),
    }
}


/// Facts about the order in which `resolution` visits the parts of `c`.
pub proof fn lemma_resolution_order(c: ComponentModel)
    ensures
        content_height(c.content) < height(c),
        content_flag(c.content) <= rank_flag(c),
        forall|i: int|
            0 <= i < c.children.len() ==> height(#[trigger] c.children[i]) < height(c)
                && rank_flag(c.children[i]) <= rank_flag(c),
{
    assert forall|i: int| 0 <= i < c.children.len() implies height(#[trigger] c.children[i])
        < height(c) && rank_flag(c.children[i]) <= rank_flag(c) by {
        lemma_seq_height_bounds(c.children, i);
        if is_static(c) {
            assert(all_static(c.children));
            lemma_all_static_elem(c.children, i);
        }
    }
}

impl RawTextComponent {
    /// Resolves all dynamic parts of the component recursively.
    ///
    /// The content is handed to the resolutor (custom data to `resolve_custom`, with an
    /// empty component where it answers `None`; resolvables to `resolve_content`;
    /// anything else to `resolve_other`). The translation arguments and separator of
    /// the answer are resolved in turn, the resolved children of this component are
    /// appended to the answer's own, and the answer's formatting and interactivity are
    /// layered over this component's.
    pub fn resolve<R: TextResolutor + ?Sized>(&self, resolutor: &R) -> (out: RawTextComponent)
        ensures
            out@ == resolution(resolutor, self@),
            answers_static(resolutor) ==> is_static(out@),
        decreases rank_flag(self@), height(self@),
    {
        proof {
            lemma_resolution_order(self@);
        }
        let base = match &self.content {
            Content::Custom(data) => match resolutor.resolve_custom(data) {
                Some(c) => c,
                None => RawTextComponent::new(),
            },
            Content::Resolvable(v) => resolutor.resolve_content(v),
            content => resolutor.resolve_other(content),
        };
        let ghost c = self@;
        let ghost base_model = base@;
        assert(base_model == base_resolution(resolutor, c.content));
        assert(fits(base_model, c.content));
        proof {
            if answers_static(resolutor) {
                match c.content {
                    ContentModel::Custom(d) => {
                        if resolutor.resolved_custom(d) is None {
                            assert(all_static(plain_model(Seq::<char>::empty()).children));
                        }
                    },
                    ContentModel::Resolvable(v) => {
                        assert(shallow_static(resolutor.resolved_content(v)));
                    },
                    _ => {
                        assert(shallow_static(resolutor.resolved_other(c.content)));
                    },
                }
                assert(shallow_static(base_model));
            }
        }
        let RawTextComponent { content, mut children, format, mut interactions } = base;
        assert(base_model.content == content@);
        let ghost expected_content = resolution(resolutor, c).content;
        let content = match content {
            Content::Translate(t) => {
                assert(content@ == ContentModel::Translate(t@));
                let ghost t_model = t@;
                let TranslatedContent { key, fallback, args } = t;
                let args = match args {
                    Some(a) => {
                        assert(t@.args == Some(models(a@)));
                        assert(forall|j: int| 0 <= j < a@.len() ==> models(a@)[j] == #[trigger] a@[j]@);
                        let mut out: Vec<RawTextComponent> = Vec::new();
                        let mut i: usize = 0;
                        while i < a.len()
                            invariant
                                i <= a.len(),
                                out@.len() == i,
                                forall|j: int| 0 <= j < i ==> (#[trigger] out@[j])@ == resolution(resolutor, a@[j]@),
                                answers_static(resolutor) ==> forall|j: int| 0 <= j < i ==> is_static((#[trigger] out@[j])@),
                                forall|j: int| 0 <= j < a@.len() ==> below(#[trigger] a@[j]@, c.content),
                                content_height(c.content) < height(c),
                                content_flag(c.content) <= rank_flag(c),
                                c == self@,
                            decreases a.len() - i,
                        {
                            out.push(a[i].resolve(resolutor));
                            i += 1;
                        }
                        let ghost exp_args = match expected_content {
                            ContentModel::Translate(tm) => tm.args,
                            _ => None,
                        };
                        assert(exp_args is Some);
                        assert(exp_args->0 =~= models(out@)) by {
                            assert forall|j: int| 0 <= j < a@.len() implies exp_args->0[j]
                                == models(out@)[j] by {
                                assert(models(a@)[j] == a@[j]@);
                                assert(out@[j]@ == resolution(resolutor, a@[j]@));
                            }
                        }
                        assert(expected_content == ContentModel::Translate(
                            TranslatedModel { args: Some(models(out@)), ..t_model },
                        ));
                        assert(answers_static(resolutor) ==> all_static(models(out@))) by {
                            if answers_static(resolutor) {
                                assert forall|j: int| 0 <= j < models(out@).len() implies is_static(
                                    #[trigger] models(out@)[j],
                                ) by {
                                    assert(models(out@)[j] == out@[j]@);
                                }
                            }
                        }
                        Some(out)
                    },
                    None => {
                        assert(expected_content == ContentModel::Translate(t_model));
                        None
                    },
                };
                let tc = TranslatedContent { key, fallback, args };
                assert(tc@.key == t_model.key);
                assert(tc@.fallback == t_model.fallback);
                assert(expected_content == ContentModel::Translate(tc@));
                let r = Content::Translate(tc);
                assert(r@ == expected_content);
                assert(r@ == ContentModel::Translate(tc@));
                assert(answers_static(resolutor) ==> content_static(r@));
                r
            },
            Content::Resolvable(Resolvable::Entity { selector, separator }) => {
                assert(content@ == ContentModel::Resolvable(
                    Resolvable::Entity { selector, separator }@,
                ));
                assert(below((*separator)@, c.content));
                let s = (*separator).resolve(resolutor);
                let r = Content::Resolvable(Resolvable::Entity { selector, separator: Box::new(s) });
                assert(r@ == expected_content);
                r
            },
            Content::Resolvable(Resolvable::NBT { path, interpret, separator, source }) => {
                assert(content@ == ContentModel::Resolvable(
                    Resolvable::NBT { path, interpret, separator, source }@,
                ));
                assert(below((*separator)@, c.content));
                let s = (*separator).resolve(resolutor);
                let r = Content::Resolvable(Resolvable::NBT { path, interpret, separator: Box::new(s), source });
                assert(r@ == expected_content);
                r
            },
            other => {
                assert(other@ == expected_content);
                assert(answers_static(resolutor) ==> content_static(other@));
                other
            },
        };
        assert(answers_static(resolutor) ==> content_static(content@));
        let ghost base_children = children@;
        assert(base_model.children == models(base_children));
        let n = self.children.len();
        let mut i: usize = 0;
        while i < n
            invariant
                i <= n,
                n == self.children@.len(),
                children@.len() == base_children.len() + i,
                forall|j: int| 0 <= j < base_children.len() ==> #[trigger] children@[j] == base_children[j],
                forall|j: int| 0 <= j < i ==> (#[trigger] children@[base_children.len() + j])@ == resolution(resolutor, self.children@[j]@),
                answers_static(resolutor) ==> forall|j: int| 0 <= j < i ==> is_static((#[trigger] children@[base_children.len() + j])@),
                forall|j: int|
                    0 <= j < c.children.len() ==> height(#[trigger] c.children[j]) < height(c)
                        && rank_flag(c.children[j]) <= rank_flag(c),
                c == self@,
            decreases n - i,
        {
            assert(self.children@[i as int]@ == c.children[i as int]);
            children.push(self.children[i].resolve(resolutor));
            i += 1;
        }
        self.interactions.mix(&mut interactions);
        let format = self.format.mix(&format);
        let out = RawTextComponent { content, children, format, interactions };
        assert(c.children == models(self.children@));
        assert forall|j: int| 0 <= j < base_children.len() implies models(out.children@)[j]
            == base_model.children[j] by {
            assert(out.children@[j] == base_children[j]);
        }
        assert forall|j: int| 0 <= j < n implies models(out.children@)[base_children.len() + j]
            == resolution(resolutor, c.children[j]) by {
            assert(c.children[j] == self.children@[j]@);
            assert((out.children@[base_children.len() + j])@ == resolution(resolutor, self.children@[j]@));
        }
        assert(models(out.children@) =~= base_model.children + Seq::new(
            c.children.len(),
            |i: int|
                if 0 <= i < c.children.len() {
                    resolution(resolutor, c.children[i])
                } else {
                    plain_model(Seq::empty())
                },
        ));
        let ghost expected = resolution(resolutor, c);
        assert(out@.children == expected.children);
        assert(out@.format == expected.format);
        assert(out@.interactions == expected.interactions);
        assert(out@.content == expected.content);
        proof {
            if answers_static(resolutor) {
                assert(all_static(base_model.children));
                assert forall|j: int| 0 <= j < out.children@.len() implies is_static(
                    #[trigger] models(out.children@)[j],
                ) by {
                    if j < base_children.len() {
                        lemma_all_static_elem(base_model.children, j);
                    } else {
                        assert(models(out.children@)[j] == out.children@[j]@);
                        assert(out.children@[base_children.len() + (j - base_children.len())]@ == out.children@[j]@);
                    }
                }
                assert(all_static(out@.children));
                assert(content_static(out@.content));
            }
        }
        out
    }
}


impl RawTextComponent {
    /// Resolves the component for each resolutor in turn, pairing each resolutor
    /// with its resolution.
    pub fn batch_resolve<'r, R: TextResolutor + ?Sized>(&self, resolutors: Vec<&'r R>) -> (out: Vec<
        (&'r R, RawTextComponent),
    >)
        ensures
            out@.len() == resolutors@.len(),
            forall|i: int|
                0 <= i < out@.len() ==> (#[trigger] out@[i]).0 == resolutors@[i] && out@[i].1@
                    == resolution(resolutors@[i], self@),
    {
        let mut out: Vec<(&'r R, RawTextComponent)> = Vec::new();
        let mut i: usize = 0;
        while i < resolutors.len()
            invariant
                i <= resolutors@.len(),
                out@.len() == i,
                forall|j: int|
                    0 <= j < i ==> (#[trigger] out@[j]).0 == resolutors@[j] && out@[j].1@
                        == resolution(resolutors@[j], self@),
            decreases resolutors@.len() - i,
        {
            let resolutor = resolutors[i];
            out.push((resolutor, self.resolve(resolutor)));
            i += 1;
        }
        out
    }

    /// Resolves the component with `resolutor`, then builds the result with `target`.
    pub fn build<R: TextResolutor + ?Sized, S: BuildTarget<R>>(&self, resolutor: &R, target: S) -> (r: S::Result)
        ensures
            r == target.built(resolutor, resolution(resolutor, self@)),
    {
        let resolved = self.resolve(resolutor);
        target.build_component(resolutor, &resolved)
    }

    /// Builds the component for each resolutor in turn, with a fresh target from
    /// `target` each time, pairing each resolutor with its result.
    pub fn batch_build<'r, R: TextResolutor + ?Sized, S: BuildTarget<R>, F: Fn() -> S>(
        &self,
        resolutors: Vec<&'r R>,
        target: F,
    ) -> (out: Vec<(&'r R, S::Result)>)
        requires
            call_requires(target, ()),
        ensures
            out@.len() == resolutors@.len(),
            forall|i: int|
                0 <= i < out@.len() ==> (#[trigger] out@[i]).0 == resolutors@[i] && exists|s: S|
                    #[trigger] call_ensures(target, (), s) && out@[i].1 == s.built(
                        resolutors@[i],
                        resolution(resolutors@[i], self@),
                    ),
    {
        let mut out: Vec<(&'r R, S::Result)> = Vec::new();
        let mut i: usize = 0;
        while i < resolutors.len()
            invariant
                i <= resolutors@.len(),
                out@.len() == i,
                call_requires(target, ()),
                forall|j: int|
                    0 <= j < i ==> (#[trigger] out@[j]).0 == resolutors@[j] && exists|s: S|
                        #[trigger] call_ensures(target, (), s) && out@[j].1 == s.built(
                            resolutors@[j],
                            resolution(resolutors@[j], self@),
                        ),
            decreases resolutors@.len() - i,
        {
            let resolutor = resolutors[i];
            let t = target();
            let ghost made = t;
            let built = self.build(resolutor, t);
            out.push((resolutor, built));
            assert(call_ensures(target, (), made) && out@[i as int].1 == made.built(
                resolutors@[i as int],
                resolution(resolutors@[i as int], self@),
            ));
            i += 1;
        }
        out
    }
}

/// A target format for building a resolved component (a plain `String`, coloured
/// terminal output, NBT, JSON, ...).
///
/// The resolutor type is a parameter of the trait: implement it for every
/// resolutor type at once with `impl<R: TextResolutor + ?Sized> BuildTarget<R> for ...`.
pub trait BuildTarget<R: TextResolutor + ?Sized> {
    /// The type produced by this builder.
    type Result;

    /// What `build_component` produces from `component`. A verified
    /// implementation defines it; the default names no particular value.
    open spec fn built(&self, resolutor: &R, component: ComponentModel) -> Self::Result {
        arbitrary()
    }

    /// Converts a resolved component into the target representation.
    fn build_component(&self, resolutor: &R, component: &RawTextComponent) -> (r: Self::Result)
        ensures
            r == self.built(resolutor, component@),
    ;
}

impl<R: TextResolutor + ?Sized, T: BuildTarget<R>> BuildTarget<R> for Box<T> {
    type Result = T::Result;

    open spec fn built(&self, resolutor: &R, component: ComponentModel) -> T::Result {
        (**self).built(resolutor, component)
    }

    fn build_component(&self, resolutor: &R, component: &RawTextComponent) -> (r: T::Result) {
        (**self).build_component(resolutor, component)
    }
}

impl<T: TextResolutor> TextResolutor for Arc<T> {
    open spec fn resolved_other(&self, content: ContentModel) -> ComponentModel {
        component_of(content)
    }

    open spec fn resolved_content(&self, resolvable: ResolvableModel) -> ComponentModel {
        (**self).resolved_content(resolvable)
    }

    open spec fn resolved_custom(&self, data: CustomData) -> Option<ComponentModel> {
        (**self).resolved_custom(data)
    }

    /// The shared resolutor's fallback is not used: the content is shown as a
    /// plain component.
    fn resolve_other(&self, content: &Content) -> (r: RawTextComponent) {
        fallback_resolution(content)
    }

    fn resolve_content(&self, resolvable: &Resolvable) -> (r: RawTextComponent) {
        (**self).resolve_content(resolvable)
    }

    fn resolve_custom(&self, data: &CustomData) -> (r: Option<RawTextComponent>) {
        (**self).resolve_custom(data)
    }

    /// Answers what the shared resolutor answers for `key`.
    fn translate(&self, key: &str) -> (r: Option<String>)
        ensures
            call_ensures(T::translate, (&**self, key), r),
    {
        (**self).translate(key)
    }

    /// Splits `text` as the shared resolutor splits it.
    fn split_translation(&self, text: String) -> (r: Vec<(String, usize)>)
        ensures
            call_ensures(T::split_translation, (&**self, text), r),
    {
        (**self).split_translation(text)
    }
}

/// A resolutor that does no actual resolution: it shows stub text for
/// scoreboards, entity selectors, NBT paths and custom data, and never translates.
pub struct NoResolutor;

/// `prefix`, then `s`, then a closing bracket.
fn bracketed(prefix: &str, s: &str) -> (r: String)
    ensures
        r@ == prefix@ + s@ + "]"@,
{
    let r = prefix.to_owned();
    let r = r.concat(s);
    r.concat("]")
}

impl TextResolutor for NoResolutor {
    open spec fn resolved_other(&self, content: ContentModel) -> ComponentModel {
        component_of(content)
    }

    open spec fn resolved_content(&self, resolvable: ResolvableModel) -> ComponentModel {
        match resolvable {
            ResolvableModel::Scoreboard { objective, .. } => plain_model(
                "[Score: "@ + objective + "]"@,
            ),
            ResolvableModel::Entity { selector, .. } => plain_model(
                "[Entity: "@ + selector + "]"@,
            ),
            ResolvableModel::NBT { path, .. } => plain_model("[Nbt: "@ + path + "]"@),
        }
    }

    open spec fn resolved_custom(&self, data: CustomData) -> Option<ComponentModel> {
        Some(plain_model(data.id@))
    }

    fn resolve_other(&self, content: &Content) -> (r: RawTextComponent) {
        fallback_resolution(content)
    }

    fn resolve_content(&self, resolvable: &Resolvable) -> (r: RawTextComponent) {
        match resolvable {
            Resolvable::Scoreboard { objective, .. } => RawTextComponent::plain(
                bracketed("[Score: ", objective.as_str()),
            ),
            Resolvable::Entity { selector, .. } => RawTextComponent::plain(
                bracketed("[Entity: ", selector.as_str()),
            ),
            Resolvable::NBT { path, .. } => RawTextComponent::plain(
                bracketed("[Nbt: ", path.as_str()),
            ),
        }
    }

    fn resolve_custom(&self, data: &CustomData) -> (r: Option<RawTextComponent>) {
        Some(RawTextComponent::plain(data.id.clone()))
    }

    fn translate(&self, _key: &str) -> (r: Option<String>)
        ensures
            r is None,
    {
        None
    }
}

// ----- laws of resolution -----

/// Every answer of `r` fits the content it answers (as the trait demands of its
/// executable methods).
pub open spec fn answers_fit<R: TextResolutor + ?Sized>(r: &R) -> bool {
    &&& forall|c: ContentModel| #[trigger] fits(r.resolved_other(c), c)
    &&& forall|v: ResolvableModel|
        #[trigger] fits(r.resolved_content(v), ContentModel::Resolvable(v))
    &&& forall|d: CustomData|
        (#[trigger] r.resolved_custom(d) matches Some(x) ==> fits(x, ContentModel::Custom(d)))
}

/// Nothing left to resolve in `x` apart from its own translation arguments and
/// separator: its content is neither resolvable nor custom, and its children are static.
pub open spec fn shallow_static(x: ComponentModel) -> bool {
    &&& !(x.content is Resolvable)
    &&& !(x.content is Custom)
    &&& all_static(x.children)
}

/// Every answer of `r` is static apart from its own arguments and separator (the
/// fallback is asked only for content that is neither resolvable nor custom).
pub open spec fn answers_static<R: TextResolutor + ?Sized>(r: &R) -> bool {
    &&& forall|c: ContentModel|
        !(c is Resolvable) && !(c is Custom) ==> #[trigger] shallow_static(r.resolved_other(c))
    &&& forall|v: ResolvableModel| #[trigger] shallow_static(r.resolved_content(v))
    &&& forall|d: CustomData|
        (#[trigger] r.resolved_custom(d) matches Some(x) ==> shallow_static(x))
}

/// The fallback of `r` shows content as it is.
pub open spec fn falls_back_plainly<R: TextResolutor + ?Sized>(r: &R) -> bool {
    forall|c: ContentModel| #[trigger] r.resolved_other(c) == component_of(c)
}

proof fn lemma_all_static_concat(a: Seq<ComponentModel>, b: Seq<ComponentModel>)
    requires
        all_static(a),
        all_static(b),
    ensures
        all_static(a + b),
{
    assert forall|i: int| 0 <= i < (a + b).len() implies is_static(#[trigger] (a + b)[i]) by {
        if i < a.len() {
            lemma_all_static_elem(a, i);
        } else {
            lemma_all_static_elem(b, i - a.len());
        }
    }
}

/// The returned component is fully static: when every answer of the resolutor fits
/// and is static apart from its own arguments and separator, nothing is left to
/// resolve in a resolution.
pub proof fn lemma_resolution_is_static<R: TextResolutor + ?Sized>(r: &R, c: ComponentModel)
    requires
        answers_fit(r),
        answers_static(r),
    ensures
        is_static(resolution(r, c)),
    decreases rank_flag(c), height(c),
{
    lemma_resolution_order(c);
    let base = base_resolution(r, c.content);
    assert(fits(base, c.content) && shallow_static(base)) by {
        match c.content {
            ContentModel::Custom(d) => {
                assert(r.resolved_custom(d) matches Some(x) ==> fits(x, c.content) && shallow_static(x));
                if r.resolved_custom(d) is None {
                    assert(all_static(plain_model(Seq::<char>::empty()).children));
                }
            },
            ContentModel::Resolvable(v) => {
                assert(fits(r.resolved_content(v), ContentModel::Resolvable(v)));
                assert(shallow_static(r.resolved_content(v)));
            },
            _ => {
                assert(fits(r.resolved_other(c.content), c.content));
                assert(shallow_static(r.resolved_other(c.content)));
            },
        }
    }
    let res = resolution(r, c);
    match base.content {
        ContentModel::Translate(t) => {
            if let Some(a) = t.args {
                let ra = match res.content {
                    ContentModel::Translate(rt) => rt.args->0,
                    _ => Seq::empty(),
                };
                assert forall|i: int| 0 <= i < ra.len() implies is_static(#[trigger] ra[i]) by {
                    assert(below(a[i], c.content));
                    lemma_resolution_is_static(r, a[i]);
                }
                assert(all_static(ra));
            }
            assert(content_static(res.content));
        },
        _ => {
            assert(content_static(res.content));
        },
    }
    let rc = Seq::new(
        c.children.len(),
        |i: int|
            if 0 <= i < c.children.len() {
                resolution(r, c.children[i])
            } else {
                plain_model(Seq::empty())
            },
    );
    assert forall|i: int| 0 <= i < rc.len() implies is_static(#[trigger] rc[i]) by {
        lemma_resolution_is_static(r, c.children[i]);
    }
    assert(all_static(rc));
    lemma_all_static_concat(base.children, rc);
    assert(res.children == base.children + rc);
}

/// Resolving a static component with a resolutor whose fallback shows content as
/// it is gives the component back unchanged.
pub proof fn lemma_static_resolves_to_itself<R: TextResolutor + ?Sized>(r: &R, c: ComponentModel)
    requires
        falls_back_plainly(r),
        is_static(c),
    ensures
        resolution(r, c) == c,
    decreases rank_flag(c), height(c),
{
    lemma_resolution_order(c);
    assert(content_static(c.content));
    assert(all_static(c.children));
    let base = base_resolution(r, c.content);
    assert(base == component_of(c.content));
    lemma_component_of_fits(c.content);
    let res = resolution(r, c);
    match c.content {
        ContentModel::Translate(t) => {
            if let Some(a) = t.args {
                assert(all_static(a));
                let ra = match res.content {
                    ContentModel::Translate(rt) => rt.args->0,
                    _ => Seq::empty(),
                };
                assert forall|i: int| 0 <= i < a.len() implies #[trigger] ra[i] == a[i] by {
                    lemma_all_static_elem(a, i);
                    assert(below(a[i], c.content));
                    lemma_static_resolves_to_itself(r, a[i]);
                }
                assert(ra =~= a);
            }
            assert(res.content == c.content);
        },
        _ => {
            assert(res.content == c.content);
        },
    }
    assert forall|i: int| 0 <= i < c.children.len() implies #[trigger] res.children[i]
        == c.children[i] by {
        lemma_all_static_elem(c.children, i);
        lemma_static_resolves_to_itself(r, c.children[i]);
    }
    assert(res.children =~= c.children);
    assert(res.format == c.format);
    assert(res.interactions == c.interactions);
}

/// Which answer stands in for each kind of content: custom data gets the
/// resolutor's custom answer, or an empty text when the resolutor does not know
/// the data; a placeholder gets the resolutor's answer for it; and any other
/// content gets the resolutor's fallback.
pub proof fn lemma_answer_by_content<R: TextResolutor + ?Sized>(r: &R, c: ContentModel)
    ensures
        c matches ContentModel::Custom(d) ==> base_resolution(r, c) == match r.resolved_custom(d) {
            Some(x) => x,
            None => component_of(ContentModel::Text(Seq::empty())),
        },
        c matches ContentModel::Resolvable(v) ==> base_resolution(r, c) == r.resolved_content(v),
        !(c is Custom) && !(c is Resolvable) ==> base_resolution(r, c) == r.resolved_other(c),
{
}

/// How a resolution is put together: its children are the children of the
/// resolutor's answer, all of them and in order, followed by the resolutions of
/// the component's own children, in order; its formatting and interactivity are
/// those of the answer layered over those of the component; and an answer that is
/// neither a translated message nor a placeholder keeps its content.
pub proof fn lemma_resolution_layers<R: TextResolutor + ?Sized>(r: &R, c: ComponentModel)
    ensures
        ({
            let base = base_resolution(r, c.content);
            let res = resolution(r, c);
            &&& res.children.len() == base.children.len() + c.children.len()
            &&& res.children.subrange(0, base.children.len() as int) == base.children
            &&& forall|i: int|
                0 <= i < c.children.len() ==> res.children[base.children.len() + i]
                    == resolution(r, #[trigger] c.children[i])
            &&& res.format == c.format.mixed(base.format)
            &&& res.interactions == c.interactions.mixed(base.interactions)
            &&& (!(base.content is Translate) && !(base.content is Resolvable)) ==> res.content
                == base.content
        }),
        ({
            let base = base_resolution(r, c.content);
            let res = resolution(r, c);
            base.content matches ContentModel::Translate(t) ==> (fits(base, c.content) ==> (
            res.content matches ContentModel::Translate(rt) && rt.key == t.key && rt.fallback
                == t.fallback && (t.args is None ==> rt.args is None) && (t.args matches Some(a)
                ==> (rt.args matches Some(ra) && ra.len() == a.len() && forall|i: int|
                0 <= i < a.len() ==> #[trigger] ra[i] == resolution(r, a[i])))))
        }),
        ({
            let base = base_resolution(r, c.content);
            let res = resolution(r, c);
            base.content matches ContentModel::Resolvable(
                ResolvableModel::Entity { selector, separator },
            ) ==> (fits(base, c.content) ==> res.content == ContentModel::Resolvable(
                ResolvableModel::Entity { selector, separator: Box::new(resolution(r, *separator)) },
            ))
        }),
        ({
            let base = base_resolution(r, c.content);
            let res = resolution(r, c);
            base.content matches ContentModel::Resolvable(
                ResolvableModel::NBT { path, interpret, separator, source },
            ) ==> (fits(base, c.content) ==> res.content == ContentModel::Resolvable(
                ResolvableModel::NBT {
                    path,
                    interpret,
                    separator: Box::new(resolution(r, *separator)),
                    source,
                },
            ))
        }),
        ({
            let base = base_resolution(r, c.content);
            base.content matches ContentModel::Resolvable(v) ==> (v is Scoreboard ==> resolution(
                r,
                c,
            ).content == base.content)
        }),
{
    let base = base_resolution(r, c.content);
    let res = resolution(r, c);
    assert(res.children.subrange(0, base.children.len() as int) =~= base.children);
}

/// A shared resolutor answers placeholders and custom data exactly as the
/// resolutor it shares does, and shows other content as it is.
pub proof fn lemma_arc_forwards<T: TextResolutor>(
    shared: Arc<T>,
    resolvable: ResolvableModel,
    data: CustomData,
    content: ContentModel,
)
    ensures
        shared.resolved_content(resolvable) == (*shared).resolved_content(resolvable),
        shared.resolved_custom(data) == (*shared).resolved_custom(data),
        shared.resolved_other(content) == component_of(content),
        base_resolution(&shared, ContentModel::Resolvable(resolvable)) == base_resolution(
            &*shared,
            ContentModel::Resolvable(resolvable),
        ),
        base_resolution(&shared, ContentModel::Custom(data)) == base_resolution(
            &*shared,
            ContentModel::Custom(data),
        ),
{
}

/// Every answer of the no-op resolutor fits and is static.
pub proof fn lemma_no_resolutor_conforms()
    ensures
        answers_fit(&NoResolutor),
        answers_static(&NoResolutor),
        falls_back_plainly(&NoResolutor),
{
    assert forall|c: ContentModel| #[trigger] fits(NoResolutor.resolved_other(c), c) by {
        lemma_component_of_fits(c);
    }
    assert forall|c: ContentModel|
        !(c is Resolvable) && !(c is Custom) implies #[trigger] shallow_static(
        NoResolutor.resolved_other(c),
    ) by {
        assert(all_static(component_of(c).children));
    }
    assert forall|v: ResolvableModel| #[trigger] shallow_static(NoResolutor.resolved_content(v)) by {
        assert(all_static(NoResolutor.resolved_content(v).children));
    }
    assert forall|d: CustomData|
        (#[trigger] NoResolutor.resolved_custom(d) matches Some(x) ==> shallow_static(x)) by {
        assert(all_static(plain_model(d.id@).children));
    }
}

/// Resolution with the no-op resolutor leaves nothing to resolve, so resolving
/// its result again changes nothing.
pub proof fn lemma_no_resolutor_idempotent(c: ComponentModel)
    ensures
        is_static(resolution(&NoResolutor, c)),
        resolution(&NoResolutor, resolution(&NoResolutor, c)) == resolution(&NoResolutor, c),
{
    lemma_no_resolutor_conforms();
    lemma_resolution_is_static(&NoResolutor, c);
    lemma_static_resolves_to_itself(&NoResolutor, resolution(&NoResolutor, c));
}
} // verus!
