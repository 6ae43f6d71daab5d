//! The text component tree and its abstract model.
use vstd::prelude::*;

use crate::custom::{CustomContentExt, CustomData};
use crate::format::{clone_opt_string, Format, Interactivity};
use crate::translation::{TranslatedContent, TranslatedModel};

verus! {

/// Where the data of an NBT component is read from.
#[derive(Debug)]
pub enum NbtSource {
    Entity(String),
    Block(String),
    Storage(String),
}

impl Clone for NbtSource {
    fn clone(&self) -> (r: Self)
        ensures
            r == *self,
    {
        match self {
            NbtSource::Entity(s) => NbtSource::Entity(s.clone()),
            NbtSource::Block(s) => NbtSource::Block(s.clone()),
            NbtSource::Storage(s) => NbtSource::Storage(s.clone()),
        }
    }
}

/// Content whose text depends on the game state and must be resolved.
#[derive(Debug)]
pub enum Resolvable {
    Scoreboard { selector: String, objective: String },
    Entity { selector: String, separator: Box<RawTextComponent> },
    NBT { path: String, interpret: bool, separator: Box<RawTextComponent>, source: NbtSource },
}

/// What a component shows.
#[derive(Debug)]
pub enum Content {
    Text(String),
    Translate(TranslatedContent),
    Keybind(String),
    Resolvable(Resolvable),
    Custom(CustomData),
}

/// A text component: its content, the components that follow it, its
/// formatting and its interactivity.
#[derive(Debug)]
pub struct RawTextComponent {
    pub content: Content,
    pub children: Vec<RawTextComponent>,
    pub format: Format,
    pub interactions: Interactivity,
}

/// The abstract value of a [`Resolvable`].
pub enum ResolvableModel {
    Scoreboard { selector: Seq<char>, objective: Seq<char> },
    Entity { selector: Seq<char>, separator: Box<ComponentModel> },
    NBT { path: Seq<char>, interpret: bool, separator: Box<ComponentModel>, source: NbtSource },
}

/// The abstract value of a [`Content`].
pub enum ContentModel {
    Text(Seq<char>),
    Translate(TranslatedModel),
    Keybind(Seq<char>),
    Resolvable(ResolvableModel),
    Custom(CustomData),
}

/// The abstract value of a [`RawTextComponent`].
pub struct ComponentModel {
    pub content: ContentModel,
    pub children: Seq<ComponentModel>,
    pub format: Format,
    pub interactions: Interactivity,
}

/// A component that shows `content` and has no children, formatting or interactivity.
pub open spec fn component_of(content: ContentModel) -> ComponentModel {
    ComponentModel {
        content,
        children: Seq::empty(),
        format: Format::empty(),
        interactions: Interactivity::empty(),
    }
}

/// A component showing the text `text`.
pub open spec fn plain_model(text: Seq<char>) -> ComponentModel {
    component_of(ContentModel::Text(text))
}

// ----- the model of the executable tree -----

pub open spec fn component_model(c: RawTextComponent) -> ComponentModel
    decreases c,
{
    ComponentModel {
        content: content_model(c.content),
        children: models(c.children@),
        format: c.format,
        interactions: c.interactions,
    }
}

pub open spec fn models(s: Seq<RawTextComponent>) -> Seq<ComponentModel>
    decreases s,
{
    Seq::new(
        s.len(),
        |i: int|
            if 0 <= i < s.len() {
                component_model(s[i])
            } else {
                plain_model(Seq::empty())
            },
    )
}

pub open spec fn content_model(c: Content) -> ContentModel
    decreases c,
{
    match c {
        Content::Text(t) => ContentModel::Text(t@),
        Content::Translate(t) => ContentModel::Translate(translated_model(t)),
        Content::Keybind(k) => ContentModel::Keybind(k@),
        Content::Resolvable(r) => ContentModel::Resolvable(resolvable_model(r)),
        Content::Custom(d) => ContentModel::Custom(d),
    }
}

pub open spec fn resolvable_model(r: Resolvable) -> ResolvableModel
    decreases r,
{
    match r {
        Resolvable::Scoreboard { selector, objective } => ResolvableModel::Scoreboard {
            selector: selector@,
            objective: objective@,
        },
        Resolvable::Entity { selector, separator } => ResolvableModel::Entity {
            selector: selector@,
            separator: Box::new(component_model(*separator)),
        },
        Resolvable::NBT { path, interpret, separator, source } => ResolvableModel::NBT {
            path: path@,
            interpret,
            separator: Box::new(component_model(*separator)),
            source,
        },
    }
}

pub open spec fn translated_model(t: TranslatedContent) -> TranslatedModel
    decreases t,
{
    TranslatedModel {
        key: t.key@,
        fallback: match t.fallback {
            Some(f) => Some(f@),
            None => None,
        },
        args: match t.args {
            Some(a) => Some(models(a@)),
            None => None,
        },
    }
}

impl View for RawTextComponent {
    type V = ComponentModel;

    open spec fn view(&self) -> ComponentModel {
        component_model(*self)
    }
}

impl View for Content {
    type V = ContentModel;

    open spec fn view(&self) -> ContentModel {
        content_model(*self)
    }
}

impl View for Resolvable {
    type V = ResolvableModel;

    open spec fn view(&self) -> ResolvableModel {
        resolvable_model(*self)
    }
}

impl View for TranslatedContent {
    type V = TranslatedModel;

    open spec fn view(&self) -> TranslatedModel {
        translated_model(*self)
    }
}

// ----- measures on the model -----

/// Number of nested levels of the tree, counting translation arguments and separators.
pub open spec fn height(c: ComponentModel) -> nat
    decreases c,
{
    let a = content_height(c.content);
    let b = seq_height(c.children);
    1 + if a >= b {
        a
    } else {
        b
    }
}

pub open spec fn content_height(c: ContentModel) -> nat
    decreases c,
{
    match c {
        ContentModel::Translate(t) => match t.args {
            Some(a) => 1 + seq_height(a),
            None => 0,
        },
        ContentModel::Resolvable(r) => match r {
            ResolvableModel::Entity { separator, .. } => 1 + height(*separator),
            ResolvableModel::NBT { separator, .. } => 1 + height(*separator),
            ResolvableModel::Scoreboard { .. } => 0,
        },
        _ => 0,
    }
}

/// The largest height of the components of `s`.
pub open spec fn seq_height(s: Seq<ComponentModel>) -> nat
    decreases s,
{
    if s.len() == 0 {
        0
    } else {
        let rest = seq_height(s.subrange(0, s.len() - 1));
        let last = height(s[s.len() - 1]);
        if rest >= last {
            rest
        } else {
            last
        }
    }
}

/// A component is static when nothing in it is left to resolve: no resolvable or
/// custom content in it, in its translation arguments, or in its children.
pub open spec fn is_static(c: ComponentModel) -> bool
    decreases c,
{
    content_static(c.content) && all_static(c.children)
}

pub open spec fn content_static(c: ContentModel) -> bool
    decreases c,
{
    match c {
        ContentModel::Text(_) => true,
        ContentModel::Keybind(_) => true,
        ContentModel::Translate(t) => match t.args {
            Some(a) => all_static(a),
            None => true,
        },
        ContentModel::Resolvable(_) => false,
        ContentModel::Custom(_) => false,
    }
}

pub open spec fn all_static(s: Seq<ComponentModel>) -> bool
    decreases s,
{
    forall|i: int| 0 <= i < s.len() ==> is_static(#[trigger] s[i])
}

pub proof fn lemma_all_static_elem(s: Seq<ComponentModel>, i: int)
    requires
        all_static(s),
        0 <= i < s.len(),
    ensures
        is_static(s[i]),
{
}

pub proof fn lemma_seq_height_bounds(s: Seq<ComponentModel>, i: int)
    requires
        0 <= i < s.len(),
    ensures
        height(s[i]) <= seq_height(s),
    decreases s.len(),
{
    if i < s.len() - 1 {
        lemma_seq_height_bounds(s.subrange(0, s.len() - 1), i);
    }
}

// ----- copying -----

fn clone_component(c: &RawTextComponent) -> (r: RawTextComponent)
    ensures
        r@ == c@,
    decreases c,
{
    RawTextComponent {
        content: clone_content(&c.content),
        children: clone_components(&c.children),
        format: c.format,
        interactions: c.interactions.clone(),
    }
}

fn clone_components(v: &Vec<RawTextComponent>) -> (r: Vec<RawTextComponent>)
    ensures
        models(r@) == models(v@),
    decreases v,
{
    let mut out: Vec<RawTextComponent> = Vec::new();
    let mut i: usize = 0;
    while i < v.len()
        invariant
            i <= v.len(),
            out@.len() == i,
            forall|j: int| 0 <= j < i ==> (#[trigger] out@[j])@ == v@[j]@,
        decreases v.len() - i,
    {
        out.push(clone_component(&v[i]));
        i += 1;
    }
    assert(models(out@) =~= models(v@));
    out
}

fn clone_content(c: &Content) -> (r: Content)
    ensures
        r@ == c@,
    decreases c,
{
    match c {
        Content::Text(t) => Content::Text(t.clone()),
        Content::Translate(t) => Content::Translate(clone_translated(t)),
        Content::Keybind(k) => Content::Keybind(k.clone()),
        Content::Resolvable(r) => Content::Resolvable(clone_resolvable(r)),
        Content::Custom(d) => Content::Custom(d.clone()),
    }
}

fn clone_resolvable(r: &Resolvable) -> (out: Resolvable)
    ensures
        out@ == r@,
    decreases r,
{
    match r {
        Resolvable::Scoreboard { selector, objective } => Resolvable::Scoreboard {
            selector: selector.clone(),
            objective: objective.clone(),
        },
        Resolvable::Entity { selector, separator } => Resolvable::Entity {
            selector: selector.clone(),
            separator: Box::new(clone_component(separator)),
        },
        Resolvable::NBT { path, interpret, separator, source } => Resolvable::NBT {
            path: path.clone(),
            interpret: *interpret,
            separator: Box::new(clone_component(separator)),
            source: source.clone(),
        },
    }
}

fn clone_translated(t: &TranslatedContent) -> (r: TranslatedContent)
    ensures
        r@ == t@,
    decreases t,
{
    TranslatedContent {
        key: t.key.clone(),
        fallback: clone_opt_string(&t.fallback),
        args: match &t.args {
            Some(a) => Some(clone_components(a)),
            None => None,
        },
    }
}

impl Clone for RawTextComponent {
    fn clone(&self) -> (r: Self)
        ensures
            r@ == self@,
    {
        clone_component(self)
    }
}

impl Clone for Content {
    fn clone(&self) -> (r: Self)
        ensures
            r@ == self@,
    {
        clone_content(self)
    }
}

impl Clone for Resolvable {
    fn clone(&self) -> (r: Self)
        ensures
            r@ == self@,
    {
        clone_resolvable(self)
    }
}

impl Clone for TranslatedContent {
    fn clone(&self) -> (r: Self)
        ensures
            r@ == self@,
    {
        clone_translated(self)
    }
}

// ----- construction -----

impl RawTextComponent {
    /// A component with empty text.
    pub fn new() -> (r: RawTextComponent)
        ensures
            r@ == plain_model(Seq::empty()),
    {
        RawTextComponent::from_content(Content::Text(String::new()))
    }

    /// A component showing `content`, with no children, formatting or interactivity.
    pub fn from_content(content: Content) -> (r: RawTextComponent)
        ensures
            r@ == component_of(content@),
    {
        let r = RawTextComponent {
            content,
            children: Vec::new(),
            format: Format::new(),
            interactions: Interactivity::new(),
        };
        assert(models(r.children@) =~= Seq::<ComponentModel>::empty());
        r
    }

    /// A component showing `text`.
    pub fn plain(text: String) -> (r: RawTextComponent)
        ensures
            r@ == plain_model(text@),
    {
        RawTextComponent::from_content(Content::Text(text))
    }

    /// A component showing a copy of `text`.
    pub fn const_plain(text: &str) -> (r: RawTextComponent)
        ensures
            r@ == plain_model(text@),
    {
        RawTextComponent::plain(text.to_owned())
    }

    /// A component showing the translated message `content`.
    pub fn translated(content: TranslatedContent) -> (r: RawTextComponent)
        ensures
            r@ == component_of(ContentModel::Translate(content@)),
    {
        RawTextComponent::from_content(Content::Translate(content))
    }

    /// A component showing the custom content `data`.
    pub fn custom(data: CustomData) -> (r: RawTextComponent)
        ensures
            r@ == component_of(ContentModel::Custom(data)),
    {
        RawTextComponent::from_content(Content::Custom(data))
    }

    /// A component showing the custom content that `value` describes.
    pub fn from_custom_content<T: CustomContentExt>(value: &T) -> (r: RawTextComponent)
        ensures
            r@ == component_of(ContentModel::Custom(value.data())),
    {
        RawTextComponent::custom(value.as_data())
    }

    /// Appends `child` to the children of this component.
    pub fn add_child(self, child: RawTextComponent) -> (r: RawTextComponent)
        ensures
            r@ == (ComponentModel { children: self@.children.push(child@), ..self@ }),
    {
        let RawTextComponent { content, mut children, format, interactions } = self;
        let ghost old_children = children@;
        children.push(child);
        let r = RawTextComponent { content, children, format, interactions };
        assert(models(r.children@) =~= models(old_children).push(child@));
        r
    }
}

impl Default for RawTextComponent {
    fn default() -> (r: RawTextComponent)
        ensures
            r@ == plain_model(Seq::empty()),
    {
        RawTextComponent::new()
    }
}

} // verus!
