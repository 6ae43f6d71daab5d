//! Styling and interactivity attached to a text component.
//!
//! These are plain values: every field is either a primitive, an `Option` of one,
//! or a `String`, so equality of two values is equality of their fields.
use vstd::prelude::*;

verus! {

/// A text colour: one of the sixteen named colours, or an RGB value `0xRRGGBB`.
#[derive(Clone, Copy, Debug, PartialEq, Eq, Structural)]
pub enum Color {
    Black,
    DarkBlue,
    DarkGreen,
    DarkAqua,
    DarkRed,
    DarkPurple,
    Gold,
    Gray,
    DarkGray,
    Blue,
    Green,
    Aqua,
    Red,
    LightPurple,
    Yellow,
    White,
    Hex(u32),
}

/// The formatting of a component. `None` means "inherit from the parent".
#[derive(Clone, Copy, Debug, PartialEq, Eq, Structural)]
pub struct Format {
    pub color: Option<Color>,
    pub bold: Option<bool>,
    pub italic: Option<bool>,
    pub underlined: Option<bool>,
    pub strikethrough: Option<bool>,
    pub obfuscated: Option<bool>,
    /// ARGB shadow colour.
    pub shadow_color: Option<u32>,
}

/// The value of `preferred` where it is set, else that of `fallback`.
pub open spec fn prefer<T>(preferred: Option<T>, fallback: Option<T>) -> Option<T> {
    if preferred is Some {
        preferred
    } else {
        fallback
    }
}

fn prefer_copy<T: Copy>(preferred: Option<T>, fallback: Option<T>) -> (r: Option<T>)
    ensures
        r == prefer(preferred, fallback),
{
    match preferred {
        Some(v) => Some(v),
        None => fallback,
    }
}

impl Format {
    /// The format that sets nothing.
    pub open spec fn empty() -> Format {
        Format {
            color: None,
            bold: None,
            italic: None,
            underlined: None,
            strikethrough: None,
            obfuscated: None,
            shadow_color: None,
        }
    }

    /// Layering `other` over `self`: each field of `other` that is set wins,
    /// the others are taken from `self`.
    pub open spec fn mixed(self, other: Format) -> Format {
        Format {
            color: prefer(other.color, self.color),
            bold: prefer(other.bold, self.bold),
            italic: prefer(other.italic, self.italic),
            underlined: prefer(other.underlined, self.underlined),
            strikethrough: prefer(other.strikethrough, self.strikethrough),
            obfuscated: prefer(other.obfuscated, self.obfuscated),
            shadow_color: prefer(other.shadow_color, self.shadow_color),
        }
    }

    /// Creates a format that sets nothing.
    pub fn new() -> (r: Format)
        ensures
            r == Format::empty(),
    {
        Format {
            color: None,
            bold: None,
            italic: None,
            underlined: None,
            strikethrough: None,
            obfuscated: None,
            shadow_color: None,
        }
    }

    /// Mixes `other` over `self` (see [`Format::mixed`]).
    pub fn mix(&self, other: &Format) -> (r: Format)
        ensures
            r == self.mixed(*other),
    {
        Format {
            color: prefer_copy(other.color, self.color),
            bold: prefer_copy(other.bold, self.bold),
            italic: prefer_copy(other.italic, self.italic),
            underlined: prefer_copy(other.underlined, self.underlined),
            strikethrough: prefer_copy(other.strikethrough, self.strikethrough),
            obfuscated: prefer_copy(other.obfuscated, self.obfuscated),
            shadow_color: prefer_copy(other.shadow_color, self.shadow_color),
        }
    }
}

/// What happens when the text is clicked.
#[derive(Debug)]
pub enum ClickEvent {
    OpenUrl(String),
    RunCommand(String),
    SuggestCommand(String),
    ChangePage(u32),
    CopyToClipboard(String),
}

impl Clone for ClickEvent {
    fn clone(&self) -> (r: Self)
        ensures
            r == *self,
    {
        match self {
            ClickEvent::OpenUrl(s) => ClickEvent::OpenUrl(s.clone()),
            ClickEvent::RunCommand(s) => ClickEvent::RunCommand(s.clone()),
            ClickEvent::SuggestCommand(s) => ClickEvent::SuggestCommand(s.clone()),
            ClickEvent::ChangePage(p) => ClickEvent::ChangePage(*p),
            ClickEvent::CopyToClipboard(s) => ClickEvent::CopyToClipboard(s.clone()),
        }
    }
}

/// What is shown when the text is hovered.
#[derive(Debug)]
pub enum HoverEvent {
    ShowText(String),
    ShowItem { id: String, count: u32 },
    ShowEntity { kind: String, uuid: u128, name: Option<String> },
}

impl Clone for HoverEvent {
    fn clone(&self) -> (r: Self)
        ensures
            r == *self,
    {
        match self {
            HoverEvent::ShowText(s) => HoverEvent::ShowText(s.clone()),
            HoverEvent::ShowItem { id, count } => HoverEvent::ShowItem { id: id.clone(), count: *count },
            HoverEvent::ShowEntity { kind, uuid, name } => HoverEvent::ShowEntity {
                kind: kind.clone(),
                uuid: *uuid,
                name: clone_opt_string(name),
            },
        }
    }
}

pub(crate) fn clone_opt_string(s: &Option<String>) -> (r: Option<String>)
    ensures
        r == *s,
{
    match s {
        Some(v) => Some(v.clone()),
        None => None,
    }
}

/// Insertion text and click / hover behaviour of a component.
#[derive(Debug)]
pub struct Interactivity {
    pub insertion: Option<String>,
    pub click_event: Option<ClickEvent>,
    pub hover_event: Option<HoverEvent>,
}

impl Clone for Interactivity {
    fn clone(&self) -> (r: Self)
        ensures
            r == *self,
    {
        Interactivity {
            insertion: clone_opt_string(&self.insertion),
            click_event: match &self.click_event {
                Some(c) => Some(c.clone()),
                None => None,
            },
            hover_event: match &self.hover_event {
                Some(h) => Some(h.clone()),
                None => None,
            },
        }
    }
}

impl Interactivity {
    /// No insertion, no events.
    pub open spec fn empty() -> Interactivity {
        Interactivity { insertion: None, click_event: None, hover_event: None }
    }

    /// Layering `other` over `self`: what `other` sets wins, the rest comes from `self`.
    pub open spec fn mixed(self, other: Interactivity) -> Interactivity {
        Interactivity {
            insertion: prefer(other.insertion, self.insertion),
            click_event: prefer(other.click_event, self.click_event),
            hover_event: prefer(other.hover_event, self.hover_event),
        }
    }

    /// Creates an interactivity with nothing set.
    pub fn new() -> (r: Interactivity)
        ensures
            r == Interactivity::empty(),
    {
        Interactivity { insertion: None, click_event: None, hover_event: None }
    }

    /// Fills each part of `other` that is unset with the one of `self`.
    pub fn mix(&self, other: &mut Interactivity)
        ensures
            *final(other) == self.mixed(*old(other)),
    {
        if other.insertion.is_none() {
            other.insertion = clone_opt_string(&self.insertion);
        }
        if other.click_event.is_none() {
            other.click_event = match &self.click_event {
                Some(c) => Some(c.clone()),
                None => None,
            };
        }
        if other.hover_event.is_none() {
            other.hover_event = match &self.hover_event {
                Some(h) => Some(h.clone()),
                None => None,
            };
        }
    }
}

// ----- the laws of layering -----

/// Layering one format over another takes each field from the top format where
/// it sets that field, and from the bottom format where it does not: a field set
/// by only one side keeps that side's value.
pub proof fn lemma_format_mix_fields(bottom: Format, top: Format)
    ensures
        top.color is Some ==> bottom.mixed(top).color == top.color,
        top.color is None ==> bottom.mixed(top).color == bottom.color,
        top.bold is Some ==> bottom.mixed(top).bold == top.bold,
        top.bold is None ==> bottom.mixed(top).bold == bottom.bold,
        top.italic is Some ==> bottom.mixed(top).italic == top.italic,
        top.italic is None ==> bottom.mixed(top).italic == bottom.italic,
        top.underlined is Some ==> bottom.mixed(top).underlined == top.underlined,
        top.underlined is None ==> bottom.mixed(top).underlined == bottom.underlined,
        top.strikethrough is Some ==> bottom.mixed(top).strikethrough == top.strikethrough,
        top.strikethrough is None ==> bottom.mixed(top).strikethrough == bottom.strikethrough,
        top.obfuscated is Some ==> bottom.mixed(top).obfuscated == top.obfuscated,
        top.obfuscated is None ==> bottom.mixed(top).obfuscated == bottom.obfuscated,
        top.shadow_color is Some ==> bottom.mixed(top).shadow_color == top.shadow_color,
        top.shadow_color is None ==> bottom.mixed(top).shadow_color == bottom.shadow_color,
{
}

/// The format that sets nothing changes nothing, on either side of a layering;
/// layering a format over itself gives it back; and layering is associative.
pub proof fn lemma_format_mix_algebra(a: Format, b: Format, c: Format)
    ensures
        Format::empty().mixed(a) == a,
        a.mixed(Format::empty()) == a,
        a.mixed(a) == a,
        a.mixed(b).mixed(c) == a.mixed(b.mixed(c)),
{
}

/// Layering one interactivity over another takes each part from the top one
/// where it sets that part, and from the bottom one where it does not.
pub proof fn lemma_interactivity_mix_fields(bottom: Interactivity, top: Interactivity)
    ensures
        top.insertion is Some ==> bottom.mixed(top).insertion == top.insertion,
        top.insertion is None ==> bottom.mixed(top).insertion == bottom.insertion,
        top.click_event is Some ==> bottom.mixed(top).click_event == top.click_event,
        top.click_event is None ==> bottom.mixed(top).click_event == bottom.click_event,
        top.hover_event is Some ==> bottom.mixed(top).hover_event == top.hover_event,
        top.hover_event is None ==> bottom.mixed(top).hover_event == bottom.hover_event,
{
}

/// The interactivity that sets nothing changes nothing, on either side of a
/// layering; layering one over itself gives it back; and layering is associative.
pub proof fn lemma_interactivity_mix_algebra(a: Interactivity, b: Interactivity, c: Interactivity)
    ensures
        Interactivity::empty().mixed(a) == a,
        a.mixed(Interactivity::empty()) == a,
        a.mixed(a) == a,
        a.mixed(b).mixed(c) == a.mixed(b.mixed(c)),
{
}

} // verus!
