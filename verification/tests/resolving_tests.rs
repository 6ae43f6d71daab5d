use std::sync::Arc;

use text_components::component::{Content, NbtSource, RawTextComponent, Resolvable};
use text_components::custom::{CustomContentExt, CustomData, Payload};
use text_components::format::{ClickEvent, Color, Format, HoverEvent, Interactivity};
use text_components::resolving::{fallback_resolution, BuildTarget, NoResolutor, TextResolutor};
use text_components::translation::TranslatedContent;

fn text_of(c: &RawTextComponent) -> &str {
    match &c.content {
        Content::Text(t) => t.as_str(),
        other => panic!("not a text component: {:?}", other),
    }
}

fn scoreboard(objective: &str) -> RawTextComponent {
    RawTextComponent::from_content(Content::Resolvable(Resolvable::Scoreboard {
        selector: "@p".to_string(),
        objective: objective.to_string(),
    }))
}

/// Flattens a component tree into its texts, depth first.
fn flatten(c: &RawTextComponent, out: &mut Vec<String>) {
    match &c.content {
        Content::Text(t) => out.push(t.clone()),
        Content::Keybind(k) => out.push(format!("<key {k}>")),
        Content::Translate(t) => {
            out.push(format!("<tr {}>", t.key));
            if let Some(a) = &t.args {
                for x in a {
                    flatten(x, out);
                }
            }
        }
        Content::Resolvable(_) => out.push("<resolvable>".to_string()),
        Content::Custom(d) => out.push(format!("<custom {}>", d.id)),
    }
    for ch in &c.children {
        flatten(ch, out);
    }
}

fn texts(c: &RawTextComponent) -> Vec<String> {
    let mut v = vec![];
    flatten(c, &mut v);
    v
}

#[test]
fn no_resolutor_stubs_resolvables() {
    let r = NoResolutor;
    assert_eq!(text_of(&scoreboard("kills").resolve(&r)), "[Score: kills]");
    let entity = RawTextComponent::from_content(Content::Resolvable(Resolvable::Entity {
        selector: "@a".to_string(),
        separator: Box::new(RawTextComponent::const_plain(", ")),
    }));
    assert_eq!(text_of(&entity.resolve(&r)), "[Entity: @a]");
    let nbt = RawTextComponent::from_content(Content::Resolvable(Resolvable::NBT {
        path: "Inventory[0]".to_string(),
        interpret: false,
        separator: Box::new(RawTextComponent::const_plain(", ")),
        source: NbtSource::Entity("@s".to_string()),
    }));
    assert_eq!(text_of(&nbt.resolve(&r)), "[Nbt: Inventory[0]]");
    let custom = RawTextComponent::custom(CustomData { id: "time".to_string(), payload: Payload::Empty });
    assert_eq!(text_of(&custom.resolve(&r)), "time");
    assert!(r.translate("anything").is_none());
}

#[test]
fn resolve_resolves_children_and_arguments() {
    let msg = TranslatedContent::new("greet", Some(vec![scoreboard("a"), RawTextComponent::const_plain("b")]));
    let c = msg
        .component()
        .add_child(scoreboard("c"))
        .add_child(RawTextComponent::const_plain("d").add_child(scoreboard("e")));
    let resolved = c.resolve(&NoResolutor);
    assert_eq!(
        texts(&resolved),
        vec!["<tr greet>", "[Score: a]", "b", "[Score: c]", "d", "[Score: e]"]
    );
}

#[test]
fn resolve_layers_format_and_interactivity() {
    let mut c = scoreboard("obj");
    c.format = Format { color: Some(Color::Red), bold: Some(true), ..Format::new() };
    c.interactions = Interactivity {
        insertion: Some("ins".to_string()),
        click_event: Some(ClickEvent::RunCommand("/say hi".to_string())),
        hover_event: None,
    };
    let resolved = c.resolve(&NoResolutor);
    assert_eq!(resolved.format.color, Some(Color::Red));
    assert_eq!(resolved.format.bold, Some(true));
    assert_eq!(resolved.format.italic, None);
    assert_eq!(resolved.interactions.insertion.as_deref(), Some("ins"));
    assert!(matches!(&resolved.interactions.click_event, Some(ClickEvent::RunCommand(s)) if s == "/say hi"));
    assert!(resolved.interactions.hover_event.is_none());
}

#[test]
fn format_mix_prefers_the_other() {
    let base = Format { color: Some(Color::Blue), bold: Some(false), ..Format::new() };
    let over = Format { color: Some(Color::Hex(0x6f00ff)), italic: Some(true), ..Format::new() };
    let m = base.mix(&over);
    assert_eq!(m.color, Some(Color::Hex(0x6f00ff)));
    assert_eq!(m.bold, Some(false));
    assert_eq!(m.italic, Some(true));
    assert_eq!(m.underlined, None);
}

#[test]
fn interactivity_mix_fills_unset_parts() {
    let base = Interactivity {
        insertion: Some("a".to_string()),
        click_event: Some(ClickEvent::ChangePage(3)),
        hover_event: Some(HoverEvent::ShowText("hi".to_string())),
    };
    let mut other = Interactivity { insertion: Some("b".to_string()), click_event: None, hover_event: None };
    base.mix(&mut other);
    assert_eq!(other.insertion.as_deref(), Some("b"));
    assert!(matches!(other.click_event, Some(ClickEvent::ChangePage(3))));
    assert!(matches!(&other.hover_event, Some(HoverEvent::ShowText(s)) if s == "hi"));
}

#[test]
fn static_component_resolves_to_itself() {
    let c = RawTextComponent::const_plain("Hello")
        .add_child(TranslatedContent::new("k", Some(vec![RawTextComponent::const_plain("x")])).component());
    let before = texts(&c);
    let resolved = c.resolve(&NoResolutor);
    assert_eq!(texts(&resolved), before);
    // and resolving again changes nothing
    let again = resolved.resolve(&NoResolutor);
    assert_eq!(texts(&again), texts(&resolved));
}

#[test]
fn resolution_is_idempotent_with_no_resolutor() {
    let c = scoreboard("x").add_child(scoreboard("y"));
    let once = c.resolve(&NoResolutor);
    let twice = once.resolve(&NoResolutor);
    assert_eq!(texts(&once), vec!["[Score: x]", "[Score: y]"]);
    assert_eq!(texts(&twice), texts(&once));
}

#[test]
fn arc_resolutor_forwards() {
    let r = Arc::new(NoResolutor);
    assert_eq!(text_of(&scoreboard("kills").resolve(&r)), "[Score: kills]");
    assert_eq!(
        r.split_translation("a %s b".to_string()),
        vec![("a ".to_string(), 1), (" b".to_string(), 0)]
    );
}

struct Game {
    score: i32,
}

impl TextResolutor for Game {
    fn resolve_other(&self, content: &Content) -> RawTextComponent {
        fallback_resolution(content)
    }

    fn resolve_content(&self, resolvable: &Resolvable) -> RawTextComponent {
        match resolvable {
            Resolvable::Scoreboard { .. } => RawTextComponent::plain(self.score.to_string()),
            Resolvable::Entity { .. } => RawTextComponent::const_plain("Steve"),
            Resolvable::NBT { .. } => RawTextComponent::const_plain("{}"),
        }
    }

    fn resolve_custom(&self, data: &CustomData) -> Option<RawTextComponent> {
        if data.id == "hello" {
            Some(RawTextComponent::const_plain("Hello World!"))
        } else {
            None
        }
    }

    fn translate(&self, _key: &str) -> Option<String> {
        None
    }
}

#[test]
fn custom_resolutor_and_unknown_custom_data() {
    let g = Game { score: 5 };
    assert_eq!(text_of(&scoreboard("any").resolve(&g)), "5");
    let known = RawTextComponent::custom(CustomData { id: "hello".to_string(), payload: Payload::Empty });
    assert_eq!(text_of(&known.resolve(&g)), "Hello World!");
    let unknown = RawTextComponent::custom(CustomData { id: "nope".to_string(), payload: Payload::Empty });
    assert_eq!(text_of(&unknown.resolve(&g)), "");
}

#[test]
fn batch_resolve_pairs_each_resolutor() {
    let a = Game { score: 1 };
    let b = Game { score: 2 };
    let c = scoreboard("s");
    let out = c.batch_resolve(vec![&a, &b]);
    assert_eq!(out.len(), 2);
    assert!(std::ptr::eq(out[0].0, &a));
    assert_eq!(text_of(&out[0].1), "1");
    assert!(std::ptr::eq(out[1].0, &b));
    assert_eq!(text_of(&out[1].1), "2");
}

struct Flat;

impl<R: TextResolutor> BuildTarget<R> for Flat {
    type Result = String;

    fn build_component(&self, _resolutor: &R, component: &RawTextComponent) -> String {
        texts(component).concat()
    }
}

#[test]
fn build_resolves_then_builds() {
    let c = RawTextComponent::const_plain("Score: ").add_child(scoreboard("s"));
    assert_eq!(c.build(&Game { score: 42 }, Flat), "Score: 42");
    assert_eq!(c.build(&NoResolutor, Box::new(Flat)), "Score: [Score: s]");
}

#[test]
fn batch_build_builds_for_each_resolutor() {
    let a = Game { score: 7 };
    let b = Game { score: 8 };
    let c = scoreboard("s");
    let out = c.batch_build(vec![&a, &b], || Flat);
    assert_eq!(out.len(), 2);
    assert_eq!(out[0].1, "7");
    assert_eq!(out[1].1, "8");
}

struct Clock;

impl CustomContentExt for Clock {
    fn as_data(&self) -> CustomData {
        CustomData { id: "time".to_string(), payload: Payload::Empty }
    }
}

#[test]
fn custom_content_component() {
    let c = RawTextComponent::from_custom_content(&Clock);
    assert!(matches!(&c.content, Content::Custom(d) if d.id == "time" && d.payload.is_empty()));
    assert_eq!(text_of(&c.resolve(&NoResolutor)), "time");
}

#[test]
fn new_and_default_are_empty_text() {
    assert_eq!(text_of(&RawTextComponent::new()), "");
    assert_eq!(text_of(&RawTextComponent::default()), "");
    assert!(RawTextComponent::new().children.is_empty());
}

#[test]
fn clone_copies_the_tree() {
    let c = scoreboard("a").add_child(RawTextComponent::const_plain("b"));
    let d = c.clone();
    assert_eq!(texts(&d), texts(&c));
}

#[test]
fn resolve_through_a_trait_object() {
    let r: &dyn TextResolutor = &NoResolutor;
    assert_eq!(text_of(&scoreboard("deaths").resolve(r)), "[Score: deaths]");
    let out = scoreboard("k").batch_resolve(vec![r, &Game { score: 3 }]);
    assert_eq!(text_of(&out[0].1), "[Score: k]");
    assert_eq!(text_of(&out[1].1), "3");
}

/// Shows keybinds by a fixed text instead of the keybind itself.
struct KeyNames;

impl TextResolutor for KeyNames {
    fn resolve_other(&self, content: &Content) -> RawTextComponent {
        match content {
            Content::Keybind(_) => RawTextComponent::const_plain("[key]"),
            other => fallback_resolution(other),
        }
    }

    fn resolve_content(&self, resolvable: &Resolvable) -> RawTextComponent {
        NoResolutor.resolve_content(resolvable)
    }

    fn resolve_custom(&self, data: &CustomData) -> Option<RawTextComponent> {
        NoResolutor.resolve_custom(data)
    }

    fn translate(&self, key: &str) -> Option<String> {
        NoResolutor.translate(key)
    }
}

#[test]
fn arc_resolutor_keeps_the_plain_fallback() {
    let keybind = Content::Keybind("key.jump".to_string());
    let direct = KeyNames.resolve_other(&keybind);
    assert_eq!(text_of(&direct), "[key]");
    let shared = Arc::new(KeyNames);
    let via_arc = shared.resolve_other(&keybind);
    assert!(matches!(&via_arc.content, Content::Keybind(k) if k == "key.jump"));
    assert!(via_arc.children.is_empty());
}
