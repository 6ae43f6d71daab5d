use text_components::codegen::{
    count_parameters, plan_language_file, plan_translations, process_tokens,
    TranslationPlan,
};
use text_components::component::{Content, RawTextComponent};
use text_components::custom::Payload;
use text_components::translation::{
    split_placeholders, TranslatedContent, Translation, TranslationToken, TranslationTokenArray,
};

fn text_of(c: &RawTextComponent) -> &str {
    match &c.content {
        Content::Text(t) => t.as_str(),
        other => panic!("not a text component: {:?}", other),
    }
}

fn segs(v: &[(&str, usize)]) -> Vec<(String, usize)> {
    v.iter().map(|(s, i)| (s.to_string(), *i)).collect()
}

#[test]
fn payload_empty_is_empty() {
    assert!(Payload::Empty.is_empty());
}

#[test]
fn translated_content_new_has_no_fallback() {
    let t = TranslatedContent::new("chat.type.text", None);
    assert_eq!(t.key, "chat.type.text");
    assert!(t.fallback.is_none());
    assert!(t.args.is_none());
}

#[test]
fn translated_content_component_shows_message() {
    let args = vec![RawTextComponent::const_plain("Steve")];
    let c = TranslatedContent::new("welcome", Some(args)).component();
    assert!(c.children.is_empty());
    match &c.content {
        Content::Translate(t) => {
            assert_eq!(t.key, "welcome");
            assert!(t.fallback.is_none());
            let a = t.args.as_ref().unwrap();
            assert_eq!(a.len(), 1);
            assert_eq!(text_of(&a[0]), "Steve");
        }
        _ => panic!("expected a translation"),
    }
}

#[test]
fn component_fallback_sets_fallback() {
    let c = TranslatedContent::new("missing.key", None).component_fallback("Hello".to_string());
    match &c.content {
        Content::Translate(t) => {
            assert_eq!(t.key, "missing.key");
            assert_eq!(t.fallback.as_deref(), Some("Hello"));
        }
        _ => panic!("expected a translation"),
    }
}

#[test]
fn translation_msg_and_message() {
    const NO_ARGS: Translation<0> = Translation("menu.quit");
    let m = NO_ARGS.msg();
    assert_eq!(m.key, "menu.quit");
    assert!(m.args.is_none());
    let c = NO_ARGS.component();
    assert!(matches!(&c.content, Content::Translate(t) if t.key == "menu.quit" && t.args.is_none()));

    const TWO: Translation<2> = Translation("death.attack.player");
    let m = TWO.message([RawTextComponent::const_plain("A"), RawTextComponent::const_plain("B")]);
    assert_eq!(m.key, "death.attack.player");
    let a = m.args.unwrap();
    assert_eq!(a.len(), 2);
    assert_eq!(text_of(&a[0]), "A");
    assert_eq!(text_of(&a[1]), "B");
}

#[test]
fn token_components() {
    let values = Some(vec![RawTextComponent::const_plain("x"), RawTextComponent::const_plain("y")]);
    assert_eq!(text_of(&TranslationToken::Text("lit").component(&values)), "lit");
    assert_eq!(text_of(&TranslationToken::Arg(2).component(&values)), "y");
    assert_eq!(text_of(&TranslationToken::Arg(1).component(&values)), "x");
    // without arguments an argument token is an empty component
    assert_eq!(text_of(&TranslationToken::Arg(5).component(&None)), "");
}

#[test]
fn token_array_component_appends_children_in_order() {
    let tokens = [
        TranslationToken::Text("Hello "),
        TranslationToken::Arg(1),
        TranslationToken::Text(", bye "),
        TranslationToken::Arg(2),
    ];
    let values = Some(vec![RawTextComponent::const_plain("Alex"), RawTextComponent::const_plain("Sam")]);
    let c = tokens[..].component(&values);
    assert_eq!(text_of(&c), "Hello ");
    assert_eq!(c.children.len(), 3);
    assert_eq!(text_of(&c.children[0]), "Alex");
    assert_eq!(text_of(&c.children[1]), ", bye ");
    assert_eq!(text_of(&c.children[2]), "Sam");
}

#[test]
fn token_array_empty_is_empty_text() {
    let tokens: [TranslationToken; 0] = [];
    let c = tokens[..].component(&None);
    assert_eq!(text_of(&c), "");
    assert!(c.children.is_empty());
}

#[test]
fn split_sequential_placeholders() {
    assert_eq!(
        split_placeholders("Hello %s and %s!"),
        segs(&[("Hello ", 1), (" and ", 2), ("!", 0)])
    );
}

#[test]
fn split_positional_placeholders() {
    assert_eq!(
        split_placeholders("%2$s was slain by %1$s"),
        segs(&[("", 2), (" was slain by ", 1), ("", 0)])
    );
}

#[test]
fn split_mixed_and_edges() {
    assert_eq!(split_placeholders("no placeholders"), segs(&[("no placeholders", 0)]));
    assert_eq!(split_placeholders(""), segs(&[("", 0)]));
    assert_eq!(split_placeholders("%%s"), segs(&[("%", 1), ("", 0)]));
    assert_eq!(split_placeholders("100%"), segs(&[("100%", 0)]));
    // only 1 to 8 are positional indices
    assert_eq!(split_placeholders("%9$s"), segs(&[("%9$s", 0)]));
    assert_eq!(split_placeholders("%0$s"), segs(&[("%0$s", 0)]));
    assert_eq!(
        split_placeholders("%s, %8$s, %s"),
        segs(&[("", 1), (", ", 8), (", ", 2), ("", 0)])
    );
    assert_eq!(
        split_placeholders("héllo %s ü"),
        segs(&[("héllo ", 1), (" ü", 0)])
    );
}

#[test]
fn count_parameters_examples() {
    assert_eq!(count_parameters("plain"), 0);
    assert_eq!(count_parameters("%s and %s"), 2);
    assert_eq!(count_parameters("%3$s"), 3);
    assert_eq!(count_parameters("%s %2$s"), 2);
    assert_eq!(count_parameters("%s %s %s %1$s"), 3);
    assert_eq!(count_parameters("%9$s"), 0);
    assert_eq!(count_parameters("%8$s %1$s"), 8);
}

#[test]
fn process_tokens_of_text() {
    let tokens = process_tokens("Hi %s, see %2$s.");
    assert_eq!(tokens.len(), 5);
    assert!(matches!(tokens[0], TranslationToken::Text("Hi ")));
    assert!(matches!(tokens[1], TranslationToken::Arg(1)));
    assert!(matches!(tokens[2], TranslationToken::Text(", see ")));
    assert!(matches!(tokens[3], TranslationToken::Arg(2)));
    assert!(matches!(tokens[4], TranslationToken::Text(".")));
}

#[test]
fn generated_tokens_accept_their_argument_count() {
    // the tokens of a text with N parameters can be assembled with N arguments
    let text = "%2$s greets %1$s";
    let n = count_parameters(text);
    assert_eq!(n, 2);
    let tokens = process_tokens(text);
    let values: Vec<RawTextComponent> = (0..n).map(|i| RawTextComponent::plain(format!("arg{i}"))).collect();
    let c = tokens[..].component(&Some(values));
    assert_eq!(text_of(&c), "");
    assert_eq!(c.children.len(), 4);
    assert_eq!(text_of(&c.children[0]), "arg1");
    assert_eq!(text_of(&c.children[1]), " greets ");
    assert_eq!(text_of(&c.children[2]), "arg0");
    assert_eq!(text_of(&c.children[3]), "");
}

fn check_names_and_skips(plan: &[TranslationPlan]) {
    assert_eq!(plan.len(), 6);
    match &plan[0] {
        TranslationPlan::Constant { name, key, text, param_count } => {
            assert_eq!(name, "A_B");
            assert_eq!(key, "a-b");
            assert_eq!(text, "y");
            assert_eq!(*param_count, 0);
        }
        other => panic!("unexpected {:?}", other),
    }
    match &plan[1] {
        TranslationPlan::Constant { name, key, param_count, .. } => {
            assert_eq!(name, "A_B_1");
            assert_eq!(key, "a.b");
            assert_eq!(*param_count, 0);
        }
        other => panic!("unexpected {:?}", other),
    }
    match &plan[2] {
        TranslationPlan::Constant { name, key, param_count, .. } => {
            assert_eq!(name, "A_B_2");
            assert_eq!(key, "a_b");
            assert_eq!(*param_count, 1);
        }
        other => panic!("unexpected {:?}", other),
    }
    assert!(matches!(&plan[3], TranslationPlan::NotText { key } if key == "bad"));
    match &plan[4] {
        TranslationPlan::Constant { name, text, param_count, .. } => {
            assert_eq!(name, "HELLO_WORLD");
            assert_eq!(text, "z %1$s");
            assert_eq!(*param_count, 1);
        }
        other => panic!("unexpected {:?}", other),
    }
    assert!(matches!(&plan[5], TranslationPlan::TooManyParameters { key, count: 9 } if key == "many"));
}

#[test]
fn plan_translations_names_and_skips() {
    let entries = vec![
        ("a-b".to_string(), Some("y".to_string())),
        ("a.b".to_string(), Some("x".to_string())),
        ("a_b".to_string(), Some("%s".to_string())),
        ("bad".to_string(), None),
        ("hello world".to_string(), Some("z %1$s".to_string())),
        ("many".to_string(), Some("%s%s%s%s%s%s%s%s%s".to_string())),
    ];
    let plan = plan_translations(&entries);
    check_names_and_skips(&plan);
}

#[test]
fn plan_language_file_sorts_names_and_skips() {
    let json = r#"{"a.b":"x","a_b":"%s","bad":1,"many":"%s%s%s%s%s%s%s%s%s","a-b":"y","hello world":"z %1$s"}"#;
    let plan = plan_language_file(json).expect("a JSON object");
    check_names_and_skips(&plan);
}

#[test]
fn plan_language_file_reads_entries_in_key_order() {
    let json = r#"{"zeta":"last","alpha":"first %s","mid":[1,2],"nul":null,"obj":{"k":"v"}}"#;
    let plan = plan_language_file(json).expect("a JSON object");
    assert_eq!(plan.len(), 5);
    match &plan[0] {
        TranslationPlan::Constant { name, key, text, param_count } => {
            assert_eq!(name, "ALPHA");
            assert_eq!(key, "alpha");
            assert_eq!(text, "first %s");
            assert_eq!(*param_count, 1);
        }
        other => panic!("unexpected {:?}", other),
    }
    assert!(matches!(&plan[1], TranslationPlan::NotText { key } if key == "mid"));
    assert!(matches!(&plan[2], TranslationPlan::NotText { key } if key == "nul"));
    assert!(matches!(&plan[3], TranslationPlan::NotText { key } if key == "obj"));
    match &plan[4] {
        TranslationPlan::Constant { name, text, .. } => {
            assert_eq!(name, "ZETA");
            assert_eq!(text, "last");
        }
        other => panic!("unexpected {:?}", other),
    }
}

#[test]
fn plan_language_file_refuses_what_is_not_an_object() {
    assert!(plan_language_file("not json").is_none());
    assert!(plan_language_file("[1, 2]").is_none());
    assert!(plan_language_file("\"text\"").is_none());
    assert!(plan_language_file("{\"a\": ").is_none());
    assert!(plan_language_file("{}").expect("an empty object").is_empty());
}

#[test]
fn parameter_count_is_the_largest_referenced_index() {
    for text in ["%s %2$s %s %5$s", "%s %s %s", "%4$s only", "none", "%1$s%1$s%s%s"] {
        let n = count_parameters(text);
        let split = split_placeholders(text);
        let largest = split.iter().map(|(_, i)| *i).max().unwrap();
        assert_eq!(n, largest, "text {text:?}");
    }
}

#[test]
fn split_ends_with_index_zero_and_segments_are_free_of_placeholders() {
    for text in ["a %s b %3$s c", "%s%s", "x%%s", "%1$s"] {
        let split = split_placeholders(text);
        let (last, rest) = split.split_last().unwrap();
        assert_eq!(last.1, 0);
        assert!(rest.iter().all(|(_, i)| *i >= 1));
        for (seg, _) in &split {
            assert_eq!(split_placeholders(seg).len(), 1, "segment {seg:?}");
        }
    }
}

#[test]
fn colliding_names_are_numbered_in_decimal() {
    let keys = ["a b", "a!b", "a#b", "a+b", "a,b", "a-b", "a.b", "a/b", "a:b", "a;b", "a=b"];
    let entries: Vec<(String, Option<String>)> =
        keys.iter().map(|k| (k.to_string(), Some("t".to_string()))).collect();
    let plan = plan_translations(&entries);
    let names: Vec<String> = plan
        .iter()
        .map(|p| match p {
            TranslationPlan::Constant { name, .. } => name.clone(),
            other => panic!("unexpected {:?}", other),
        })
        .collect();
    assert_eq!(
        names,
        vec![
            "A_B", "A_B_1", "A_B_2", "A_B_3", "A_B_4", "A_B_5", "A_B_6", "A_B_7", "A_B_8", "A_B_9",
            "A_B_10"
        ]
    );
}
