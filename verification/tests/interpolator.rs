use makinilya::context::Context;
use makinilya::context::Data;
use makinilya::interpolator::StoryInterpolator;
use makinilya::story::Story;

fn object(entries: Vec<(&str, Data)>) -> Data {
    Data::Object(
        entries
            .into_iter()
            .map(|(k, v)| (k.to_owned(), v))
            .collect(),
    )
}

fn context_with(entries: Vec<(&str, Data)>) -> Context {
    Context {
        variables: entries
            .into_iter()
            .map(|(k, v)| (k.to_owned(), v))
            .collect(),
    }
}

#[test]
fn check_works() {
    let mut story = Story::new("root");
    story.push_content("{{ variable1 }} separator {{ variable2 }}");

    let result = StoryInterpolator::check(&story);

    assert!(result.is_ok());
    assert_eq!(result.unwrap(), vec!["variable1", "variable2"]);
}

#[test]
fn literal_scene_is_returned_unchanged() {
    let mut story = Story::new("root");
    story.push_content("No placeholders here.\nTwo lines even.");

    let empty = Context::new();
    let resolved = StoryInterpolator::interpolate(&story, &empty).unwrap();
    assert_eq!(
        resolved.contents()[0],
        "No placeholders here.\nTwo lines even."
    );

    let full = context_with(vec![("x", Data::String("y".to_owned()))]);
    let resolved = StoryInterpolator::interpolate(&story, &full).unwrap();
    assert_eq!(
        resolved.contents()[0],
        "No placeholders here.\nTwo lines even."
    );
}

#[test]
fn empty_context_strips_placeholders() {
    let mut story = Story::new("root");
    story.push_content("{{ a }}text{{ b.c }} tail");

    let resolved = StoryInterpolator::interpolate(&story, &Context::new()).unwrap();
    assert_eq!(resolved.contents()[0], "text tail");
}

#[test]
fn nested_resolution() {
    let mut story = Story::new("root");
    story.push_content("Hi, {{ names.mc }}.");

    let context = context_with(vec![(
        "names",
        object(vec![("mc", Data::String("Core".to_owned()))]),
    )]);

    let resolved = StoryInterpolator::interpolate(&story, &context).unwrap();
    assert_eq!(resolved.contents()[0], "Hi, Core.");
}

#[test]
fn missing_path_resolves_to_empty() {
    let mut story = Story::new("root");
    story.push_content("{{ a.b.c }}");

    let resolved = StoryInterpolator::interpolate(&story, &Context::new()).unwrap();
    assert_eq!(resolved.contents()[0], "");

    let listed = StoryInterpolator::check(&story).unwrap();
    assert_eq!(listed, vec!["a.b.c"]);
}

#[test]
fn non_object_midway_resolves_to_empty() {
    let mut story = Story::new("root");
    story.push_content("[{{ a.b }}]");

    let context = context_with(vec![("a", Data::String("plain".to_owned()))]);
    let resolved = StoryInterpolator::interpolate(&story, &context).unwrap();
    assert_eq!(resolved.contents()[0], "[]");
}

#[test]
fn scalar_values_render_into_text() {
    let mut story = Story::new("root");
    story.push_content("{{ s }}|{{ n }}|{{ t }}|{{ f }}|{{ o }}");

    let context = context_with(vec![
        ("s", Data::String("str".to_owned())),
        ("n", Data::Number("1.5".to_owned())),
        ("t", Data::Boolean(true)),
        ("f", Data::Boolean(false)),
        ("o", object(vec![])),
    ]);

    let resolved = StoryInterpolator::interpolate(&story, &context).unwrap();
    assert_eq!(resolved.contents()[0], "str|1.5|true|false|[object]");
}

#[test]
fn check_lists_every_placeholder_in_order() {
    let mut story = Story::new("root");
    story.push_content("{{ one }} and {{ two }}");
    story.push_content("literal only");

    let mut chapter = Story::new("Chapter 1");
    chapter.push_content("{{ two }} again, then {{ three.deep }}");
    story.push_part(chapter);

    let listed = StoryInterpolator::check(&story).unwrap();
    assert_eq!(listed, vec!["one", "two", "two", "three.deep"]);
    assert_eq!(listed.len(), 4);
}

#[test]
fn interpolation_preserves_tree_shape() {
    let mut story = Story::new("root");
    story.push_content("intro {{ x }}");

    let mut act_one = Story::new("Act 1");
    act_one.push_content("{{ x }} scene");
    act_one.push_content("another scene");

    let mut nested = Story::new("Act 1, Scene 3");
    nested.push_content("deep {{ y }}");
    act_one.push_part(nested);

    story.push_part(act_one);
    story.push_part(Story::new("Act 2"));

    let context = context_with(vec![("x", Data::String("X".to_owned()))]);
    let resolved = StoryInterpolator::interpolate(&story, &context).unwrap();

    assert_eq!(resolved.title(), "root");
    assert_eq!(resolved.contents().len(), 1);
    assert_eq!(resolved.parts().len(), 2);
    let act_one_out = &resolved.parts()[0];
    assert_eq!(act_one_out.title(), "Act 1");
    assert_eq!(act_one_out.contents().len(), 2);
    assert_eq!(act_one_out.parts().len(), 1);
    assert_eq!(act_one_out.parts()[0].title(), "Act 1, Scene 3");
    let act_two_out = &resolved.parts()[1];
    assert_eq!(act_two_out.title(), "Act 2");
    assert_eq!(act_two_out.contents().len(), 0);
    assert_eq!(act_two_out.parts().len(), 0);

    assert_eq!(act_one_out.contents()[0], "X scene");
    assert_eq!(act_one_out.parts()[0].contents()[0], "deep ");
}

#[test]
fn one_malformed_scene_fails_the_whole_walk() {
    let mut story = Story::new("root");
    story.push_content("fine {{ a }}");

    let mut middle = Story::new("middle");
    let mut deep = Story::new("deep");
    deep.push_content("broken {{ 32 }}");
    middle.push_part(deep);
    story.push_part(middle);
    story.push_part(Story::new("well-formed sibling"));

    assert!(StoryInterpolator::interpolate(&story, &Context::new()).is_err());
    assert!(StoryInterpolator::check(&story).is_err());
}

#[test]
fn empty_part_contributes_nothing() {
    let mut story = Story::new("root");
    story.push_part(Story::new("empty chapter"));

    let listed = StoryInterpolator::check(&story).unwrap();
    assert!(listed.is_empty());

    let resolved = StoryInterpolator::interpolate(&story, &Context::new()).unwrap();
    assert_eq!(resolved.parts().len(), 1);
    assert!(resolved.parts()[0].contents().is_empty());
}
