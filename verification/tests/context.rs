use makinilya::context::Context;
use makinilya::context::Data;

#[test]
fn new_context_is_empty() {
    let context = Context::new();
    assert!(context.variables().is_empty());
}

#[test]
fn get_walks_nested_objects() {
    let context = Context {
        variables: vec![(
            "names".to_owned(),
            Data::Object(vec![
                ("mc".to_owned(), Data::String("Alyssa".to_owned())),
                ("sidekick".to_owned(), Data::String("Bert".to_owned())),
            ]),
        )],
    };

    let path = vec!["names".to_owned(), "sidekick".to_owned()];
    let found = context.get(&path);
    assert_eq!(found, Some(&Data::String("Bert".to_owned())));
}

#[test]
fn get_misses_on_absent_key() {
    let context = Context {
        variables: vec![("a".to_owned(), Data::Boolean(true))],
    };
    assert_eq!(context.get(&vec!["b".to_owned()]), None);
    assert_eq!(context.get(&vec!["a".to_owned(), "b".to_owned()]), None);
}

#[test]
fn get_with_exhausted_path_returns_the_value() {
    let context = Context {
        variables: vec![("flag".to_owned(), Data::Boolean(false))],
    };
    assert_eq!(context.get(&vec!["flag".to_owned()]), Some(&Data::Boolean(false)));
}

#[test]
fn render_covers_every_kind_of_value() {
    assert_eq!(Data::String("x".to_owned()).render(), "x");
    assert_eq!(Data::Number("3.25".to_owned()).render(), "3.25");
    assert_eq!(Data::Boolean(true).render(), "true");
    assert_eq!(Data::Boolean(false).render(), "false");
    assert_eq!(Data::Object(vec![]).render(), "[object]");
}
