use makinilya::builder::ManuscriptBuilder;
use makinilya::builder::ManuscriptBuilderLayout;
use makinilya::config::Config;
use makinilya::config::ContactInformation;
use makinilya::config::StoryConfig;
use makinilya::extensions::CloneOnSome;
use makinilya::extensions::WithThousandsSeparator;
use makinilya::story::Story;

#[test]
fn word_count_sums_contents_and_parts() {
    let mut story = Story::new("Root");

    let mut chapter_1 = Story::new("Chapter 1");
    chapter_1.push_content("I am Scene #1.");
    chapter_1.push_content("I am Scene #2.");
    story.push_part(chapter_1);
    story.push_content("Two  spaced\twords\nand more");

    assert_eq!(ManuscriptBuilder::word_count(&story), 4 + 4 + 5);
}

#[test]
fn word_count_of_empty_story_is_zero() {
    let story = Story::new("Root");
    assert_eq!(ManuscriptBuilder::word_count(&story), 0);
}

#[test]
fn builder_keeps_its_layout() {
    let builder = ManuscriptBuilder::new(ManuscriptBuilderLayout::default());
    assert_eq!(builder.layout.title, "Untitled");
    assert_eq!(builder.layout.pen_name, "Unknown Author");
    assert!(builder.layout.author_information.is_none());
    assert!(builder.layout.agent_information.is_none());
}

#[test]
fn layout_from_config_applies_fallbacks() {
    let config = Config::default();
    let layout = ManuscriptBuilderLayout::from_config(&config);
    assert_eq!(layout.title, "Untitled");
    assert_eq!(layout.pen_name, "Untitled");
    assert!(layout.author_information.is_none());

    let config = Config {
        story: Some(StoryConfig {
            title: Some("My Book".to_owned()),
            pen_name: None,
        }),
        project: None,
        author: Some(ContactInformation {
            name: Some("Brutus Ellis".to_owned()),
            address_1: None,
            address_2: None,
            mobile_number: None,
            email_address: None,
        }),
        agent: None,
    };
    let layout = ManuscriptBuilderLayout::from_config(&config);
    assert_eq!(layout.title, "My Book");
    assert_eq!(layout.pen_name, "Untitled");
    let author = layout.author_information.unwrap();
    assert_eq!(author.name.as_deref(), Some("Brutus Ellis"));
    assert!(author.address_1.is_none());
}

#[test]
fn thousands_separator_groups_from_the_right() {
    assert_eq!("".to_owned().with_thousands_separator(), "");
    assert_eq!("12".to_owned().with_thousands_separator(), "12");
    assert_eq!("123".to_owned().with_thousands_separator(), "123");
    assert_eq!("1234".to_owned().with_thousands_separator(), "1,234");
    assert_eq!("1234567".to_owned().with_thousands_separator(), "1,234,567");
}

#[test]
fn clone_on_some_prefers_the_value() {
    let value = "kept".to_owned();
    let some: Option<&String> = Some(&value);
    assert_eq!(some.clone_on_some("fallback".to_owned()), "kept");

    let none: Option<&String> = None;
    assert_eq!(none.clone_on_some("fallback".to_owned()), "fallback");
}
