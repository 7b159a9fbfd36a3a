use makinilya::files::Directory;
use makinilya::files::File;
use makinilya::files::PathItem;
use makinilya::story::Story;

fn text_file(name: &str, extension: Option<&str>, body: &str) -> PathItem {
    PathItem::new_file(File {
        name: name.to_owned(),
        content: body.as_bytes().to_vec(),
        extension: extension.map(|e| e.to_owned()),
    })
}

#[test]
fn accessors_reflect_pushes() {
    let mut story = Story::new("root");
    assert_eq!(story.title(), "root");
    assert!(story.parts().is_empty());
    assert!(story.contents().is_empty());

    story.push_content("scene one");
    story.push_part(Story::new("Chapter 1"));

    assert_eq!(story.contents(), &vec!["scene one".to_owned()]);
    assert_eq!(story.parts().len(), 1);
    assert_eq!(story.parts()[0].title(), "Chapter 1");
}

#[test]
fn mutable_accessors_reach_the_fields() {
    let mut story = Story::new("root");
    story.mut_contents().push("added directly".to_owned());
    assert_eq!(story.contents()[0], "added directly");

    story.mut_parts().push(Box::new(Story::new("inserted")));
    assert_eq!(story.parts()[0].title(), "inserted");
}

#[test]
fn parse_keeps_text_files_and_descends_directories() {
    let mut chapter = Directory::new("Chapter 1");
    chapter.push_item(text_file("Scene 1.mt", Some("mt"), "I am Scene #1."));
    chapter.push_item(text_file("Scene 2.mt", Some("mt"), "I am Scene #2."));
    chapter.push_item(text_file("notes.txt", Some("txt"), "ignored"));
    chapter.push_item(text_file("README", None, "ignored too"));

    let mut draft = Directory::new("draft");
    draft.push_item(PathItem::new_directory(chapter));
    draft.push_item(text_file("prologue.mt", Some("mt"), "Before it all."));

    let story = Story::parse(&draft);

    assert_eq!(story.title(), "draft");
    assert_eq!(story.contents(), &vec!["Before it all.".to_owned()]);
    assert_eq!(story.parts().len(), 1);
    let chapter_story = &story.parts()[0];
    assert_eq!(chapter_story.title(), "Chapter 1");
    assert_eq!(
        chapter_story.contents(),
        &vec!["I am Scene #1.".to_owned(), "I am Scene #2.".to_owned()]
    );
    assert!(chapter_story.parts().is_empty());
}

#[test]
fn parse_decodes_bytes_lossily() {
    let mut draft = Directory::new("draft");
    draft.push_item(PathItem::new_file(File {
        name: "scene.mt".to_owned(),
        content: vec![0x48, 0x69, 0xFF],
        extension: Some("mt".to_owned()),
    }));

    let story = Story::parse(&draft);
    assert_eq!(story.contents(), &vec!["Hi\u{FFFD}".to_owned()]);
}

#[test]
fn directory_accessors_work() {
    let mut directory = Directory::new("base");
    assert_eq!(directory.name(), "base");
    assert!(directory.contents().is_empty());

    directory.push_item(text_file("a.mt", Some("mt"), "a"));
    assert_eq!(directory.contents().len(), 1);
}
