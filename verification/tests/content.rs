//! The content index.

use taipei::content::{extract_title, read_doc, slug_of, Content};

fn files(entries: &[(&str, &str)]) -> Vec<(String, String)> {
    entries.iter().map(|(name, text)| (name.to_string(), text.to_string())).collect()
}

#[test]
fn content_indexes_files_and_lookups_cannot_traverse() {
    // A directory with one page and a subdirectory: only the files right in it are read.
    let content = Content::load(files(&[("intro.md", "# Intro\ndoc")]));

    // Requests are pure map lookups.
    assert_eq!(content.doc("intro").unwrap().title, "Intro");
    assert_eq!(content.doc("intro").unwrap().markdown, "# Intro\ndoc");

    // A file in a subdirectory is not a chapter.
    assert!(content.doc("notes/private").is_none());
    assert!(content.doc("private").is_none());

    // A traversal-shaped key is just a miss.
    assert!(content.doc("../secret").is_none());
}

#[test]
fn a_page_without_a_heading_is_titled_by_its_slug() {
    let content = Content::load(files(&[
        ("plain.md", "no heading"),
        ("notes.txt", "# Not a page"),
        ("plain.md", "second thoughts"),
    ]));
    assert_eq!(content.doc("plain").unwrap().title, "plain");
    assert_eq!(content.doc("plain").unwrap().markdown, "second thoughts");
    assert!(content.doc("notes").is_none());
    let doc = read_doc("slug".to_string(), "text\n# Title".to_string());
    assert_eq!((doc.title.as_str(), doc.markdown.as_str()), ("Title", "text\n# Title"));
}

#[test]
fn slugs_are_file_names_without_their_extension() {
    assert_eq!(slug_of("intro.md").as_deref(), Some("intro"));
    assert_eq!(slug_of("a.b.md").as_deref(), Some("a.b"));
    assert_eq!(slug_of("..md").as_deref(), Some("."));
    assert_eq!(slug_of("größe.md").as_deref(), Some("größe"));
    for name in [".md", "md", "", "intro", "intro.MD", "intro.mdx", "introXmd"] {
        assert_eq!(slug_of(name), None, "{name}");
    }
}

#[test]
fn titles_are_first_headings() {
    let title = |s| extract_title(s);
    assert_eq!(title("# Intro\ndoc").as_deref(), Some("Intro"));
    assert_eq!(title("text\n\n## Sub\n# Top\n# Next").as_deref(), Some("Top"));
    assert_eq!(title("# # Twice").as_deref(), Some("Twice"));
    assert_eq!(title("# Windows\r\nrest").as_deref(), Some("Windows"));
    assert_eq!(title("# Bare\r").as_deref(), Some("Bare\r"));
    assert_eq!(title("# ").as_deref(), Some(""));
    assert_eq!(title("# \r\n").as_deref(), Some(""));
    assert_eq!(title("# Größe").as_deref(), Some("Größe"));
    for none in ["", "\n\n", "#", "#Intro", " # Intro", "#\tIntro", "text"] {
        assert_eq!(title(none), None, "{none:?}");
    }
}

#[test]
fn titles_agree_with_the_lines_of_the_text() {
    let texts = ["# a", "x\r\n# b\r\n", "\r\n# c\n\n", "a\rb\n# d\r", "#\n# e", "# # # f\r\n"];
    for text in texts {
        let expected = text
            .lines()
            .find(|l| l.starts_with("# "))
            .map(|l| l.trim_start_matches("# ").to_string());
        assert_eq!(extract_title(text), expected, "{text:?}");
    }
}
