//! Chapters and their addresses.

use taipei::book::{book, toc, BlogRoute};

#[test]
fn chapters_follow_the_book() {
    let routes = BlogRoute::chapters();
    let chapters = book();
    assert_eq!(routes.len(), 6);
    for (route, chapter) in routes.iter().zip(&chapters) {
        assert_eq!(*route, BlogRoute::doc(chapter.path));
    }
    assert_eq!(chapters[0].title, "Introduction");
    assert_eq!(chapters[4].path, "rate_limiting_and_auto_scaling");
}

#[test]
fn a_url_is_the_projection_of_its_route() {
    assert_eq!(BlogRoute::Index.url(), "/");
    assert_eq!(BlogRoute::doc("intro").url(), "/intro");
    assert_eq!(BlogRoute::doc("a b").url(), "/a%20b");
}

#[test]
fn routes_come_back_from_their_urls() {
    let mut routes = BlogRoute::chapters();
    routes.push(BlogRoute::Index);
    routes.push(BlogRoute::doc("a/b"));
    routes.push(BlogRoute::doc("100% größer?"));
    for route in routes {
        assert_eq!(BlogRoute::parse(&route.url()), Some(route.clone()));
    }
}

#[test]
fn an_empty_slug_has_the_address_of_the_front_page() {
    assert_eq!(BlogRoute::doc("").url(), "/");
    assert_eq!(BlogRoute::parse("/"), Some(BlogRoute::Index));
}

#[test]
fn paths_are_normalised_and_nothing_nested_is_addressable() {
    assert_eq!(BlogRoute::parse(""), Some(BlogRoute::Index));
    assert_eq!(BlogRoute::parse("//intro/"), Some(BlogRoute::doc("intro")));
    assert_eq!(BlogRoute::parse("intro"), Some(BlogRoute::doc("intro")));
    assert_eq!(BlogRoute::parse("/notes/private"), None);
    assert_eq!(BlogRoute::parse("/%FF"), None, "not valid text");
    assert_eq!(BlogRoute::parse("/a%2Fb"), Some(BlogRoute::doc("a/b")));
}

#[test]
fn the_table_of_contents_links_every_chapter() {
    let entries = toc();
    assert_eq!(entries.len(), 6);
    assert_eq!(entries[1].href, "/modelling_a_server");
    assert_eq!(entries[1].title, "Modelling a server");
    assert_eq!(entries[1].num, 2);
    for entry in &entries {
        assert!(BlogRoute::parse(&entry.href).is_some());
    }
}
