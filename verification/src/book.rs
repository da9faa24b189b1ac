//! The book: its chapters in order, and the routes that pages are reached by.
//!
//! A route is a typed value, and its URL is a projection of it. A chapter is one path
//! segment, so that the space of routes is the front page and the flat set of pages;
//! nothing nested has an address.

use idyll_route::{decode_segment, encode_segment, split_path};
use vstd::prelude::*;

verus! {

// ---- path segments ----

/// What a path segment looks like in a URL.
pub uninterp spec fn encoded(segment: Seq<char>) -> Seq<char>;

/// The path segment that a part of a URL stands for, if it stands for one.
pub uninterp spec fn decoded(part: Seq<char>) -> Option<Seq<char>>;

/// A character that stands for itself in a URL.
pub open spec fn unreserved(c: char) -> bool {
    ||| 'a' <= c <= 'z'
    ||| 'A' <= c <= 'Z'
    ||| '0' <= c <= '9'
    ||| c == '-' || c == '_' || c == '.' || c == '~'
}

/// The non-empty parts of a path between its slashes.
pub open spec fn parts(path: Seq<char>) -> Seq<Seq<char>>
    decreases path.len(),
{
    if path.len() == 0 {
        Seq::empty()
    } else {
        let rest = parts(path.skip(1));
        if path[0] == '/' {
            rest
        } else if path.len() > 1 && path[1] != '/' {
            rest.update(0, seq![path[0]] + rest[0])
        } else {
            seq![seq![path[0]]] + rest
        }
    }
}

/// `encode_segment` of the idyll_route crate: percent-encodes a path segment. A slash does
/// not survive it, an empty segment stays empty and no other becomes empty, a segment of
/// unreserved characters is left as it is, and `decode_segment` gives the segment back.
pub assume_specification[ encode_segment ](seg: &str) -> (r: String)
    ensures
        r@ == encoded(seg@),
        !r@.contains('/'),
        r@.len() == 0 <==> seg@.len() == 0,
        (forall|i: int| 0 <= i < seg@.len() ==> unreserved(#[trigger] seg@[i])) ==> r@ == seg@,
        decoded(r@) == Some(seg@),
;

/// `decode_segment` of the idyll_route crate: percent-decodes a path segment, unless the
/// outcome is not valid text.
pub assume_specification[ decode_segment ](seg: &str) -> (r: Option<String>)
    ensures
        match r {
            Some(s) => decoded(seg@) == Some(s@),
            None => decoded(seg@) is None,
        },
;

/// `split_path` of the idyll_route crate: the parts of a path between its slashes, without
/// the empty ones.
pub assume_specification[ split_path ](path: &str) -> (r: Vec<&str>)
    ensures
        r@.len() == parts(path@).len(),
        forall|i: int| 0 <= i < r@.len() ==> (#[trigger] r@[i])@ == parts(path@)[i],
;

// ---- chapters ----

/// A chapter: its title, and the path of its page.
pub struct BookChapter {
    pub title: &'static str,
    pub path: &'static str,
}

impl View for BookChapter {
    type V = (Seq<char>, Seq<char>);

    /// Title and path.
    open spec fn view(&self) -> (Seq<char>, Seq<char>) {
        (self.title@, self.path@)
    }
}

/// Title and path of each chapter, in the order of the book.
pub open spec fn contents() -> Seq<(Seq<char>, Seq<char>)> {
    seq![
        ("Introduction"@, "intro"@),
        ("Modelling a server"@, "modelling_a_server"@),
        ("Rejecting requests"@, "rejecting_requests"@),
        ("Load balancing"@, "load_balancing"@),
        ("Rate limiting"@, "rate_limiting_and_auto_scaling"@),
        ("Other workloads"@, "other_workloads"@),
    ]
}

/// The chapters of the book, in order.
pub fn book() -> (chapters: Vec<BookChapter>)
    ensures
        chapters@.map_values(|c: BookChapter| c@) == contents(),
{
    let chapters = vec![
        BookChapter { title: "Introduction", path: "intro" },
        BookChapter { title: "Modelling a server", path: "modelling_a_server" },
        BookChapter { title: "Rejecting requests", path: "rejecting_requests" },
        BookChapter { title: "Load balancing", path: "load_balancing" },
        BookChapter { title: "Rate limiting", path: "rate_limiting_and_auto_scaling" },
        BookChapter { title: "Other workloads", path: "other_workloads" },
    ];
    assert(chapters@.map_values(|c: BookChapter| c@) =~= contents());
    chapters
}

// ---- routes ----

/// What a route leads to.
pub enum Page {
    Index,
    Doc(Seq<char>),
}

/// A route of the blog.
#[derive(Debug, PartialEq, Eq)]
pub enum BlogRoute {
    /// The front page, at `/`.
    Index,
    /// A page by slug, at `/` and the slug.
    Doc { slug: String },
}

impl View for BlogRoute {
    type V = Page;

    open spec fn view(&self) -> Page {
        match self {
            BlogRoute::Index => Page::Index,
            BlogRoute::Doc { slug } => Page::Doc(slug@),
        }
    }
}

impl Clone for BlogRoute {
    fn clone(&self) -> (route: Self)
        ensures
            route@ == self@,
    {
        match self {
            BlogRoute::Index => BlogRoute::Index,
            BlogRoute::Doc { slug } => BlogRoute::Doc { slug: slug.clone() },
        }
    }
}

/// What a request path leads to: the front page without any part, a page with one part that
/// stands for a segment, and nowhere otherwise.
pub open spec fn routed(path: Seq<char>) -> Option<Page> {
    let p = parts(path);
    if p.len() == 0 {
        Some(Page::Index)
    } else if p.len() == 1 {
        match decoded(p[0]) {
            Some(slug) => Some(Page::Doc(slug)),
            None => None,
        }
    } else {
        None
    }
}

impl BlogRoute {
    /// The route of the page at a book path.
    pub fn doc(path: &str) -> (route: BlogRoute)
        ensures
            route@ == Page::Doc(path@),
    {
        BlogRoute::Doc { slug: path.to_owned() }
    }

    /// The route of every chapter, in the order of the book.
    pub fn chapters() -> (routes: Vec<BlogRoute>)
        ensures
            routes@.len() == contents().len(),
            forall|i: int|
                0 <= i < routes@.len() ==> (#[trigger] routes@[i])@ == Page::Doc(contents()[i].1),
    {
        let chapters = book();
        let ghost views = chapters@.map_values(|c: BookChapter| c@);
        let mut routes: Vec<BlogRoute> = Vec::new();
        for i in 0..chapters.len()
            invariant
                views == chapters@.map_values(|c: BookChapter| c@),
                views == contents(),
                routes@.len() == i,
                forall|j: int|
                    0 <= j < i ==> (#[trigger] routes@[j])@ == Page::Doc(contents()[j].1),
        {
            assert(views[i as int] == chapters@[i as int]@);
            routes.push(BlogRoute::doc(chapters[i].path));
        }
        routes
    }

    /// The route that a request path leads to. Leading, trailing and doubled slashes do not
    /// matter.
    pub fn parse(path: &str) -> (route: Option<BlogRoute>)
        ensures
            match route {
                Some(r) => routed(path@) == Some(r@),
                None => routed(path@) is None,
            },
    {
        let found = split_path(path);
        if found.len() == 0 {
            Some(BlogRoute::Index)
        } else if found.len() == 1 {
            match decode_segment(found[0]) {
                Some(slug) => Some(BlogRoute::Doc { slug }),
                None => None,
            }
        } else {
            None
        }
    }

    /// The URL of a route. [`parse`](Self::parse) leads back from it to the route, whatever
    /// the slug. The one exception is an empty slug, whose URL is that of the front page.
    pub fn url(&self) -> (url: String)
        ensures
            url@ == match self@ {
                Page::Index => "/"@,
                Page::Doc(slug) => "/"@ + encoded(slug),
            },
            self@ != Page::Doc(Seq::empty()) ==> routed(url@) == Some(self@),
            self@ matches Page::Doc(slug) ==> (forall|i: int|
                0 <= i < slug.len() ==> unreserved(#[trigger] slug[i])) ==> url@ == "/"@ + slug,
    {
        proof {
            reveal_strlit("/");
        }
        let mut url = "/".to_owned();
        match self {
            BlogRoute::Index => {
                proof {
                    lemma_leading_slash(Seq::empty());
                    assert(seq!['/'] + Seq::<char>::empty() =~= seq!['/']);
                    assert(url@ =~= seq!['/']);
                }
            },
            BlogRoute::Doc { slug } => {
                let segment = encode_segment(slug.as_str());
                url.append(segment.as_str());
                proof {
                    assert(url@ =~= seq!['/'] + segment@);
                    lemma_leading_slash(segment@);
                    if segment@.len() > 0 {
                        lemma_one_part(segment@);
                    } else {
                        assert(slug@ =~= Seq::empty());
                    }
                }
            },
        }
        url
    }
}

proof fn lemma_leading_slash(path: Seq<char>)
    ensures
        parts(seq!['/'] + path) == parts(path),
{
    assert((seq!['/'] + path).skip(1) =~= path);
}

proof fn lemma_one_part(part: Seq<char>)
    requires
        part.len() > 0,
        !part.contains('/'),
    ensures
        parts(part) == seq![part],
    decreases part.len(),
{
    let rest = part.skip(1);
    assert(part[0] != '/') by {
        if part[0] == '/' {
            assert(part.contains('/'));
        }
    }
    if part.len() > 1 {
        assert(part[1] != '/') by {
            if part[1] == '/' {
                assert(part.contains('/'));
            }
        }
        assert(!rest.contains('/')) by {
            if rest.contains('/') {
                let i = choose|i: int| 0 <= i < rest.len() && rest[i] == '/';
                assert(part[i + 1] == '/');
            }
        }
        lemma_one_part(rest);
        assert(seq![part[0]] + rest =~= part);
        assert(parts(part) =~= seq![part]);
    } else {
        assert(parts(rest) =~= Seq::empty());
        assert(seq![part[0]] =~= part);
        assert(parts(part) =~= seq![part]);
    }
}

// ---- the table of contents ----

/// A line of the table of contents.
pub struct TocEntry {
    pub href: String,
    pub title: &'static str,
    pub num: usize,
}

/// The table of contents: the chapters in order, numbered from one, each with a link to its
/// page.
pub fn toc() -> (entries: Vec<TocEntry>)
    ensures
        entries@.len() == contents().len(),
        forall|i: int|
            0 <= i < entries@.len() ==> {
                let entry = #[trigger] entries@[i];
                &&& entry.title@ == contents()[i].0
                &&& entry.num == i + 1
                &&& entry.href@ == "/"@ + contents()[i].1
                &&& routed(entry.href@) == Some(Page::Doc(contents()[i].1))
            },
{
    let chapters = book();
    let ghost views = chapters@.map_values(|c: BookChapter| c@);
    let mut entries: Vec<TocEntry> = Vec::new();
    for i in 0..chapters.len()
        invariant
            views == chapters@.map_values(|c: BookChapter| c@),
            views == contents(),
            entries@.len() == i,
            forall|j: int|
                0 <= j < i ==> {
                    let entry = #[trigger] entries@[j];
                    &&& entry.title@ == contents()[j].0
                    &&& entry.num == j + 1
                    &&& entry.href@ == "/"@ + contents()[j].1
                    &&& routed(entry.href@) == Some(Page::Doc(contents()[j].1))
                },
    {
        assert(views[i as int] == chapters@[i as int]@);
        proof {
            law_chapter_paths_need_no_encoding(i as int);
        }
        let chapter = &chapters[i];
        let href = BlogRoute::doc(chapter.path).url();
        entries.push(TocEntry { href, title: chapter.title, num: i + 1 });
    }
    entries
}

// ---- laws ----

/// The path of every chapter is made of characters that stand for themselves in a URL, and
/// is not empty.
pub proof fn law_chapter_paths_need_no_encoding(i: int)
    requires
        0 <= i < contents().len(),
    ensures
        contents()[i].1.len() > 0,
        forall|k: int| 0 <= k < contents()[i].1.len() ==> unreserved(#[trigger] contents()[i].1[k]),
{
    reveal_strlit("intro");
    reveal_strlit("modelling_a_server");
    reveal_strlit("rejecting_requests");
    reveal_strlit("load_balancing");
    reveal_strlit("rate_limiting_and_auto_scaling");
    reveal_strlit("other_workloads");
}

/// A slash before a path does not matter.
pub proof fn law_a_leading_slash_does_not_matter(path: Seq<char>)
    ensures
        routed(seq!['/'] + path) == routed(path),
{
    lemma_leading_slash(path);
}

/// Nothing nested has an address: a path with more than one part leads nowhere.
pub proof fn law_nothing_nested_is_addressable(path: Seq<char>)
    requires
        parts(path).len() > 1,
    ensures
        routed(path) is None,
{
}

/// The parts of a path are what lies between its slashes, in order and to the letter: a path
/// cut at a slash has the parts of what is before it and then those of what is behind it, and
/// what has no slash in it is one part.
pub proof fn law_parts_lie_between_slashes(a: Seq<char>, b: Seq<char>)
    ensures
        parts(a + seq!['/'] + b) == parts(a) + parts(b),
        a.len() > 0 && !a.contains('/') ==> parts(a) == seq![a],
        a.len() == 0 ==> parts(a).len() == 0,
    decreases a.len(),
{
    if a.len() > 0 && !a.contains('/') {
        lemma_one_part(a);
    }
    let path = a + seq!['/'] + b;
    if a.len() == 0 {
        assert(path =~= seq!['/'] + b);
        lemma_leading_slash(b);
        assert(parts(a) + parts(b) =~= parts(b));
    } else {
        let rest = a.skip(1);
        law_parts_lie_between_slashes(rest, b);
        assert(path.skip(1) =~= rest + seq!['/'] + b);
        let head = parts(rest);
        if a[0] != '/' {
            if rest.len() == 0 {
                assert(path[1] == '/');
                assert(head =~= Seq::empty());
                assert(parts(path) =~= parts(a) + parts(b));
            } else if rest[0] == '/' {
                assert(path[1] == '/' && a[1] == '/');
                assert(parts(path) =~= parts(a) + parts(b));
            } else {
                assert(path[1] == a[1] && a[1] == rest[0]);
                lemma_first_part(rest);
                assert(parts(path) =~= parts(a) + parts(b));
            }
        }
    }
}

proof fn lemma_first_part(path: Seq<char>)
    requires
        path.len() > 0,
        path[0] != '/',
    ensures
        parts(path).len() > 0,
    decreases path.len(),
{
    if path.len() > 1 && path[1] != '/' {
        lemma_first_part(path.skip(1));
    }
}

/// A path without any part leads to the front page, one slash-free part leads to the page that
/// it stands for, or nowhere where it stands for none, and two parts lead nowhere. A slash at
/// either end changes nothing.
pub proof fn law_a_path_leads_where_its_one_part_says(a: Seq<char>, b: Seq<char>)
    ensures
        routed(Seq::empty()) == Some(Page::Index),
        a.len() > 0 && !a.contains('/') ==> routed(a) == match decoded(a) {
            Some(slug) => Some(Page::Doc(slug)),
            None => None,
        },
        a.len() > 0 && !a.contains('/') && b.len() > 0 && !b.contains('/') ==> routed(
            a + seq!['/'] + b,
        ) is None,
        routed(a + seq!['/']) == routed(a),
        routed(seq!['/'] + a) == routed(a),
        parts(a).len() == 0 ==> routed(a) == Some(Page::Index),
        parts(a).len() == 1 ==> routed(a) == match decoded(parts(a)[0]) {
            Some(slug) => Some(Page::Doc(slug)),
            None => None,
        },
        parts(a).len() > 1 ==> routed(a) is None,
{
    law_parts_lie_between_slashes(a, b);
    law_parts_lie_between_slashes(b, a);
    let none = Seq::<char>::empty();
    law_parts_lie_between_slashes(a, none);
    assert(a + seq!['/'] + none =~= a + seq!['/']);
    assert(parts(none) =~= Seq::empty());
    assert(parts(a) + parts(none) =~= parts(a));
    lemma_leading_slash(a);
}

/// A chapter is its title and its path, a route leads to the front page or to the page with
/// its slug.
pub proof fn law_routes_and_chapters_are_what_they_say(chapter: BookChapter, route: BlogRoute)
    ensures
        chapter@.0 == chapter.title@ && chapter@.1 == chapter.path@,
        route@ is Index <==> route is Index,
        route matches BlogRoute::Doc { slug } ==> route@ == Page::Doc(slug@),
{
}

/// The book has six chapters, which lead from the introduction to other workloads.
pub proof fn law_the_book_leads_from_the_introduction_to_other_workloads()
    ensures
        contents().len() == 6,
        contents()[0] == ("Introduction"@, "intro"@),
        contents()[1] == ("Modelling a server"@, "modelling_a_server"@),
        contents()[2] == ("Rejecting requests"@, "rejecting_requests"@),
        contents()[3] == ("Load balancing"@, "load_balancing"@),
        contents()[4] == ("Rate limiting"@, "rate_limiting_and_auto_scaling"@),
        contents()[5] == ("Other workloads"@, "other_workloads"@),
{
}

} // verus!
