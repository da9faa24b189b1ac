//! The content index: the files of one flat directory, by slug.
//!
//! A directory is read once into a map. A request's path is then a key and never a path
//! into the file system: an unknown key is a plain miss, and nothing that a request says is
//! ever joined onto a path.

use vstd::hash_map::StringHashMap;
use vstd::prelude::*;

verus! {

/// A page of the book.
pub struct Doc {
    pub title: String,
    pub markdown: String,
}

impl View for Doc {
    type V = (Seq<char>, Seq<char>);

    /// Title and text.
    open spec fn view(&self) -> (Seq<char>, Seq<char>) {
        (self.title@, self.markdown@)
    }
}

// ---- titles ----

/// Where the first line of a text ends: at its line feed, or with the text.
pub open spec fn line_end(s: Seq<char>) -> int
    decreases s.len(),
{
    if s.len() == 0 || s[0] == '\n' { 0 } else { 1 + line_end(s.skip(1)) }
}

/// The first line of a text, without its line ending: a line feed, or a carriage return and
/// a line feed.
pub open spec fn first_line(s: Seq<char>) -> Seq<char> {
    let n = line_end(s);
    if 0 < n < s.len() && s[n - 1] == '\r' { s.take(n - 1) } else { s.take(n) }
}

/// A line that starts with the mark of a title.
pub open spec fn is_heading(line: Seq<char>) -> bool {
    line.len() >= 2 && line[0] == '#' && line[1] == ' '
}

/// A line without the title marks it starts with.
pub open spec fn unmarked(line: Seq<char>) -> Seq<char>
    decreases line.len(),
{
    if is_heading(line) { unmarked(line.skip(2)) } else { line }
}

/// The title of a text: its first heading.
pub open spec fn title_of(s: Seq<char>) -> Option<Seq<char>>
    decreases s.len(),
{
    if s.len() == 0 {
        None
    } else if is_heading(first_line(s)) {
        Some(unmarked(first_line(s)))
    } else if 0 <= line_end(s) < s.len() {
        title_of(s.skip(line_end(s) + 1))
    } else {
        None
    }
}

proof fn lemma_line_end(s: Seq<char>)
    ensures
        0 <= line_end(s) <= s.len(),
        line_end(s) < s.len() ==> s[line_end(s)] == '\n',
        forall|i: int| 0 <= i < line_end(s) ==> s[i] != '\n',
    decreases s.len(),
{
    if s.len() > 0 && s[0] != '\n' {
        let t = s.skip(1);
        lemma_line_end(t);
        assert forall|i: int| 0 <= i < line_end(s) implies s[i] != '\n' by {
            if i > 0 {
                assert(s[i] == t[i - 1]);
            }
        }
    }
}

/// The first line ends at the first line feed.
proof fn lemma_line_end_is(s: Seq<char>, n: int)
    requires
        0 <= n <= s.len(),
        n < s.len() ==> s[n] == '\n',
        forall|i: int| 0 <= i < n ==> s[i] != '\n',
    ensures
        line_end(s) == n,
{
    lemma_line_end(s);
}

/// The characters of a string.
fn chars_of(s: &str) -> (chars: Vec<char>)
    ensures
        chars@ == s@,
{
    let mut chars: Vec<char> = Vec::new();
    for c in it: s.chars()
        invariant
            chars@ == s@.take(it.index() as int),
            it.seq() == s@,
    {
        chars.push(c);
    }
    chars
}

/// The title of a text, if it has one.
pub fn extract_title(markdown: &str) -> (title: Option<String>)
    ensures
        match title {
            Some(t) => title_of(markdown@) == Some(t@),
            None => title_of(markdown@) is None,
        },
{
    let chars = chars_of(markdown);
    let mut start: usize = 0;
    assert(chars@.skip(0) =~= chars@);
    while start < chars.len()
        invariant
            chars@ == markdown@,
            start <= chars.len(),
            title_of(markdown@) == title_of(chars@.skip(start as int)),
        decreases chars.len() - start,
    {
        let ghost rest = chars@.skip(start as int);
        let mut end: usize = start;
        while end < chars.len() && chars[end] != '\n'
            invariant
                start <= end <= chars.len(),
                rest == chars@.skip(start as int),
                forall|i: int| 0 <= i < end - start ==> rest[i] != '\n',
            decreases chars.len() - end,
        {
            end = end + 1;
        }
        proof {
            lemma_line_end_is(rest, end - start);
        }
        let stop: usize = if start < end && end < chars.len() && chars[end - 1] == '\r' {
            end - 1
        } else {
            end
        };
        let ghost line = first_line(rest);
        assert(line =~= chars@.subrange(start as int, stop as int));
        if stop - start >= 2 && chars[start] == '#' && chars[start + 1] == ' ' {
            let mut from: usize = start;
            while stop - from >= 2 && chars[from] == '#' && chars[from + 1] == ' '
                invariant
                    start <= from <= stop <= chars.len(),
                    unmarked(line) == unmarked(chars@.subrange(from as int, stop as int)),
                decreases stop - from,
            {
                assert(chars@.subrange(from as int, stop as int).skip(2) =~= chars@.subrange(
                    from + 2,
                    stop as int,
                ));
                from = from + 2;
            }
            return Some(markdown.substring_char(from, stop).to_owned());
        }
        if end == chars.len() {
            return None;
        }
        assert(rest.skip(line_end(rest) + 1) =~= chars@.skip(end + 1));
        start = end + 1;
    }
    None
}

// ---- the index ----

/// The slug of a file: its name without the extension `md`. Files with another extension,
/// or with nothing before it, are no pages.
pub open spec fn slug_in(name: Seq<char>) -> Option<Seq<char>> {
    if name.len() > 3 && name.skip(name.len() - 3) == seq!['.', 'm', 'd'] {
        Some(name.take(name.len() - 3))
    } else {
        None
    }
}

/// The slug of the file called `name`, if it is a page.
pub fn slug_of(name: &str) -> (slug: Option<String>)
    ensures
        match slug {
            Some(s) => slug_in(name@) == Some(s@),
            None => slug_in(name@) is None,
        },
{
    let n: usize = name.unicode_len();
    if n <= 3 {
        return None;
    }
    let ghost tail = name@.skip(name@.len() - 3);
    if name.get_char(n - 3) == '.' && name.get_char(n - 2) == 'm' && name.get_char(n - 1) == 'd' {
        assert(tail =~= seq!['.', 'm', 'd']);
        assert(name@.subrange(0, n - 3) =~= name@.take(n - 3));
        Some(name.substring_char(0, n - 3).to_owned())
    } else {
        assert(tail[0] == name@[n - 3] && tail[1] == name@[n - 2] && tail[2] == name@[n - 1]);
        None
    }
}

/// The page for a text: titled by its first heading, or by its slug where it has none.
pub open spec fn page(slug: Seq<char>, markdown: Seq<char>) -> (Seq<char>, Seq<char>) {
    match title_of(markdown) {
        Some(title) => (title, markdown),
        None => (slug, markdown),
    }
}

/// Make a page of a text.
pub fn read_doc(slug: String, markdown: String) -> (doc: Doc)
    ensures
        doc@ == page(slug@, markdown@),
        doc.markdown@ == markdown@,
        doc.title@ == match title_of(markdown@) {
            Some(title) => title,
            None => slug@,
        },
{
    let title = match extract_title(markdown.as_str()) {
        Some(title) => title,
        None => slug,
    };
    Doc { title, markdown }
}

/// The index of some files, each given by name and text: a page for each file that is one,
/// by slug. Of files with the same slug the last one counts.
pub open spec fn indexed(files: Seq<(Seq<char>, Seq<char>)>) -> Map<
    Seq<char>,
    (Seq<char>, Seq<char>),
>
    decreases files.len(),
{
    if files.len() == 0 {
        Map::empty()
    } else {
        let before = indexed(files.drop_last());
        match slug_in(files.last().0) {
            Some(slug) => before.insert(slug, page(slug, files.last().1)),
            None => before,
        }
    }
}

/// Names and texts of files.
pub open spec fn listed(files: Seq<(String, String)>) -> Seq<(Seq<char>, Seq<char>)> {
    files.map_values(|f: (String, String)| (f.0@, f.1@))
}

/// The pages of a map by slug.
pub open spec fn pages(docs: Map<Seq<char>, Doc>) -> Map<Seq<char>, (Seq<char>, Seq<char>)> {
    docs.map_values(|d: Doc| d@)
}

/// Index the files of a flat directory.
fn scan_flat(files: Vec<(String, String)>) -> (docs: StringHashMap<Doc>)
    ensures
        pages(docs@) == indexed(listed(files@)),
{
    let mut docs: StringHashMap<Doc> = StringHashMap::new();
    assert(pages(docs@) =~= Map::empty());
    let ghost all = listed(files@);
    assert(all.take(0).len() == 0);
    let mut i: usize = 0;
    while i < files.len()
        invariant
            i <= files.len(),
            all == listed(files@),
            pages(docs@) == indexed(all.take(i as int)),
        decreases files.len() - i,
    {
        let ghost front = all.take(i + 1);
        assert(front.drop_last() =~= all.take(i as int));
        assert(front.last() == (files@[i as int].0@, files@[i as int].1@));
        let (name, text) = &files[i];
        if let Some(slug) = slug_of(name.as_str()) {
            let doc = read_doc(slug.clone(), text.clone());
            let ghost before = docs@;
            docs.insert(slug, doc);
            assert(pages(docs@) =~= pages(before).insert(slug@, doc@));
        }
        i = i + 1;
    }
    assert(all.take(i as int) =~= all);
    docs
}

/// The pages of a directory, by slug.
pub struct Content {
    docs: StringHashMap<Doc>,
}

impl View for Content {
    type V = Map<Seq<char>, (Seq<char>, Seq<char>)>;

    /// Title and text of each page, by slug.
    closed spec fn view(&self) -> Map<Seq<char>, (Seq<char>, Seq<char>)> {
        pages(self.docs@)
    }
}

impl Content {
    /// Index a directory, given as the names and texts of the files right in it.
    pub fn load(files: Vec<(String, String)>) -> (content: Self)
        ensures
            content@ == indexed(listed(files@)),
    {
        Content { docs: scan_flat(files) }
    }

    /// The page with this slug, if there is one.
    pub fn doc(&self, path: &str) -> (doc: Option<&Doc>)
        ensures
            match doc {
                Some(d) => self@.contains_key(path@) && d@ == self@[path@] && d.title@
                    == self@[path@].0 && d.markdown@ == self@[path@].1,
                None => !self@.contains_key(path@),
            },
    {
        self.docs.get(path)
    }
}

// ---- laws ----

/// File `i` is the page `slug`.
pub open spec fn holds_page(files: Seq<(Seq<char>, Seq<char>)>, i: int, slug: Seq<char>) -> bool {
    0 <= i < files.len() && slug_in(files[i].0) == Some(slug)
}

/// A slug finds a page exactly where some file of the directory has it.
pub proof fn law_pages_are_the_files_of_the_directory(
    files: Seq<(Seq<char>, Seq<char>)>,
    slug: Seq<char>,
)
    ensures
        indexed(files).contains_key(slug) <==> exists|i: int| holds_page(files, i, slug),
    decreases files.len(),
{
    if files.len() > 0 {
        let front = files.drop_last();
        law_pages_are_the_files_of_the_directory(front, slug);
        if exists|i: int| holds_page(front, i, slug) {
            let i = choose|i: int| holds_page(front, i, slug);
            assert(holds_page(files, i, slug));
        }
        if exists|i: int| holds_page(files, i, slug) {
            let i = choose|i: int| holds_page(files, i, slug);
            if i < front.len() {
                assert(holds_page(front, i, slug));
            }
        }
        if slug_in(files.last().0) == Some(slug) {
            assert(holds_page(files, files.len() - 1, slug));
        }
    }
}

/// Lookups cannot leave the directory: a key with a separator in it, which no file name has,
/// is a miss.
pub proof fn law_lookups_cannot_traverse(
    files: Seq<(Seq<char>, Seq<char>)>,
    key: Seq<char>,
    separator: char,
)
    requires
        forall|i: int| 0 <= i < files.len() ==> !(#[trigger] files[i]).0.contains(separator),
        key.contains(separator),
    ensures
        !indexed(files).contains_key(key),
{
    law_pages_are_the_files_of_the_directory(files, key);
    if exists|i: int| holds_page(files, i, key) {
        let i = choose|i: int| holds_page(files, i, key);
        let name = files[i].0;
        let k = choose|k: int| 0 <= k < key.len() && key[k] == separator;
        assert(name[k] == separator);
        assert(name.contains(separator));
    }
}

/// A page is titled by its first heading where it has one; the marks of the heading are not
/// part of the title.
pub proof fn law_titles_carry_no_mark(markdown: Seq<char>)
    ensures
        title_of(markdown) matches Some(title) ==> !is_heading(title),
    decreases markdown.len(),
{
    if markdown.len() > 0 {
        lemma_unmarked(first_line(markdown));
        lemma_line_end(markdown);
        if !is_heading(first_line(markdown)) && line_end(markdown) < markdown.len() {
            law_titles_carry_no_mark(markdown.skip(line_end(markdown) + 1));
        }
    }
}

/// A title is the whole rest of its heading's line, to the last character: whatever follows
/// the mark up to the end of the line, without the line ending.
pub proof fn law_a_title_is_the_rest_of_its_line(l: Seq<char>, rest: Seq<char>)
    requires
        !l.contains('\n'),
        !(l.len() >= 2 && l[0] == '#' && l[1] == ' '),
    ensures
        title_of(seq!['#', ' '] + l) == Some(l),
        l.len() == 0 || l.last() != '\r' ==> title_of(seq!['#', ' '] + l + seq!['\n'] + rest)
            == Some(l),
        title_of(seq!['#', ' '] + l + seq!['\r', '\n'] + rest) == Some(l),
{
    let line = seq!['#', ' '] + l;
    lemma_no_line_feed(l, line);
    let none = Seq::<char>::empty();
    lemma_titled_by(line, l, line, none);
    lemma_titled_by(line + seq!['\n'] + rest, l, line, seq!['\n'] + rest);
    lemma_titled_by(line + seq!['\r', '\n'] + rest, l, line, seq!['\r', '\n'] + rest);
}

/// A text that starts with the heading `line`, which ends with the text or at a line ending.
proof fn lemma_titled_by(s: Seq<char>, l: Seq<char>, line: Seq<char>, tail: Seq<char>)
    requires
        line == seq!['#', ' '] + l,
        !(l.len() >= 2 && l[0] == '#' && l[1] == ' '),
        forall|i: int| 0 <= i < line.len() ==> line[i] != '\n',
        s =~= line + tail,
    ensures
        tail.len() == 0 ==> title_of(s) == Some(l),
        tail.len() > 0 && tail[0] == '\n' && (l.len() == 0 || l.last() != '\r') ==> title_of(s)
            == Some(l),
        tail.len() > 1 && tail[0] == '\r' && tail[1] == '\n' ==> title_of(s) == Some(l),
{
    let n = line.len() as int;
    assert forall|i: int| 0 <= i < n implies s[i] == line[i] by {}
    assert(line.skip(2) =~= l);
    assert(unmarked(l) == l);
    assert(is_heading(line));
    assert(unmarked(line) == l);
    if tail.len() == 0 {
        lemma_line_end_is(s, n);
        assert(first_line(s) =~= line);
    } else if tail[0] == '\n' {
        assert(s[n] == tail[0]);
        lemma_line_end_is(s, n);
        if l.len() == 0 || l.last() != '\r' {
            assert(s[n - 1] != '\r') by {
                assert(s[n - 1] == line[n - 1]);
                if l.len() > 0 {
                    assert(line[n - 1] == l[l.len() - 1]);
                }
            }
            assert(first_line(s) =~= line);
        }
    } else if tail.len() > 1 && tail[0] == '\r' && tail[1] == '\n' {
        assert(s[n] == tail[0] && s[n + 1] == tail[1]);
        lemma_line_end_is(s, n + 1);
        assert(first_line(s) =~= line);
    }
}

proof fn lemma_no_line_feed(l: Seq<char>, line: Seq<char>)
    requires
        !l.contains('\n'),
        line == seq!['#', ' '] + l,
    ensures
        forall|i: int| 0 <= i < line.len() ==> line[i] != '\n',
{
    assert forall|i: int| 0 <= i < line.len() implies line[i] != '\n' by {
        if i >= 2 {
            assert(line[i] == l[i - 2]);
            assert(l.contains(l[i - 2]));
        }
    }
}

/// However many marks a heading starts with, its title is that of the heading with one fewer.
pub proof fn law_every_leading_mark_is_dropped(s: Seq<char>)
    requires
        s.len() >= 2,
        s[0] == '#',
        s[1] == ' ',
    ensures
        title_of(seq!['#', ' '] + s) == title_of(s),
        title_of(s) is Some,
{
    let t = seq!['#', ' '] + s;
    lemma_line_end(s);
    let n = line_end(s);
    assert forall|i: int| 0 <= i < n + 2 implies t[i] != '\n' by {
        if i >= 2 {
            assert(t[i] == s[i - 2]);
        }
    }
    lemma_line_end_is(t, n + 2);
    assert(n >= 2);
    assert(n < s.len() ==> t[n + 1] == s[n - 1]);
    assert(first_line(t).skip(2) =~= first_line(s));
}

/// A line that starts with no mark has no say in the title: what follows it decides, and a
/// text that is such a line alone has no title.
pub proof fn law_lines_without_a_mark_are_passed_over(l: Seq<char>, rest: Seq<char>)
    requires
        !l.contains('\n'),
        !(l.len() >= 2 && l[0] == '#' && l[1] == ' '),
    ensures
        title_of(l + seq!['\n'] + rest) == title_of(rest),
        title_of(l) is None,
        title_of(Seq::empty()) is None,
{
    let t = l + seq!['\n'] + rest;
    assert forall|i: int| 0 <= i < l.len() implies l[i] != '\n' && t[i] == l[i] by {
        assert(l.contains(l[i]));
    }
    lemma_line_end_is(t, l.len() as int);
    lemma_line_end_is(l, l.len() as int);
    assert(first_line(l) =~= l);
    assert(t.skip(l.len() as int + 1) =~= rest);
    let line = first_line(t);
    assert(line.len() >= 2 ==> line[0] == l[0] && line[1] == l[1]);
}

/// A page keeps its text to the letter, and is titled by what its text says or, where that
/// says nothing, by its slug.
pub proof fn law_a_page_keeps_its_text(slug: Seq<char>, markdown: Seq<char>)
    ensures
        page(slug, markdown).1 == markdown,
        title_of(markdown) is None ==> page(slug, markdown).0 == slug,
        title_of(markdown) matches Some(title) ==> page(slug, markdown).0 == title,
{
}

/// The slug of a page is its file's name without `.md`, to the letter; a name that does not
/// end so, or has nothing before it, is no page.
pub proof fn law_a_slug_is_the_name_without_its_extension(slug: Seq<char>, name: Seq<char>)
    ensures
        slug.len() > 0 ==> slug_in(slug + seq!['.', 'm', 'd']) == Some(slug),
        slug_in(name) matches Some(s) ==> s.len() > 0 && name == s + seq!['.', 'm', 'd'],
        slug_in(seq!['.', 'm', 'd']) is None,
{
    let full = slug + seq!['.', 'm', 'd'];
    assert(full.skip(full.len() - 3) =~= seq!['.', 'm', 'd']);
    assert(full.take(full.len() - 3) =~= slug);
    if let Some(s) = slug_in(name) {
        assert(name =~= s + name.skip(name.len() - 3));
    }
}

/// A directory is read as it is listed: every file, under its own name and with its own text.
pub proof fn law_files_are_read_as_listed(files: Seq<(String, String)>, i: int)
    requires
        0 <= i < files.len(),
    ensures
        listed(files).len() == files.len(),
        listed(files)[i].0 == files[i].0@,
        listed(files)[i].1 == files[i].1@,
{
}

/// A lookup finds the page of the file itself: of the files with a slug the last one, with
/// that file's own text and title, whatever other files there are.
pub proof fn law_a_lookup_finds_the_last_file_with_its_slug(
    files: Seq<(Seq<char>, Seq<char>)>,
    i: int,
    slug: Seq<char>,
)
    requires
        0 <= i < files.len(),
        slug.len() > 0,
        files[i].0 == slug + seq!['.', 'm', 'd'],
        forall|j: int| i < j < files.len() ==> (#[trigger] files[j]).0 != files[i].0,
    ensures
        indexed(files).contains_key(slug),
        indexed(files)[slug] == page(slug, files[i].1),
        indexed(files)[slug].1 == files[i].1,
    decreases files.len(),
{
    law_a_slug_is_the_name_without_its_extension(slug, files.last().0);
    if i < files.len() - 1 {
        let front = files.drop_last();
        assert(files[files.len() - 1].0 != files[i].0);
        assert forall|j: int| i < j < front.len() implies (#[trigger] front[j]).0 != front[i].0 by {
            assert(front[j] == files[j]);
        }
        law_a_lookup_finds_the_last_file_with_its_slug(front, i, slug);
    }
}

proof fn lemma_unmarked(line: Seq<char>)
    ensures
        !is_heading(unmarked(line)),
    decreases line.len(),
{
    if is_heading(line) {
        lemma_unmarked(line.skip(2));
    }
}

} // verus!
