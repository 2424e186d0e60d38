//! Markdown documents with a frontmatter header:
//!
//! ```text
//! ---
//! title: Hello
//! tags: rust, web
//! ---
//! Body
//! ```
use vstd::prelude::*;
use crate::text::{chars_of, occurs_at, occurs_at_exec, push_all, string_from_chars, string_of, trim_end, trim_end_spec, whitespace, is_whitespace};
use crate::value::{lemma_shows_texts_insert, shows_texts, text_insert, State, TinyLangType};

verus! {

// ---------------------------------------------------------------------------
// Lines and trimming
// ---------------------------------------------------------------------------

/// The pieces of `s` between occurrences of `sep`, as `str::split(sep)`
/// gives them (an empty text has one empty piece).
pub open spec fn split_on(s: Seq<char>, sep: char) -> Seq<Seq<char>>
    decreases s.len(),
{
    if s.len() == 0 {
        seq![Seq::<char>::empty()]
    } else {
        let init = split_on(s.drop_last(), sep);
        if s.last() == sep {
            init.push(Seq::<char>::empty())
        } else {
            init.update(init.len() - 1, init.last().push(s.last()))
        }
    }
}

/// The lines of `s`.
pub open spec fn lines(s: Seq<char>) -> Seq<Seq<char>> {
    split_on(s, '\n')
}

proof fn lemma_split_nonempty(s: Seq<char>, sep: char)
    ensures
        split_on(s, sep).len() >= 1,
    decreases s.len(),
{
    if s.len() > 0 {
        lemma_split_nonempty(s.drop_last(), sep);
    }
}

/// The texts of a list of character vectors.
pub open spec fn line_texts(ls: Seq<Vec<char>>) -> Seq<Seq<char>> {
    ls.map_values(|l: Vec<char>| l@)
}

/// Splits `s` at each occurrence of `sep`.
pub fn split_chars(s: &Vec<char>, sep: char) -> (res: Vec<Vec<char>>)
    ensures
        line_texts(res@) == split_on(s@, sep),
{
    let mut done: Vec<Vec<char>> = Vec::new();
    let mut cur: Vec<char> = Vec::new();
    let mut i: usize = 0;
    assert(s@.take(0) =~= Seq::<char>::empty());
    assert(line_texts(done@).push(cur@) =~= split_on(s@.take(0), sep));
    while i < s.len()
        invariant
            i <= s@.len(),
            line_texts(done@).push(cur@) == split_on(s@.take(i as int), sep),
        decreases s@.len() - i,
    {
        proof {
            lemma_split_nonempty(s@.take(i as int), sep);
        }
        let ghost before = line_texts(done@).push(cur@);
        assert(s@.take(i + 1).drop_last() =~= s@.take(i as int));
        if s[i] == sep {
            let finished = cur;
            done.push(finished);
            cur = Vec::new();
            assert(line_texts(done@).push(cur@) =~= before.push(Seq::<char>::empty()));
        } else {
            cur.push(s[i]);
            assert(line_texts(done@).push(cur@) =~= before.update(before.len() - 1, before.last().push(s@[i as int])));
        }
        i = i + 1;
    }
    assert(s@.take(s@.len() as int) =~= s@);
    done.push(cur);
    assert(line_texts(done@) =~= split_on(s@, sep));
    done
}

/// `s` without its leading whitespace.
pub open spec fn trim_start_spec(s: Seq<char>) -> Seq<char>
    decreases s.len(),
{
    if s.len() > 0 && whitespace(s[0]) {
        trim_start_spec(s.drop_first())
    } else {
        s
    }
}

/// `s` without whitespace at either end, as std's `str::trim` gives it.
pub open spec fn trim_spec(s: Seq<char>) -> Seq<char> {
    trim_start_spec(trim_end_spec(s))
}

/// Removes leading whitespace.
pub fn trim_start(s: &Vec<char>) -> (res: Vec<char>)
    ensures
        res@ == trim_start_spec(s@),
{
    let mut start: usize = 0;
    assert(s@.skip(0) =~= s@);
    while start < s.len() && is_whitespace(s[start])
        invariant
            start <= s@.len(),
            trim_start_spec(s@) == trim_start_spec(s@.skip(start as int)),
        decreases s@.len() - start,
    {
        assert(s@.skip(start as int).drop_first() =~= s@.skip(start + 1));
        start = start + 1;
    }
    let mut out: Vec<char> = Vec::new();
    let mut i: usize = start;
    while i < s.len()
        invariant
            start <= i <= s@.len(),
            out@ == s@.subrange(start as int, i as int),
        decreases s@.len() - i,
    {
        out.push(s[i]);
        i = i + 1;
        assert(out@ =~= s@.subrange(start as int, i as int));
    }
    assert(out@ =~= s@.skip(start as int));
    out
}

/// Removes whitespace at both ends.
pub fn trim(s: &Vec<char>) -> (res: Vec<char>)
    ensures
        res@ == trim_spec(s@),
{
    let t = trim_end(s);
    trim_start(&t)
}

// ---------------------------------------------------------------------------
// Frontmatter
// ---------------------------------------------------------------------------

/// Where the first colon of `line` is, at or after `from`.
pub open spec fn colon_from(line: Seq<char>, from: int) -> Option<int>
    decreases line.len() - from,
{
    if from < 0 || from >= line.len() {
        None
    } else if line[from] == ':' {
        Some(from)
    } else {
        colon_from(line, from + 1)
    }
}

/// A header line `key: value`: the text before its first colon and the text
/// after it, both trimmed; lines without a colon declare nothing.
pub open spec fn meta_entry(line: Seq<char>) -> Option<(Seq<char>, Seq<char>)> {
    match colon_from(line, 0) {
        Some(p) => Some((trim_spec(line.take(p)), trim_spec(line.skip(p + 1)))),
        None => None,
    }
}

/// The entries the header lines declare, in order.
pub open spec fn meta_entries(ls: Seq<Seq<char>>) -> Seq<(Seq<char>, Seq<char>)>
    decreases ls.len(),
{
    if ls.len() == 0 {
        Seq::empty()
    } else {
        let init = meta_entries(ls.drop_last());
        match meta_entry(ls.last()) {
            Some(e) => init.push(e),
            None => init,
        }
    }
}

/// The header closes at `e`: a line feed there is followed by `---`, then a
/// line feed or the end of the text.
pub open spec fn closes_at(s: Seq<char>, e: int) -> bool {
    &&& e >= 3
    &&& occurs_at(s, e, "\n---"@)
    &&& (e + 4 == s.len() || s[e + 4] == '\n')
}

/// The first place at or after `from` where the header closes.
pub open spec fn first_close(s: Seq<char>, from: int) -> Option<int>
    decreases s.len() - from,
{
    if from < 0 || from >= s.len() {
        None
    } else if closes_at(s, from) {
        Some(from)
    } else {
        first_close(s, from + 1)
    }
}

/// The text opens with a `---` line.
pub open spec fn has_frontmatter(s: Seq<char>) -> bool {
    occurs_at(s, 0, "---\n"@)
}

/// The frontmatter entries and the body of a document's text: without a
/// leading `---` line there are no entries and the body is the whole text;
/// a header that is never closed is refused.
pub open spec fn parse_document(s: Seq<char>) -> Option<(Seq<(Seq<char>, Seq<char>)>, Seq<char>)> {
    if !has_frontmatter(s) {
        Some((Seq::empty(), s))
    } else {
        match first_close(s, 3) {
            Some(e) => {
                let header = if e > 4 {
                    s.subrange(4, e)
                } else {
                    Seq::<char>::empty()
                };
                let body = if e + 5 <= s.len() {
                    s.skip(e + 5)
                } else {
                    Seq::<char>::empty()
                };
                Some((meta_entries(lines(header)), body))
            },
            None => None,
        }
    }
}

fn find_colon(line: &Vec<char>) -> (res: Option<usize>)
    ensures
        match res {
            Some(p) => colon_from(line@, 0) == Some(p as int) && p < line@.len(),
            None => colon_from(line@, 0) is None,
        },
{
    let mut i: usize = 0;
    while i < line.len()
        invariant
            i <= line@.len(),
            colon_from(line@, 0) == colon_from(line@, i as int),
        decreases line@.len() - i,
    {
        if line[i] == ':' {
            return Some(i);
        }
        i = i + 1;
    }
    None
}

fn parse_meta_line(line: &Vec<char>) -> (res: Option<(Vec<char>, Vec<char>)>)
    ensures
        match res {
            Some(e) => meta_entry(line@) == Some((e.0@, e.1@)),
            None => meta_entry(line@) is None,
        },
{
    match find_colon(line) {
        Some(p) => {
            let mut before: Vec<char> = Vec::new();
            let mut after: Vec<char> = Vec::new();
            let mut i: usize = 0;
            while i < line.len()
                invariant
                    p < line@.len(),
                    i <= line@.len(),
                    i <= p ==> before@ == line@.take(i as int) && after@.len() == 0,
                    i > p ==> before@ == line@.take(p as int) && after@ == line@.subrange(p + 1, i as int),
                decreases line@.len() - i,
            {
                if i < p {
                    before.push(line[i]);
                    assert(before@ =~= line@.take(i + 1));
                } else if i > p {
                    after.push(line[i]);
                    assert(after@ =~= line@.subrange(p + 1, i + 1));
                } else {
                    assert(after@ =~= line@.subrange(p + 1, i + 1));
                }
                i = i + 1;
            }
            assert(line@.subrange(p + 1, line@.len() as int) =~= line@.skip(p + 1));
            let key = trim(&before);
            let value = trim(&after);
            Some((key, value))
        },
        None => None,
    }
}

fn find_close(s: &Vec<char>) -> (res: Option<usize>)
    ensures
        match res {
            Some(e) => first_close(s@, 3) == Some(e as int) && closes_at(s@, e as int),
            None => first_close(s@, 3) is None,
        },
{
    let marker = chars_of("\n---");
    proof {
        reveal_strlit("\n---");
    }
    let mut e: usize = 3;
    while e < s.len()
        invariant
            3 <= e,
            marker@ == "\n---"@,
            marker@.len() == 4,
            first_close(s@, 3) == first_close(s@, e as int),
        decreases s@.len() - e,
    {
        if occurs_at_exec(s, e, &marker) && (e + 4 == s.len() || s[e + 4] == '\n') {
            return Some(e);
        }
        e = e + 1;
    }
    None
}

/// The frontmatter entries and the body of a document's text.
pub fn parse_frontmatter(s: &Vec<char>) -> (res: Option<(Vec<(Vec<char>, Vec<char>)>, Vec<char>)>)
    ensures
        match res {
            Some(r) => parse_document(s@) == Some((meta_view(r.0@), r.1@)),
            None => parse_document(s@) is None,
        },
{
    let opening = chars_of("---\n");
    if !occurs_at_exec(s, 0, &opening) {
        let mut body: Vec<char> = Vec::new();
        push_all(&mut body, s);
        let none: Vec<(Vec<char>, Vec<char>)> = Vec::new();
        assert(meta_view(none@) =~= Seq::<(Seq<char>, Seq<char>)>::empty());
        return Some((none, body));
    }
    let e = match find_close(s) {
        Some(e) => e,
        None => return None,
    };
    proof {
        reveal_strlit("\n---");
    }
    let mut header: Vec<char> = Vec::new();
    let mut i: usize = 4;
    while i < e
        invariant
            e <= s@.len(),
            4 <= i,
            e >= 4 ==> i <= e,
            i <= e ==> header@ == s@.subrange(4, i as int),
            i > e ==> header@.len() == 0,
        decreases e - i,
    {
        header.push(s[i]);
        i = i + 1;
        assert(header@ =~= s@.subrange(4, i as int));
    }
    if e <= 4 {
        assert(header@ =~= Seq::<char>::empty());
    }
    let mut body: Vec<char> = Vec::new();
    let len = s.len();
    assert(e + 4 <= len);
    if e + 4 < len {
        let mut j: usize = e + 5;
        while j < s.len()
            invariant
                e + 5 <= j <= s@.len(),
                body@ == s@.subrange(e + 5, j as int),
            decreases s@.len() - j,
        {
            body.push(s[j]);
            j = j + 1;
            assert(body@ =~= s@.subrange(e + 5, j as int));
        }
        assert(body@ =~= s@.skip(e + 5));
    }
    let ls = split_chars(&header, '\n');
    let mut entries: Vec<(Vec<char>, Vec<char>)> = Vec::new();
    let n = ls.len();
    for k in 0..n
        invariant
            n == ls@.len(),
            line_texts(ls@) == lines(header@),
            meta_view(entries@) == meta_entries(line_texts(ls@).take(k as int)),
    {
        assert(line_texts(ls@).take(k + 1).drop_last() =~= line_texts(ls@).take(k as int));
        match parse_meta_line(&ls[k]) {
            Some(entry) => {
                let ghost before = meta_view(entries@);
                let ghost added = (entry.0@, entry.1@);
                entries.push(entry);
                assert(meta_view(entries@) =~= before.push(added));
            },
            None => {},
        }
    }
    assert(line_texts(ls@).take(n as int) =~= line_texts(ls@));
    assert(header@ == (if e > 4 { s@.subrange(4, e as int) } else { Seq::<char>::empty() }));
    assert(body@ == (if e + 5 <= s@.len() { s@.skip(e + 5) } else { Seq::<char>::empty() }));
    Some((entries, body))
}

/// Frontmatter entries with their keys and values as text.
pub open spec fn meta_view(entries: Seq<(Vec<char>, Vec<char>)>) -> Seq<(Seq<char>, Seq<char>)> {
    entries.map_values(|e: (Vec<char>, Vec<char>)| (e.0@, e.1@))
}

// ---------------------------------------------------------------------------
// Collections
// ---------------------------------------------------------------------------

/// std's `PathBuf`, carried through as an opaque value.
#[verifier::external_type_specification]
#[verifier::external_body]
pub struct ExPathBuf(std::path::PathBuf);

/// The documents of one markdown folder.
pub struct MarkdownCollection {
    pub folder: std::path::PathBuf,
    pub collection: Vec<MarkdownDocument>,
}

impl MarkdownCollection {
    /// An empty collection for `folder`.
    pub fn new(folder: std::path::PathBuf) -> (res: MarkdownCollection)
        ensures
            res.folder == folder,
            res.collection@.len() == 0,
    {
        MarkdownCollection { folder, collection: Vec::new() }
    }
}

// ---------------------------------------------------------------------------
// Documents
// ---------------------------------------------------------------------------

/// A markdown document: where it comes from and goes to, its frontmatter
/// entries in order, and its body.
pub struct MarkdownDocument {
    pub file_name: String,
    pub uri: String,
    pub metadata: Vec<(String, String)>,
    pub content: String,
}

/// What a document holds, as text.
pub struct DocView {
    pub file_name: Seq<char>,
    pub uri: Seq<char>,
    pub metadata: Seq<(Seq<char>, Seq<char>)>,
    pub content: Seq<char>,
}

/// Frontmatter entries held as strings, as text.
pub open spec fn string_pairs(m: Seq<(String, String)>) -> Seq<(Seq<char>, Seq<char>)> {
    m.map_values(|e: (String, String)| (e.0@, e.1@))
}

impl View for MarkdownDocument {
    type V = DocView;

    open spec fn view(&self) -> DocView {
        DocView {
            file_name: self.file_name@,
            uri: self.uri@,
            metadata: string_pairs(self.metadata@),
            content: self.content@,
        }
    }
}

/// The value of the last frontmatter entry for `key`.
pub open spec fn meta_value(m: Seq<(Seq<char>, Seq<char>)>, key: Seq<char>) -> Option<Seq<char>>
    decreases m.len(),
{
    if m.len() == 0 {
        None
    } else if m.last().0 == key {
        Some(m.last().1)
    } else {
        meta_value(m.drop_last(), key)
    }
}

/// `t` without one pair of surrounding square brackets.
pub open spec fn unbracket(t: Seq<char>) -> Seq<char> {
    if t.len() >= 2 && t[0] == '[' && t.last() == ']' {
        t.subrange(1, t.len() - 1)
    } else {
        t
    }
}

/// The pieces, trimmed, without the empty ones.
pub open spec fn kept_pieces(ps: Seq<Seq<char>>) -> Seq<Seq<char>>
    decreases ps.len(),
{
    if ps.len() == 0 {
        Seq::empty()
    } else {
        let init = kept_pieces(ps.drop_last());
        let t = trim_spec(ps.last());
        if t.len() > 0 {
            init.push(t)
        } else {
            init
        }
    }
}

/// The tag names a `tags` value lists: comma-separated, optionally inside
/// square brackets, each trimmed, empty ones dropped.
pub open spec fn tag_names(v: Seq<char>) -> Seq<Seq<char>> {
    kept_pieces(split_on(unbracket(trim_spec(v)), ','))
}

/// The tags a document declares, in order.
pub open spec fn doc_tags(d: DocView) -> Seq<Seq<char>> {
    match meta_value(d.metadata, "tags"@) {
        Some(v) => tag_names(v),
        None => Seq::empty(),
    }
}

/// The frontmatter entries stored one after the other, later ones replacing
/// earlier ones with the same key.
pub open spec fn meta_fold(m: Seq<(Seq<char>, Seq<char>)>) -> Seq<(Seq<char>, Seq<char>)>
    decreases m.len(),
{
    if m.len() == 0 {
        Seq::empty()
    } else {
        text_insert(meta_fold(m.drop_last()), m.last().0, m.last().1)
    }
}

/// The fields a document shows templates: its frontmatter entries, then
/// `file_name`, `uri` and `content`.
pub open spec fn doc_fields(d: DocView) -> Seq<(Seq<char>, Seq<char>)> {
    text_insert(
        text_insert(text_insert(meta_fold(d.metadata), "file_name"@, d.file_name), "uri"@, d.uri),
        "content"@,
        d.content,
    )
}

fn copy_string(s: &String) -> (res: String)
    ensures
        res@ == s@,
{
    s.clone()
}

impl MarkdownDocument {
    /// Reads a document from its text: frontmatter entries and body. Answers
    /// `None` when the frontmatter header is never closed.
    pub fn new(content: &str, file_name: String, uri: String) -> (res: Option<MarkdownDocument>)
        ensures
            match parse_document(content@) {
                Some(parsed) => res matches Some(d) && d@ == DocView {
                    file_name: file_name@,
                    uri: uri@,
                    metadata: parsed.0,
                    content: parsed.1,
                },
                None => res is None,
            },
    {
        let text = chars_of(content);
        match parse_frontmatter(&text) {
            Some((entries, body)) => {
                let ghost ev = meta_view(entries@);
                let mut metadata: Vec<(String, String)> = Vec::new();
                let n = entries.len();
                for i in 0..n
                    invariant
                        n == entries@.len(),
                        ev == meta_view(entries@),
                        string_pairs(metadata@) == ev.take(i as int),
                {
                    let k = string_from_chars(entries[i].0.as_slice());
                    let v = string_from_chars(entries[i].1.as_slice());
                    let ghost before = string_pairs(metadata@);
                    let ghost added = (k@, v@);
                    metadata.push((k, v));
                    assert(string_pairs(metadata@) =~= before.push(added));
                    assert(ev.take(i + 1) =~= ev.take(i as int).push(ev[i as int]));
                }
                assert(ev.take(n as int) =~= ev);
                let d = MarkdownDocument {
                    file_name,
                    uri,
                    metadata,
                    content: string_from_chars(body.as_slice()),
                };
                Some(d)
            },
            None => None,
        }
    }

    /// A copy of the document.
    pub fn duplicate(&self) -> (res: MarkdownDocument)
        ensures
            res@ == self@,
    {
        let mut metadata: Vec<(String, String)> = Vec::new();
        let n = self.metadata.len();
        for i in 0..n
            invariant
                n == self.metadata@.len(),
                string_pairs(metadata@) == string_pairs(self.metadata@).take(i as int),
        {
            let k = copy_string(&self.metadata[i].0);
            let v = copy_string(&self.metadata[i].1);
            let ghost before = string_pairs(metadata@);
            let ghost added = (k@, v@);
            assert(string_pairs(self.metadata@)[i as int] == added);
            metadata.push((k, v));
            assert(string_pairs(metadata@) =~= before.push(added));
            assert(string_pairs(self.metadata@).take(i + 1) =~= string_pairs(self.metadata@).take(i as int).push(added));
        }
        assert(string_pairs(self.metadata@).take(n as int) =~= string_pairs(self.metadata@));
        MarkdownDocument {
            file_name: copy_string(&self.file_name),
            uri: copy_string(&self.uri),
            metadata,
            content: copy_string(&self.content),
        }
    }

    /// The value of the last frontmatter entry for `key`.
    pub fn meta(&self, key: &str) -> (res: Option<&String>)
        ensures
            match res {
                Some(v) => meta_value(self@.metadata, key@) == Some(v@),
                None => meta_value(self@.metadata, key@) is None,
            },
    {
        let k = string_of(key);
        let mut i: usize = self.metadata.len();
        assert(self@.metadata.take(i as int) =~= self@.metadata);
        while i > 0
            invariant
                i <= self.metadata@.len(),
                k@ == key@,
                meta_value(self@.metadata, key@) == meta_value(self@.metadata.take(i as int), key@),
            decreases i,
        {
            assert(self@.metadata.take(i as int).drop_last() =~= self@.metadata.take(i - 1));
            assert(self@.metadata.take(i as int).last() == self@.metadata[i - 1]);
            assert(self@.metadata[i - 1] == (self.metadata@[i - 1].0@, self.metadata@[i - 1].1@));
            if self.metadata[i - 1].0 == k {
                return Some(&self.metadata[i - 1].1);
            }
            i = i - 1;
        }
        None
    }

    /// The tags the document declares in its `tags` frontmatter entry:
    /// `tags: rust, web` or `tags: [rust, web]`.
    pub fn tags(&self) -> (res: Vec<String>)
        ensures
            res@.map_values(|t: String| t@) == doc_tags(self@),
    {
        proof {
            assert(self.metadata@.len() >= 0);
        }
        let value = match self.meta("tags") {
            Some(v) => chars_of(v.as_str()),
            None => {
                let none: Vec<String> = Vec::new();
                assert(none@.map_values(|t: String| t@) =~= Seq::<Seq<char>>::empty());
                return none;
            },
        };
        let trimmed = trim(&value);
        let inner = if trimmed.len() >= 2 && trimmed[0] == '[' && trimmed[trimmed.len() - 1] == ']' {
            let mut inner: Vec<char> = Vec::new();
            let mut i: usize = 1;
            while i < trimmed.len() - 1
                invariant
                    trimmed@.len() >= 2,
                    1 <= i <= trimmed@.len() - 1,
                    inner@ == trimmed@.subrange(1, i as int),
                decreases trimmed@.len() - i,
            {
                inner.push(trimmed[i]);
                i = i + 1;
                assert(inner@ =~= trimmed@.subrange(1, i as int));
            }
            inner
        } else {
            trimmed
        };
        assert(inner@ == unbracket(trim_spec(value@)));
        let pieces = split_chars(&inner, ',');
        let ghost ps = line_texts(pieces@);
        let mut res: Vec<String> = Vec::new();
        let n = pieces.len();
        for i in 0..n
            invariant
                n == pieces@.len(),
                ps == line_texts(pieces@),
                res@.map_values(|t: String| t@) == kept_pieces(ps.take(i as int)),
        {
            assert(ps.take(i + 1).drop_last() =~= ps.take(i as int));
            let t = trim(&pieces[i]);
            if t.len() > 0 {
                let ghost before = res@.map_values(|t: String| t@);
                let name = string_from_chars(t.as_slice());
                res.push(name);
                assert(res@.map_values(|t: String| t@) =~= before.push(t@));
            }
        }
        assert(ps.take(n as int) =~= ps);
        res
    }

    /// The document's fields as a template object: its frontmatter entries,
    /// then `file_name`, `uri` and `content`.
    pub fn as_tinylang_state(&self) -> (res: State)
        ensures
            shows_texts(res@, doc_fields(self@)),
    {
        let mut state = State::new();
        let n = self.metadata.len();
        let ghost m = self@.metadata;
        for i in 0..n
            invariant
                n == m.len(),
                m == string_pairs(self.metadata@),
                shows_texts(state@, meta_fold(m.take(i as int))),
        {
            assert(m.take(i + 1).drop_last() =~= m.take(i as int));
            let k = copy_string(&self.metadata[i].0);
            let v = TinyLangType::String(copy_string(&self.metadata[i].1));
            proof {
                lemma_shows_texts_insert(state@, meta_fold(m.take(i as int)), k@, v, m[i as int].1);
            }
            state.insert(k, v);
        }
        assert(m.take(n as int) =~= m);
        let f = TinyLangType::String(copy_string(&self.file_name));
        proof {
            lemma_shows_texts_insert(state@, meta_fold(m), "file_name"@, f, self.file_name@);
        }
        state.insert(string_of("file_name"), f);
        let u = TinyLangType::String(copy_string(&self.uri));
        proof {
            lemma_shows_texts_insert(state@, text_insert(meta_fold(m), "file_name"@, self.file_name@), "uri"@, u, self.uri@);
        }
        state.insert(string_of("uri"), u);
        let c = TinyLangType::String(copy_string(&self.content));
        proof {
            lemma_shows_texts_insert(
                state@,
                text_insert(text_insert(meta_fold(m), "file_name"@, self.file_name@), "uri"@, self.uri@),
                "content"@,
                c,
                self.content@,
            );
        }
        state.insert(string_of("content"), c);
        state
    }
}

} // verus!
