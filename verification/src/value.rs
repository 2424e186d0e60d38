//! Template values: what templates hand to the site's functions and what
//! they get back, with objects as insertion-ordered association lists.
use vstd::prelude::*;
use crate::text::{chars_of, decimal, decimal_chars, string_from_chars};

verus! {

/// A template value. Numbers are whole numbers: the site's functions only
/// use them as counts, page numbers and lengths.
#[derive(Debug, PartialEq)]
pub enum TinyLangType {
    String(String),
    Numeric(i64),
    Bool(bool),
    Vec(Vec<TinyLangType>),
    Object(State),
    Nil,
}

/// The arguments a template passes to a function.
pub type FuncArguments = Vec<TinyLangType>;

/// A template object: named values, one per key, in the order in which the
/// keys were first inserted.
#[derive(Debug, PartialEq)]
pub struct State {
    entries: Vec<(String, TinyLangType)>,
}

/// The entries of an object as (key text, value) pairs.
pub type Entries = Seq<(Seq<char>, TinyLangType)>;

/// The value stored under `key`: that of the first entry with that key.
pub open spec fn lookup(entries: Entries, key: Seq<char>) -> Option<TinyLangType>
    decreases entries.len(),
{
    if entries.len() == 0 {
        None
    } else if entries[0].0 == key {
        Some(entries[0].1)
    } else {
        lookup(entries.drop_first(), key)
    }
}

/// `entries` after storing `value` under `key`: the first entry with that key
/// takes the new value; without one, a new entry goes at the end.
pub open spec fn assoc_insert(entries: Entries, key: Seq<char>, value: TinyLangType) -> Entries
    decreases entries.len(),
{
    if entries.len() == 0 {
        seq![(key, value)]
    } else if entries[0].0 == key {
        entries.update(0, (key, value))
    } else {
        seq![entries[0]] + assoc_insert(entries.drop_first(), key, value)
    }
}

/// Where `key` first occurs in `entries`: before `i` it does not occur, and
/// at `i` (when in range) it does.
pub open spec fn first_key_at(entries: Entries, key: Seq<char>, i: int) -> bool {
    &&& 0 <= i <= entries.len()
    &&& forall|j: int| 0 <= j < i ==> #[trigger] entries[j].0 != key
    &&& i < entries.len() ==> entries[i].0 == key
}

proof fn lemma_lookup_first(entries: Entries, key: Seq<char>, i: int)
    requires
        first_key_at(entries, key, i),
    ensures
        lookup(entries, key) == (if i < entries.len() {
            Some(entries[i].1)
        } else {
            None::<TinyLangType>
        }),
    decreases entries.len(),
{
    if entries.len() > 0 && i > 0 {
        assert(entries[0].0 != key);
        let rest = entries.drop_first();
        assert forall|j: int| 0 <= j < i - 1 implies #[trigger] rest[j].0 != key by {
            assert(rest[j] == entries[j + 1]);
        }
        lemma_lookup_first(rest, key, i - 1);
    }
}

proof fn lemma_insert_first(entries: Entries, key: Seq<char>, value: TinyLangType, i: int)
    requires
        first_key_at(entries, key, i),
    ensures
        assoc_insert(entries, key, value) == (if i < entries.len() {
            entries.update(i, (key, value))
        } else {
            entries.push((key, value))
        }),
    decreases entries.len(),
{
    if entries.len() > 0 && i > 0 {
        let rest = entries.drop_first();
        assert forall|j: int| 0 <= j < i - 1 implies #[trigger] rest[j].0 != key by {
            assert(rest[j] == entries[j + 1]);
        }
        lemma_insert_first(rest, key, value, i - 1);
        if i < entries.len() {
            assert(seq![entries[0]] + rest.update(i - 1, (key, value)) =~= entries.update(
                i,
                (key, value),
            ));
        } else {
            assert(seq![entries[0]] + rest.push((key, value)) =~= entries.push((key, value)));
        }
    } else if entries.len() == 0 {
        assert(seq![(key, value)] =~= entries.push((key, value)));
    }
}

/// Storing a value under a key no entry has adds the entry at the end.
pub proof fn lemma_insert_new(entries: Entries, key: Seq<char>, value: TinyLangType)
    requires
        forall|j: int| 0 <= j < entries.len() ==> #[trigger] entries[j].0 != key,
    ensures
        assoc_insert(entries, key, value) == entries.push((key, value)),
{
    lemma_insert_first(entries, key, value, entries.len() as int);
}

/// Storing a value and reading it back under the same key gives the value.
pub proof fn lemma_lookup_after_insert(entries: Entries, key: Seq<char>, value: TinyLangType)
    ensures
        lookup(assoc_insert(entries, key, value), key) == Some(value),
    decreases entries.len(),
{
    if entries.len() > 0 && entries[0].0 != key {
        lemma_lookup_after_insert(entries.drop_first(), key, value);
        assert((seq![entries[0]] + assoc_insert(entries.drop_first(), key, value)).drop_first()
            =~= assoc_insert(entries.drop_first(), key, value));
    }
}

/// Storing a value under one key leaves what every other key reads unchanged.
pub proof fn lemma_lookup_other_after_insert(
    entries: Entries,
    key: Seq<char>,
    value: TinyLangType,
    other: Seq<char>,
)
    requires
        other != key,
    ensures
        lookup(assoc_insert(entries, key, value), other) == lookup(entries, other),
    decreases entries.len(),
{
    if entries.len() > 0 {
        if entries[0].0 == key {
            let updated = entries.update(0, (key, value));
            assert(updated[0].0 == key);
            assert(updated.drop_first() =~= entries.drop_first());
            assert(lookup(updated, other) == lookup(updated.drop_first(), other));
        } else {
            lemma_lookup_other_after_insert(entries.drop_first(), key, value, other);
            assert((seq![entries[0]] + assoc_insert(entries.drop_first(), key, value)).drop_first()
                =~= assoc_insert(entries.drop_first(), key, value));
        }
    } else {
        let single = seq![(key, value)];
        assert(single[0].0 == key);
        assert(single.drop_first() =~= Seq::<(Seq<char>, TinyLangType)>::empty());
        assert(lookup(single, other) == lookup(single.drop_first(), other));
    }
}

impl View for State {
    type V = Entries;

    closed spec fn view(&self) -> Entries {
        self.entries@.map_values(|e: (String, TinyLangType)| (e.0@, e.1))
    }
}

impl State {
    /// An object without entries.
    pub fn new() -> (res: State)
        ensures
            res@ == Seq::<(Seq<char>, TinyLangType)>::empty(),
    {
        let res = State { entries: Vec::new() };
        assert(res@ =~= Seq::<(Seq<char>, TinyLangType)>::empty());
        res
    }

    /// The number of keys.
    pub fn len(&self) -> (res: usize)
        ensures
            res == self@.len(),
    {
        self.entries.len()
    }

    fn find(&self, key: &String) -> (res: usize)
        ensures
            first_key_at(self@, key@, res as int),
    {
        let mut i: usize = 0;
        while i < self.entries.len()
            invariant
                i <= self.entries@.len(),
                forall|j: int| 0 <= j < i ==> #[trigger] self@[j].0 != key@,
            decreases self.entries@.len() - i,
        {
            if self.entries[i].0 == *key {
                return i;
            }
            i = i + 1;
        }
        i
    }

    /// The value stored under `key`, if any.
    pub fn get(&self, key: &str) -> (res: Option<&TinyLangType>)
        ensures
            match res {
                Some(v) => lookup(self@, key@) == Some(*v),
                None => lookup(self@, key@) is None,
            },
    {
        let k = String::from_str(key);
        let i = self.find(&k);
        proof {
            lemma_lookup_first(self@, key@, i as int);
        }
        if i < self.entries.len() {
            Some(&self.entries[i].1)
        } else {
            None
        }
    }

    /// Stores `value` under `key`, handing back the value it replaces.
    pub fn insert(&mut self, key: String, value: TinyLangType) -> (res: Option<TinyLangType>)
        ensures
            final(self)@ == assoc_insert(old(self)@, key@, value),
            res == lookup(old(self)@, key@),
    {
        let i = self.find(&key);
        proof {
            lemma_lookup_first(self@, key@, i as int);
            lemma_insert_first(self@, key@, value, i as int);
        }
        let ghost kv = key@;
        if i < self.entries.len() {
            let mut entry = (key, value);
            std::mem::swap(&mut entry, &mut self.entries[i]);
            assert(self@ =~= old(self)@.update(i as int, (kv, value)));
            Some(entry.1)
        } else {
            self.entries.push((key, value));
            assert(self@ =~= old(self)@.push((kv, value)));
            None
        }
    }
}

/// `v` is a string with text `t`.
pub open spec fn is_text(v: TinyLangType, t: Seq<char>) -> bool {
    match v {
        TinyLangType::String(s) => s@ == t,
        _ => false,
    }
}

/// An object's entries are string values with the given texts, key for key.
pub open spec fn shows_texts(entries: Entries, texts: Seq<(Seq<char>, Seq<char>)>) -> bool {
    &&& entries.len() == texts.len()
    &&& forall|i: int| 0 <= i < entries.len() ==> (#[trigger] entries[i]).0 == texts[i].0 && is_text(entries[i].1, texts[i].1)
}

/// `texts` after storing `value` under `key`, as `assoc_insert` does.
pub open spec fn text_insert(texts: Seq<(Seq<char>, Seq<char>)>, key: Seq<char>, value: Seq<char>) -> Seq<(Seq<char>, Seq<char>)>
    decreases texts.len(),
{
    if texts.len() == 0 {
        seq![(key, value)]
    } else if texts[0].0 == key {
        texts.update(0, (key, value))
    } else {
        seq![texts[0]] + text_insert(texts.drop_first(), key, value)
    }
}

/// Storing a string keeps an object's entries in step with their texts.
pub proof fn lemma_shows_texts_insert(entries: Entries, texts: Seq<(Seq<char>, Seq<char>)>, key: Seq<char>, v: TinyLangType, t: Seq<char>)
    requires
        shows_texts(entries, texts),
        is_text(v, t),
    ensures
        shows_texts(assoc_insert(entries, key, v), text_insert(texts, key, t)),
    decreases entries.len(),
{
    if entries.len() > 0 {
        assert(entries[0].0 == texts[0].0);
        if entries[0].0 != key {
            let er = entries.drop_first();
            let tr = texts.drop_first();
            assert forall|i: int| 0 <= i < er.len() implies (#[trigger] er[i]).0 == tr[i].0 && is_text(er[i].1, tr[i].1) by {
                assert(er[i] == entries[i + 1]);
                assert(tr[i] == texts[i + 1]);
            }
            lemma_shows_texts_insert(er, tr, key, v, t);
            let a = seq![entries[0]] + assoc_insert(er, key, v);
            let b = seq![texts[0]] + text_insert(tr, key, t);
            assert forall|i: int| 0 <= i < a.len() implies (#[trigger] a[i]).0 == b[i].0 && is_text(a[i].1, b[i].1) by {
                if i > 0 {
                    assert(a[i] == assoc_insert(er, key, v)[i - 1]);
                    assert(b[i] == text_insert(tr, key, t)[i - 1]);
                }
            }
        }
    }
}

/// The text a value shows as: strings as themselves, numbers in decimal,
/// booleans as `true`/`false`, `nil` for nothing, and fixed markers for
/// arrays and objects. This is this library's own rendering of values as
/// text, which template comparisons and sort keys go by; the markers for
/// arrays and objects and the `nil` text are its choice.
pub open spec fn display(v: TinyLangType) -> Seq<char> {
    match v {
        TinyLangType::String(s) => s@,
        TinyLangType::Numeric(n) => decimal(n as int),
        TinyLangType::Bool(b) => if b {
            "true"@
        } else {
            "false"@
        },
        TinyLangType::Vec(_) => "[array]"@,
        TinyLangType::Object(_) => "[object]"@,
        TinyLangType::Nil => "nil"@,
    }
}

impl TinyLangType {
    /// The characters of the text this value shows as.
    pub fn display_chars(&self) -> (res: Vec<char>)
        ensures
            res@ == display(*self),
    {
        match self {
            TinyLangType::String(s) => chars_of(s.as_str()),
            TinyLangType::Numeric(n) => decimal_chars(*n),
            TinyLangType::Bool(b) => if *b {
                chars_of("true")
            } else {
                chars_of("false")
            },
            TinyLangType::Vec(_) => chars_of("[array]"),
            TinyLangType::Object(_) => chars_of("[object]"),
            TinyLangType::Nil => chars_of("nil"),
        }
    }

    /// The text this value shows as.
    pub fn to_display_string(&self) -> (res: String)
        ensures
            res@ == display(*self),
    {
        let cs = self.display_chars();
        string_from_chars(cs.as_slice())
    }
}

} // verus!
