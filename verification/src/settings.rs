//! The site settings file: lines of the form `key = "value"`, as a new
//! site's `config.toml` has them. Other lines set nothing.
use vstd::prelude::*;
use crate::md::{line_texts, lines, split_chars, trim, trim_spec};
use crate::text::{chars_equal, chars_of, string_from_chars};

verus! {

/// Where the first `=` of `line` is, at or after `from`.
pub open spec fn equals_from(line: Seq<char>, from: int) -> Option<int>
    decreases line.len() - from,
{
    if from < 0 || from >= line.len() {
        None
    } else if line[from] == '=' {
        Some(from)
    } else {
        equals_from(line, from + 1)
    }
}

/// A settings line `key = "value"`: the text before its first `=`, trimmed,
/// and the text after it, trimmed, when that is quoted; the value is what
/// stands between the quotes.
pub open spec fn setting_entry(line: Seq<char>) -> Option<(Seq<char>, Seq<char>)> {
    match equals_from(line, 0) {
        Some(p) => {
            let v = trim_spec(line.skip(p + 1));
            if v.len() >= 2 && v[0] == '"' && v.last() == '"' {
                Some((trim_spec(line.take(p)), v.subrange(1, v.len() - 1)))
            } else {
                None
            }
        },
        None => None,
    }
}

/// The value the first of `ls` that sets `key` gives it.
pub open spec fn setting_in(ls: Seq<Seq<char>>, key: Seq<char>) -> Option<Seq<char>>
    decreases ls.len(),
{
    if ls.len() == 0 {
        None
    } else {
        match setting_in(ls.drop_last(), key) {
            Some(v) => Some(v),
            None => match setting_entry(ls.last()) {
                Some(e) => if e.0 == key {
                    Some(e.1)
                } else {
                    None
                },
                None => None,
            },
        }
    }
}

fn find_equals(line: &Vec<char>) -> (res: Option<usize>)
    ensures
        match res {
            Some(p) => equals_from(line@, 0) == Some(p as int) && p < line@.len(),
            None => equals_from(line@, 0) is None,
        },
{
    let mut i: usize = 0;
    while i < line.len()
        invariant
            i <= line@.len(),
            equals_from(line@, 0) == equals_from(line@, i as int),
        decreases line@.len() - i,
    {
        if line[i] == '=' {
            return Some(i);
        }
        i = i + 1;
    }
    None
}

fn copy_range(s: &Vec<char>, from: usize, to: usize) -> (res: Vec<char>)
    requires
        from <= to <= s@.len(),
    ensures
        res@ == s@.subrange(from as int, to as int),
{
    let mut out: Vec<char> = Vec::new();
    let mut i = from;
    while i < to
        invariant
            from <= i <= to <= s@.len(),
            out@ == s@.subrange(from as int, i as int),
        decreases to - i,
    {
        out.push(s[i]);
        i = i + 1;
        assert(out@ =~= s@.subrange(from as int, i as int));
    }
    out
}

fn parse_setting_line(line: &Vec<char>) -> (res: Option<(Vec<char>, Vec<char>)>)
    ensures
        match res {
            Some(e) => setting_entry(line@) == Some((e.0@, e.1@)),
            None => setting_entry(line@) is None,
        },
{
    match find_equals(line) {
        Some(p) => {
            let len = line.len();
            assert(p < len);
            let before = copy_range(line, 0, p);
            let after = copy_range(line, p + 1, line.len());
            assert(before@ =~= line@.take(p as int));
            assert(after@ =~= line@.skip(p + 1));
            let v = trim(&after);
            let n = v.len();
            if n >= 2 && v[0] == '"' && v[n - 1] == '"' {
                let key = trim(&before);
                let value = copy_range(&v, 1, n - 1);
                Some((key, value))
            } else {
                None
            }
        },
        None => None,
    }
}

/// The value the settings `text` give `key`: that of the first line
/// `key = "value"`, or nothing when no line sets it.
pub fn setting(text: &str, key: &str) -> (res: Option<String>)
    ensures
        match res {
            Some(v) => setting_in(lines(text@), key@) == Some(v@),
            None => setting_in(lines(text@), key@) is None,
        },
{
    let cs = chars_of(text);
    let ls = split_chars(&cs, '\n');
    let ghost lv = line_texts(ls@);
    let wanted = chars_of(key);
    let mut i: usize = 0;
    assert(lv.take(0) =~= Seq::<Seq<char>>::empty());
    while i < ls.len()
        invariant
            i <= ls@.len(),
            lv == line_texts(ls@),
            lv == lines(text@),
            wanted@ == key@,
            setting_in(lv.take(i as int), key@) is None,
        decreases ls@.len() - i,
    {
        assert(lv.take(i + 1).drop_last() =~= lv.take(i as int));
        assert(lv.take(i + 1).last() == ls@[i as int]@);
        match parse_setting_line(&ls[i]) {
            Some((k, v)) => {
                if chars_equal(&k, &wanted) {
                    proof {
                        lemma_setting_prefix(lv, key@, i as int + 1);
                    }
                    return Some(string_from_chars(v.as_slice()));
                }
            },
            None => {},
        }
        i = i + 1;
    }
    assert(lv.take(ls@.len() as int) =~= lv);
    None
}

/// The first setting of `key` in a prefix of the lines is its first
/// setting in all of them.
proof fn lemma_setting_prefix(ls: Seq<Seq<char>>, key: Seq<char>, n: int)
    requires
        0 <= n <= ls.len(),
        setting_in(ls.take(n), key) is Some,
    ensures
        setting_in(ls, key) == setting_in(ls.take(n), key),
    decreases ls.len() - n,
{
    if n < ls.len() {
        assert(ls.take(n + 1).drop_last() =~= ls.take(n));
        lemma_setting_prefix(ls, key, n + 1);
    } else {
        assert(ls.take(n) =~= ls);
    }
}

} // verus!
