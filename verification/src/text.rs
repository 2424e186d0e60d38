//! Character-level text utilities shared by the site generator: text order,
//! substring replacement, decimal rendering and the Unicode character
//! classes that std computes.
use vstd::prelude::*;

verus! {

// ---------------------------------------------------------------------------
// Conversions between `str`/`String` and character vectors
// ---------------------------------------------------------------------------

/// The characters of `s`, in order.
pub fn chars_of(s: &str) -> (res: Vec<char>)
    ensures
        res@ == s@,
{
    let mut res: Vec<char> = Vec::new();
    for c in it: s.chars()
        invariant
            res@ == it.seq().take(it.index() as int),
            it.seq() == s@,
    {
        res.push(c);
    }
    res
}

/// Collects characters into a `String`: std's `String::from_iter`, which
/// appends the characters one after the other.
#[verifier::external_body]
pub(crate) fn string_from_chars(chars: &[char]) -> (res: String)
    ensures
        res@ == chars@,
{
    String::from_iter(chars.iter())
}

/// A `String` holding the characters of `s`.
pub fn string_of(s: &str) -> (res: String)
    ensures
        res@ == s@,
{
    String::from_str(s)
}

/// Appends `more` to `out`.
pub fn push_all(out: &mut Vec<char>, more: &Vec<char>)
    ensures
        final(out)@ == old(out)@ + more@,
{
    let mut i: usize = 0;
    while i < more.len()
        invariant
            i <= more@.len(),
            out@ == old(out)@ + more@.take(i as int),
        decreases more@.len() - i,
    {
        out.push(more[i]);
        i = i + 1;
        assert(more@.take(i as int) == more@.take((i - 1) as int).push(more@[i - 1]));
    }
    assert(more@.take(more@.len() as int) == more@);
}

/// Appends the characters of `s` to `out`.
pub fn push_str(out: &mut Vec<char>, s: &str)
    ensures
        final(out)@ == old(out)@ + s@,
{
    let cs = chars_of(s);
    push_all(out, &cs);
}

/// Whether two character vectors hold the same text.
pub fn chars_equal(a: &Vec<char>, b: &Vec<char>) -> (res: bool)
    ensures
        res == (a@ == b@),
{
    if a.len() != b.len() {
        return false;
    }
    let mut i: usize = 0;
    while i < a.len()
        invariant
            a@.len() == b@.len(),
            i <= a@.len(),
            forall|j: int| 0 <= j < i ==> a@[j] == b@[j],
        decreases a@.len() - i,
    {
        if a[i] != b[i] {
            return false;
        }
        i = i + 1;
    }
    assert(a@ =~= b@);
    true
}

// ---------------------------------------------------------------------------
// Text order: std orders `String`s by their UTF-8 bytes, which is the
// lexicographic order of their code points.
// ---------------------------------------------------------------------------

/// `a` sorts strictly before `b` in code point (lexicographic) order.
pub open spec fn text_lt(a: Seq<char>, b: Seq<char>) -> bool
    decreases a.len(),
{
    if b.len() == 0 {
        false
    } else if a.len() == 0 {
        true
    } else if a[0] != b[0] {
        (a[0] as int) < (b[0] as int)
    } else {
        text_lt(a.drop_first(), b.drop_first())
    }
}

/// `a` sorts before `b` or equals it.
pub open spec fn text_le(a: Seq<char>, b: Seq<char>) -> bool {
    text_lt(a, b) || a == b
}

/// Text order is irreflexive.
pub proof fn lemma_text_lt_irreflexive(a: Seq<char>)
    ensures
        !text_lt(a, a),
    decreases a.len(),
{
    if a.len() > 0 {
        lemma_text_lt_irreflexive(a.drop_first());
    }
}

/// Text order is transitive.
pub proof fn lemma_text_lt_transitive(a: Seq<char>, b: Seq<char>, c: Seq<char>)
    requires
        text_lt(a, b),
        text_lt(b, c),
    ensures
        text_lt(a, c),
    decreases a.len(),
{
    if a.len() > 0 && b.len() > 0 && c.len() > 0 && a[0] == b[0] && b[0] == c[0] {
        lemma_text_lt_transitive(a.drop_first(), b.drop_first(), c.drop_first());
    }
}

/// Two different texts are ordered one way or the other.
pub proof fn lemma_text_lt_total(a: Seq<char>, b: Seq<char>)
    ensures
        a == b || text_lt(a, b) || text_lt(b, a),
    decreases a.len(),
{
    if a.len() > 0 && b.len() > 0 {
        if a[0] == b[0] {
            lemma_text_lt_total(a.drop_first(), b.drop_first());
            if a.drop_first() == b.drop_first() {
                assert(a =~= seq![a[0]] + a.drop_first());
                assert(b =~= seq![b[0]] + b.drop_first());
            }
        }
    } else if a.len() == 0 && b.len() == 0 {
        assert(a =~= b);
    }
}

/// Text order is asymmetric.
pub proof fn lemma_text_lt_asymmetric(a: Seq<char>, b: Seq<char>)
    requires
        text_lt(a, b),
    ensures
        !text_lt(b, a),
{
    if text_lt(b, a) {
        lemma_text_lt_transitive(a, b, a);
        lemma_text_lt_irreflexive(a);
    }
}

/// Whether `a` sorts strictly before `b`.
pub fn text_less(a: &Vec<char>, b: &Vec<char>) -> (res: bool)
    ensures
        res == text_lt(a@, b@),
{
    let mut i: usize = 0;
    assert(a@.skip(0) =~= a@);
    assert(b@.skip(0) =~= b@);
    while i < a.len() && i < b.len() && a[i] == b[i]
        invariant
            i <= a@.len(),
            i <= b@.len(),
            text_lt(a@, b@) == text_lt(a@.skip(i as int), b@.skip(i as int)),
        decreases a@.len() - i,
    {
        assert(a@.skip(i as int).drop_first() == a@.skip(i + 1));
        assert(b@.skip(i as int).drop_first() == b@.skip(i + 1));
        i = i + 1;
    }
    if i == b.len() {
        false
    } else if i == a.len() {
        true
    } else {
        assert(a@.skip(i as int)[0] == a@[i as int]);
        assert(b@.skip(i as int)[0] == b@[i as int]);
        a[i] < b[i]
    }
}

// ---------------------------------------------------------------------------
// Substring replacement, as std's `str::replace` does it: every
// non-overlapping occurrence of `pat`, scanning from the left.
// ---------------------------------------------------------------------------

/// `pat` occurs in `s` at position `i`.
pub open spec fn occurs_at(s: Seq<char>, i: int, pat: Seq<char>) -> bool {
    0 <= i && i + pat.len() <= s.len() && s.subrange(i, i + pat.len()) == pat
}

/// `s` with every non-overlapping occurrence of the non-empty `pat`,
/// leftmost first, replaced by `rep`.
pub open spec fn replaced(s: Seq<char>, pat: Seq<char>, rep: Seq<char>) -> Seq<char>
    recommends
        pat.len() > 0,
    decreases s.len(),
{
    if s.len() == 0 || pat.len() == 0 {
        s
    } else if occurs_at(s, 0, pat) {
        rep + replaced(s.skip(pat.len() as int), pat, rep)
    } else {
        seq![s[0]] + replaced(s.skip(1), pat, rep)
    }
}

/// Whether `pat` occurs in `s` at position `i`.
pub fn occurs_at_exec(s: &Vec<char>, i: usize, pat: &Vec<char>) -> (res: bool)
    requires
        i <= s@.len(),
    ensures
        res == occurs_at(s@, i as int, pat@),
{
    if pat.len() > s.len() - i {
        return false;
    }
    let mut j: usize = 0;
    while j < pat.len()
        invariant
            i + pat.len() <= s.len(),
            j <= pat@.len(),
            forall|k: int| 0 <= k < j ==> s@[i + k] == pat@[k],
        decreases pat@.len() - j,
    {
        let k: usize = i + j;
        if s[k] != pat[j] {
            assert(s@.subrange(i as int, i + pat@.len())[j as int] != pat@[j as int]);
            return false;
        }
        j = j + 1;
    }
    assert(s@.subrange(i as int, i + pat@.len()) =~= pat@);
    true
}

/// Replaces every non-overlapping occurrence of `pat` in `s` by `rep`,
/// leftmost first: std's `str::replace`.
pub fn replace_all(s: &Vec<char>, pat: &Vec<char>, rep: &Vec<char>) -> (res: Vec<char>)
    requires
        pat@.len() > 0,
    ensures
        res@ == replaced(s@, pat@, rep@),
{
    let mut out: Vec<char> = Vec::new();
    let mut i: usize = 0;
    assert(s@.skip(0) =~= s@);
    while i < s.len()
        invariant
            pat@.len() > 0,
            i <= s@.len(),
            out@ + replaced(s@.skip(i as int), pat@, rep@) == replaced(s@, pat@, rep@),
        decreases s@.len() - i,
    {
        let ghost rest = s@.skip(i as int);
        if occurs_at_exec(s, i, pat) {
            assert(rest.subrange(0, pat@.len() as int) == s@.subrange(i as int, i + pat@.len()));
            assert(rest.skip(pat@.len() as int) == s@.skip(i + pat@.len()));
            push_all(&mut out, rep);
            i = i + pat.len();
            assert(out@ + replaced(s@.skip(i as int), pat@, rep@) == replaced(s@, pat@, rep@)) by {
                assert(out@ + replaced(s@.skip(i as int), pat@, rep@) =~= (out@.subrange(
                    0,
                    out@.len() - rep@.len(),
                ) + replaced(rest, pat@, rep@)));
            }
        } else {
            assert(!occurs_at(rest, 0, pat@)) by {
                if occurs_at(rest, 0, pat@) {
                    assert(rest.subrange(0, pat@.len() as int) == s@.subrange(
                        i as int,
                        i + pat@.len(),
                    ));
                }
            }
            assert(rest.skip(1) == s@.skip(i + 1));
            let ghost before = out@;
            out.push(s[i]);
            i = i + 1;
            assert(out@ + replaced(s@.skip(i as int), pat@, rep@) =~= before + replaced(
                rest,
                pat@,
                rep@,
            ));
        }
    }
    assert(s@.skip(s@.len() as int) =~= Seq::<char>::empty());
    assert(out@ + replaced(s@.skip(i as int), pat@, rep@) =~= out@);
    out
}

// ---------------------------------------------------------------------------
// Decimal rendering of integers
// ---------------------------------------------------------------------------

/// The decimal digit character for `d` in `0..10`.
pub open spec fn digit_char(d: int) -> char {
    ((48 + d) as u8) as char
}

/// The decimal digits of `n`, most significant first, without leading zeros.
pub open spec fn nat_digits(n: nat) -> Seq<char>
    decreases n,
{
    if n < 10 {
        seq![digit_char(n as int)]
    } else {
        nat_digits(n / 10).push(digit_char((n % 10) as int))
    }
}

/// The decimal rendering of `n`: a minus sign for negative numbers, then
/// the digits of its magnitude.
pub open spec fn decimal(n: int) -> Seq<char> {
    if n < 0 {
        seq!['-'] + nat_digits((-n) as nat)
    } else {
        nat_digits(n as nat)
    }
}

fn push_digits(m: u64, out: &mut Vec<char>)
    ensures
        final(out)@ == old(out)@ + nat_digits(m as nat),
    decreases m,
{
    if m >= 10 {
        push_digits(m / 10, out);
    }
    let d: u8 = (m % 10) as u8;
    out.push((48u8 + d) as char);
}

/// The decimal rendering of `n`.
pub fn decimal_chars(n: i64) -> (res: Vec<char>)
    ensures
        res@ == decimal(n as int),
{
    let mut out: Vec<char> = Vec::new();
    if n < 0 {
        out.push('-');
        let wide: i128 = n as i128;
        let m: u64 = (-wide) as u64;
        push_digits(m, &mut out);
    } else {
        push_digits(n as u64, &mut out);
    }
    out
}

// ---------------------------------------------------------------------------
// Unicode character classes, computed by std
// ---------------------------------------------------------------------------

/// Whether `c` is in the ASCII letters or digits.
pub open spec fn is_ascii_alnum(c: char) -> bool {
    ('a' <= c && c <= 'z') || ('A' <= c && c <= 'Z') || ('0' <= c && c <= '9')
}

/// The ASCII lowercase of `c`.
pub open spec fn ascii_lower(c: char) -> char {
    if 'A' <= c && c <= 'Z' {
        ((c as u32) + 32) as char
    } else {
        c
    }
}

/// Whether `c` is an ASCII whitespace character (the ASCII part of
/// Unicode's `White_Space`).
pub open spec fn is_ascii_space(c: char) -> bool {
    c == ' ' || (9 <= (c as u32) && (c as u32) <= 13)
}

/// What std's `char::is_alphanumeric` returns for a non-ASCII `c`
/// (Unicode `Alphabetic` or `Numeric`).
pub uninterp spec fn unicode_alphanumeric(c: char) -> bool;

/// What std's `char::to_lowercase` yields for a non-ASCII `c` (its Unicode
/// lowercase mapping, one or more characters).
pub uninterp spec fn unicode_lowercase(c: char) -> Seq<char>;

/// What std's `char::is_whitespace` returns for a non-ASCII `c` (Unicode
/// `White_Space`).
pub uninterp spec fn unicode_whitespace(c: char) -> bool;

/// `c` is alphanumeric: on ASCII, a letter or digit.
pub open spec fn alphanumeric(c: char) -> bool {
    if (c as u32) < 128 {
        is_ascii_alnum(c)
    } else {
        unicode_alphanumeric(c)
    }
}

/// The lowercase of `c`: on ASCII, its single ASCII lowercase.
pub open spec fn lowercase(c: char) -> Seq<char> {
    if (c as u32) < 128 {
        seq![ascii_lower(c)]
    } else {
        unicode_lowercase(c)
    }
}

/// `c` is whitespace: on ASCII, space, tab, line feed, vertical tab, form
/// feed or carriage return.
pub open spec fn whitespace(c: char) -> bool {
    if (c as u32) < 128 {
        is_ascii_space(c)
    } else {
        unicode_whitespace(c)
    }
}

/// std's `char::is_alphanumeric`. The contract gives the ASCII letters and
/// digits exactly and names the result beyond ASCII, where the Unicode
/// tables decide and nothing more is stated.
#[verifier::external_body]
pub(crate) fn is_alphanumeric(c: char) -> (res: bool)
    ensures
        res == alphanumeric(c),
        (c as u32) >= 128 ==> res == unicode_alphanumeric(c),
{
    c.is_alphanumeric()
}

/// std's `char::to_lowercase`, collected. The contract gives the single ASCII
/// lowercase of an ASCII character, names the result beyond ASCII, where the
/// Unicode mappings decide, and states what std documents of every
/// character: its lowercase is one or more characters.
#[verifier::external_body]
pub(crate) fn to_lowercase(c: char) -> (res: Vec<char>)
    ensures
        res@ == lowercase(c),
        res@.len() >= 1,
        (c as u32) >= 128 ==> res@ == unicode_lowercase(c),
{
    c.to_lowercase().collect()
}

/// std's `char::is_whitespace`. The contract gives the ASCII whitespace
/// characters exactly and names the result beyond ASCII, where Unicode's
/// `White_Space` decides and nothing more is stated.
#[verifier::external_body]
pub(crate) fn is_whitespace(c: char) -> (res: bool)
    ensures
        res == whitespace(c),
        (c as u32) >= 128 ==> res == unicode_whitespace(c),
{
    c.is_whitespace()
}

/// `s` without its trailing whitespace.
pub open spec fn trim_end_spec(s: Seq<char>) -> Seq<char>
    decreases s.len(),
{
    if s.len() > 0 && whitespace(s.last()) {
        trim_end_spec(s.drop_last())
    } else {
        s
    }
}

/// Trimming trailing whitespace keeps a prefix of the text.
pub proof fn lemma_trim_end_prefix(s: Seq<char>)
    ensures
        trim_end_spec(s).len() <= s.len(),
        trim_end_spec(s) == s.take(trim_end_spec(s).len() as int),
    decreases s.len(),
{
    if s.len() > 0 && whitespace(s.last()) {
        lemma_trim_end_prefix(s.drop_last());
        assert(s.drop_last().take(trim_end_spec(s).len() as int) =~= s.take(trim_end_spec(s).len() as int));
    } else {
        assert(s.take(s.len() as int) =~= s);
    }
}

/// Removes trailing whitespace, as std's `str::trim_end` does.
pub fn trim_end(s: &Vec<char>) -> (res: Vec<char>)
    ensures
        res@ == trim_end_spec(s@),
{
    let mut end: usize = s.len();
    assert(s@.take(s@.len() as int) =~= s@);
    while end > 0 && is_whitespace(s[end - 1])
        invariant
            end <= s@.len(),
            trim_end_spec(s@) == trim_end_spec(s@.take(end as int)),
        decreases end,
    {
        assert(s@.take(end as int).drop_last() == s@.take(end - 1));
        end = end - 1;
    }
    let mut out: Vec<char> = Vec::new();
    let mut i: usize = 0;
    while i < end
        invariant
            i <= end <= s@.len(),
            out@ == s@.take(i as int),
        decreases end - i,
    {
        out.push(s[i]);
        i = i + 1;
        assert(out@ =~= s@.take(i as int));
    }
    out
}

} // verus!
