//! How the sitemap's XML escape and the code-block unescape fit together:
//! unescaping undoes the escape of any text without a single quote.
use vstd::prelude::*;
use crate::highlight::unescaped;
use crate::sitemap::{escape_char, xml_escaped};
use crate::text::{occurs_at, replaced};

verus! {

/// The replacement pass `k` of unescaping, from 1 to 6, decodes `c`.
spec fn decoded_at(c: char, k: int) -> bool {
    ||| c == '<' && k >= 1
    ||| c == '>' && k >= 2
    ||| c == '"' && k >= 3
    ||| c == '&' && k >= 6
}

/// What the escape of `c` has become after `k` passes.
spec fn chunk(c: char, k: int) -> Seq<char> {
    if decoded_at(c, k) {
        seq![c]
    } else {
        escape_char(c)
    }
}

/// The escape of `s` after `k` passes.
spec fn staged(s: Seq<char>, k: int) -> Seq<char>
    decreases s.len(),
{
    if s.len() == 0 {
        Seq::empty()
    } else {
        chunk(s[0], k) + staged(s.skip(1), k)
    }
}

/// The pattern pass `k` replaces.
spec fn pass_pat(k: int) -> Seq<char> {
    if k == 1 {
        "&lt;"@
    } else if k == 2 {
        "&gt;"@
    } else if k == 3 {
        "&quot;"@
    } else if k == 4 {
        "&#x27;"@
    } else if k == 5 {
        "&#39;"@
    } else {
        "&amp;"@
    }
}

/// What pass `k` puts in its pattern's place.
spec fn pass_rep(k: int) -> Seq<char> {
    if k == 1 {
        "<"@
    } else if k == 2 {
        ">"@
    } else if k == 3 {
        "\""@
    } else if k == 4 || k == 5 {
        "'"@
    } else {
        "&"@
    }
}

proof fn reveal_literals()
    ensures
        "&lt;"@ == seq!['&', 'l', 't', ';'],
        "&gt;"@ == seq!['&', 'g', 't', ';'],
        "&quot;"@ == seq!['&', 'q', 'u', 'o', 't', ';'],
        "&#x27;"@ == seq!['&', '#', 'x', '2', '7', ';'],
        "&#39;"@ == seq!['&', '#', '3', '9', ';'],
        "&amp;"@ == seq!['&', 'a', 'm', 'p', ';'],
        "&apos;"@ == seq!['&', 'a', 'p', 'o', 's', ';'],
        "<"@ == seq!['<'],
        ">"@ == seq!['>'],
        "\""@ == seq!['"'],
        "'"@ == seq!['\''],
        "&"@ == seq!['&'],
{
    reveal_strlit("&lt;");
    reveal_strlit("&gt;");
    reveal_strlit("&quot;");
    reveal_strlit("&#x27;");
    reveal_strlit("&#39;");
    reveal_strlit("&amp;");
    reveal_strlit("&apos;");
    reveal_strlit("<");
    reveal_strlit(">");
    reveal_strlit("\"");
    reveal_strlit("'");
    reveal_strlit("&");
    assert("&lt;"@ =~= seq!['&', 'l', 't', ';']);
    assert("&gt;"@ =~= seq!['&', 'g', 't', ';']);
    assert("&quot;"@ =~= seq!['&', 'q', 'u', 'o', 't', ';']);
    assert("&#x27;"@ =~= seq!['&', '#', 'x', '2', '7', ';']);
    assert("&#39;"@ =~= seq!['&', '#', '3', '9', ';']);
    assert("&amp;"@ =~= seq!['&', 'a', 'm', 'p', ';']);
    assert("&apos;"@ =~= seq!['&', 'a', 'p', 'o', 's', ';']);
    assert("<"@ =~= seq!['<']);
    assert(">"@ =~= seq!['>']);
    assert("\""@ =~= seq!['"']);
    assert("'"@ =~= seq!['\'']);
    assert("&"@ =~= seq!['&']);
}

/// The shape of the patterns: each starts with `&`, no other character of
/// it is one, and it is at least four characters long.
proof fn lemma_pattern_shape(k: int)
    ensures
        pass_pat(k).len() >= 4,
        pass_pat(k)[0] == '&',
        forall|i: int| 1 <= i < pass_pat(k).len() ==> #[trigger] pass_pat(k)[i] != '&',
{
    reveal_literals();
}

/// The shape of a chunk: a single character other than `&` before the
/// last pass, or an entity starting with its only `&`, whose second
/// character tells it from every other pattern.
proof fn lemma_chunk_shape(c: char, k: int)
    requires
        1 <= k <= 6,
        c != '\'',
    ensures
        chunk(c, k - 1).len() == 1 ==> chunk(c, k - 1)[0] != '&',
        chunk(c, k - 1).len() != 1 ==> {
            &&& chunk(c, k - 1).len() >= 4
            &&& chunk(c, k - 1)[0] == '&'
            &&& forall|i: int| 1 <= i < chunk(c, k - 1).len() ==> #[trigger] chunk(c, k - 1)[i] != '&'
            &&& (chunk(c, k - 1)[1] == pass_pat(k)[1] ==> chunk(c, k - 1) == pass_pat(k))
        },
        chunk(c, k - 1) == pass_pat(k) ==> chunk(c, k) == pass_rep(k),
        chunk(c, k - 1) != pass_pat(k) ==> chunk(c, k) == chunk(c, k - 1),
{
    reveal_literals();
}

proof fn lemma_staged_last(s: Seq<char>, k: int)
    requires
        s.len() > 0,
    ensures
        staged(s, k) == staged(s.drop_last(), k) + chunk(s.last(), k),
    decreases s.len(),
{
    if s.len() == 1 {
        assert(s.skip(1) =~= Seq::<char>::empty());
        assert(s.drop_last() =~= Seq::<char>::empty());
        assert(staged(s.skip(1), k) == Seq::<char>::empty());
        assert(staged(s.drop_last(), k) == Seq::<char>::empty());
        assert(staged(s, k) =~= chunk(s[0], k));
    } else {
        lemma_staged_last(s.skip(1), k);
        assert(s.skip(1).drop_last() =~= s.drop_last().skip(1));
        assert(s.drop_last()[0] == s[0]);
        assert(staged(s, k) =~= staged(s.drop_last(), k) + chunk(s.last(), k));
    }
}

proof fn lemma_staged_start(s: Seq<char>)
    ensures
        staged(s, 0) == xml_escaped(s),
    decreases s.len(),
{
    if s.len() > 0 {
        lemma_staged_last(s, 0);
        lemma_staged_start(s.drop_last());
    }
}

proof fn lemma_staged_end(s: Seq<char>)
    requires
        forall|i: int| 0 <= i < s.len() ==> s[i] != '\'',
    ensures
        staged(s, 6) == s,
    decreases s.len(),
{
    reveal_literals();
    if s.len() > 0 {
        assert forall|i: int| 0 <= i < s.skip(1).len() implies s.skip(1)[i] != '\'' by {
            assert(s.skip(1)[i] == s[i + 1]);
        }
        lemma_staged_end(s.skip(1));
        assert(chunk(s[0], 6) =~= seq![s[0]]);
        assert(seq![s[0]] + s.skip(1) =~= s);
    }
}

/// Replacing in `a + t` where no occurrence starts inside `a` leaves `a`.
proof fn lemma_replaced_after(a: Seq<char>, t: Seq<char>, pat: Seq<char>, rep: Seq<char>)
    requires
        pat.len() > 0,
        forall|j: int| 0 <= j < a.len() ==> !#[trigger] occurs_at(a + t, j, pat),
    ensures
        replaced(a + t, pat, rep) == a + replaced(t, pat, rep),
    decreases a.len(),
{
    if a.len() == 0 {
        assert(a + t =~= t);
        assert(a + replaced(t, pat, rep) =~= replaced(t, pat, rep));
    } else {
        assert(!occurs_at(a + t, 0, pat));
        assert((a + t).skip(1) =~= a.skip(1) + t);
        assert forall|j: int| 0 <= j < a.skip(1).len() implies !#[trigger] occurs_at(a.skip(1) + t, j, pat) by {
            assert(!occurs_at(a + t, j + 1, pat));
            if j + pat.len() <= (a.skip(1) + t).len() {
                assert((a.skip(1) + t).subrange(j, j + pat.len()) =~= (a + t).subrange(j + 1, j + 1 + pat.len()));
            }
        }
        lemma_replaced_after(a.skip(1), t, pat, rep);
        assert(seq![(a + t)[0]] + (a.skip(1) + replaced(t, pat, rep)) =~= a + replaced(t, pat, rep));
    }
}

/// A chunk that is not the pattern of pass `k` holds no occurrence of it.
proof fn lemma_no_occurrence(c: char, k: int, t: Seq<char>)
    requires
        1 <= k <= 6,
        c != '\'',
        chunk(c, k - 1) != pass_pat(k),
    ensures
        forall|j: int| 0 <= j < chunk(c, k - 1).len() ==> !#[trigger] occurs_at(chunk(c, k - 1) + t, j, pass_pat(k)),
{
    reveal_literals();
    let ch = chunk(c, k - 1);
    let pat = pass_pat(k);
    lemma_pattern_shape(k);
    lemma_chunk_shape(c, k);
    assert forall|j: int| 0 <= j < ch.len() implies !#[trigger] occurs_at(ch + t, j, pat) by {
        if occurs_at(ch + t, j, pat) {
            assert((ch + t).subrange(j, j + pat.len())[0] == pat[0]);
            assert((ch + t)[j] == ch[j]);
            assert(ch[j] == '&');
            assert(j == 0);
            assert((ch + t).subrange(0, pat.len() as int)[1] == pat[1]);
            assert((ch + t)[1] == ch[1]);
            assert(ch.len() == pat.len() ==> ch =~= pat) by {
                if ch.len() == pat.len() {
                    assert forall|i: int| 0 <= i < ch.len() implies ch[i] == pat[i] by {
                        assert((ch + t).subrange(0, pat.len() as int)[i] == pat[i]);
                        assert((ch + t)[i] == ch[i]);
                    }
                }
            }
        }
    }
}

/// Pass `k` of unescaping turns the text after `k - 1` passes into the text
/// after `k`.
proof fn lemma_pass(s: Seq<char>, k: int)
    requires
        1 <= k <= 6,
        forall|i: int| 0 <= i < s.len() ==> s[i] != '\'',
    ensures
        replaced(staged(s, k - 1), pass_pat(k), pass_rep(k)) == staged(s, k),
    decreases s.len(),
{
    reveal_literals();
    if s.len() > 0 {
        let c = s[0];
        let rest = s.skip(1);
        assert forall|i: int| 0 <= i < rest.len() implies rest[i] != '\'' by {
            assert(rest[i] == s[i + 1]);
        }
        lemma_pass(rest, k);
        let ch = chunk(c, k - 1);
        let t = staged(rest, k - 1);
        let pat = pass_pat(k);
        let rep = pass_rep(k);
        lemma_pattern_shape(k);
        lemma_chunk_shape(c, k);
        if ch == pat {
            assert((ch + t).subrange(0, pat.len() as int) =~= pat);
            assert((ch + t).skip(pat.len() as int) =~= t);
        } else {
            lemma_no_occurrence(c, k, t);
            lemma_replaced_after(ch, t, pat, rep);
        }
    }
}

/// Unescaping code undoes the XML escape of any text without a single
/// quote (whose `&apos;` unescaping leaves as it is).
pub proof fn lemma_unescape_undoes_xml_escape(s: Seq<char>)
    requires
        forall|i: int| 0 <= i < s.len() ==> s[i] != '\'',
    ensures
        unescaped(xml_escaped(s)) == s,
{
    lemma_staged_start(s);
    lemma_pass(s, 1);
    lemma_pass(s, 2);
    lemma_pass(s, 3);
    lemma_pass(s, 4);
    lemma_pass(s, 5);
    lemma_pass(s, 6);
    lemma_staged_end(s);
    reveal_literals();
}

} // verus!
