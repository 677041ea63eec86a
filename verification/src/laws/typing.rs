//! Interactive mode: every word can be typed.
use crate::cli::repl::Splitting;
use vstd::prelude::*;

verus! {

/// Reading a line in two parts is reading all of it.
proof fn lemma_run_split(s: Splitting, a: Seq<char>, b: Seq<char>)
    ensures
        s.run(a + b) == s.run(a).run(b),
    decreases b.len(),
{
    if b.len() == 0 {
        assert(a + b =~= a);
    } else {
        lemma_run_split(s, a, b.drop_last());
        assert((a + b).drop_last() =~= a + b.drop_last());
        assert((a + b).last() == b.last());
    }
}

/// A word with a backslash before each character.
pub open spec fn escaped(w: Seq<char>) -> Seq<char>
    decreases w.len(),
{
    if w.len() == 0 {
        Seq::empty()
    } else {
        escaped(w.drop_last()) + seq!['\\', w.last()]
    }
}

/// A word between quotation marks.
pub open spec fn quoted(w: Seq<char>, q: char) -> Seq<char> {
    seq![q] + w + seq![q]
}

proof fn lemma_escaped(s: Splitting, w: Seq<char>)
    requires
        !s.escaped,
    ensures
        s.run(escaped(w)) == (Splitting { current: s.current + w, ..s }),
    decreases w.len(),
{
    if w.len() == 0 {
        assert(s.current + w =~= s.current);
    } else {
        let rest = w.drop_last();
        lemma_escaped(s, rest);
        let m = s.run(escaped(rest));
        let two = seq!['\\', w.last()];
        lemma_run_split(s, escaped(rest), two);
        let one = seq!['\\'];
        assert(two.drop_last() =~= one);
        assert(one.drop_last() =~= Seq::empty());
        assert(m.run(one.drop_last()) == m);
        assert(m.run(one) == m.step('\\'));
        assert(m.run(two) == m.step('\\').step(w.last()));
        assert((s.current + rest).push(w.last()) =~= s.current + w);
    }
}

proof fn lemma_within(s: Splitting, w: Seq<char>, q: char)
    requires
        !s.escaped,
        s.quote == Some(q),
        forall|i: int| 0 <= i < w.len() ==> #[trigger] w[i] != q && w[i] != '\\',
    ensures
        s.run(w) == (Splitting { current: s.current + w, ..s }),
    decreases w.len(),
{
    if w.len() == 0 {
        assert(s.current + w =~= s.current);
    } else {
        let rest = w.drop_last();
        assert forall|i: int| 0 <= i < rest.len() implies #[trigger] rest[i] != q && rest[i]
            != '\\' by {
            assert(rest[i] == w[i]);
        }
        lemma_within(s, rest, q);
        assert(w[w.len() - 1] == w.last());
        assert((s.current + rest).push(w.last()) =~= s.current + w);
    }
}

proof fn lemma_first(s: Splitting, c: char, rest: Seq<char>)
    ensures
        s.run(seq![c] + rest) == s.step(c).run(rest),
{
    lemma_run_split(s, seq![c], rest);
    assert(seq![c].drop_last() =~= Seq::empty());
    assert(s.run(seq![c].drop_last()) == s);
}

/// Any word can be typed with a backslash before each of its characters: the line is read as
/// that one word.
pub proof fn law_escaped_word(w: Seq<char>)
    requires
        w.len() > 0,
    ensures
        crate::cli::repl::line_words(escaped(w)) == Some(seq![w]),
{
    lemma_escaped(Splitting::start(), w);
    assert(Seq::<char>::empty() + w =~= w);
    assert(Seq::<Seq<char>>::empty().push(w) =~= seq![w]);
}

/// Any word without that mark and without a backslash can be typed between quotation marks,
/// blanks and all: the line is read as that one word.
pub proof fn law_quoted_word(w: Seq<char>, q: char)
    requires
        w.len() > 0,
        q == '\'' || q == '"',
        forall|i: int| 0 <= i < w.len() ==> #[trigger] w[i] != q && w[i] != '\\',
    ensures
        crate::cli::repl::line_words(quoted(w, q)) == Some(seq![w]),
{
    let s = Splitting::start();
    assert(quoted(w, q) =~= seq![q] + (w + seq![q]));
    lemma_first(s, q, w + seq![q]);
    let o = s.step(q);
    lemma_run_split(o, w, seq![q]);
    lemma_within(o, w, q);
    let m = o.run(w);
    lemma_first(m, q, Seq::empty());
    assert(seq![q] + Seq::empty() =~= seq![q]);
    assert(Seq::<char>::empty() + w =~= w);
    assert(Seq::<Seq<char>>::empty().push(w) =~= seq![w]);
}

/// A quotation mark left open is an error, whatever follows it that does not close it.
pub proof fn law_open_quote(w: Seq<char>, q: char)
    requires
        q == '\'' || q == '"',
        forall|i: int| 0 <= i < w.len() ==> #[trigger] w[i] != q && w[i] != '\\',
    ensures
        crate::cli::repl::line_words(seq![q] + w) is None,
{
    let s = Splitting::start();
    lemma_first(s, q, w);
    lemma_within(s.step(q), w, q);
}

/// Whether a text is plain: without white space, quotation marks and backslashes.
pub open spec fn plain(w: Seq<char>) -> bool {
    forall|i: int|
        0 <= i < w.len() ==> {
            &&& !crate::text::is_space(#[trigger] w[i])
            &&& w[i] != '\'' && w[i] != '"' && w[i] != '\\'
        }
}

proof fn lemma_plain(s: Splitting, w: Seq<char>)
    requires
        !s.escaped,
        s.quote is None,
        plain(w),
    ensures
        s.run(w) == (Splitting { current: s.current + w, ..s }),
    decreases w.len(),
{
    if w.len() == 0 {
        assert(s.current + w =~= s.current);
    } else {
        let rest = w.drop_last();
        assert(plain(rest)) by {
            assert forall|i: int| 0 <= i < rest.len() implies {
                &&& !crate::text::is_space(#[trigger] rest[i])
                &&& rest[i] != '\'' && rest[i] != '"' && rest[i] != '\\'
            } by {
                assert(rest[i] == w[i]);
            }
        }
        lemma_plain(s, rest);
        assert(w[w.len() - 1] == w.last());
        assert((s.current + rest).push(w.last()) =~= s.current + w);
    }
}

proof fn lemma_behind(s: Splitting, ws: Seq<Seq<char>>, b: Seq<char>)
    ensures
        (Splitting { words: ws + s.words, ..s }).run(b) == (Splitting {
            words: ws + s.run(b).words,
            ..s.run(b)
        }),
    decreases b.len(),
{
    if b.len() > 0 {
        lemma_behind(s, ws, b.drop_last());
        let m = s.run(b.drop_last());
        assert((ws + m.words).push(m.current) =~= ws + m.words.push(m.current));
    }
}

/// White space separates words and is else of no account: a plain word is read as it is, white
/// space at the beginning of a line is passed over, and behind a word and white space the rest of
/// the line is read as if it stood alone.
pub proof fn law_plain_words(w: Seq<char>, c: char, b: Seq<char>)
    requires
        w.len() > 0,
        plain(w),
        crate::text::is_space(c),
    ensures
        crate::cli::repl::line_words(w) == Some(seq![w]),
        crate::cli::repl::line_words(seq![c] + b) == crate::cli::repl::line_words(b),
        crate::cli::repl::line_words(w + (seq![c] + b)) == (match crate::cli::repl::line_words(b) {
            Some(ws) => Some(seq![w] + ws),
            None => None,
        }),
{
    let s = Splitting::start();
    lemma_plain(s, w);
    assert(Seq::<char>::empty() + w =~= w);
    assert(Seq::<Seq<char>>::empty().push(w) =~= seq![w]);
    assert(c != '\'' && c != '"' && c != '\\') by {
        crate::laws::sessions::law_white_space(c);
    }
    lemma_first(s, c, b);
    lemma_run_split(s, w, seq![c] + b);
    let m = s.run(w);
    lemma_first(m, c, b);
    lemma_behind(s, seq![w], b);
    assert(seq![w] + s.words =~= seq![w]);
    let r = s.run(b);
    if r.escaped {
        assert((seq![w] + r.words).push(r.current.push('\\')) =~= seq![w] + r.words.push(
            r.current.push('\\'),
        ));
    } else {
        assert((seq![w] + r.words).push(r.current) =~= seq![w] + r.words.push(r.current));
    }
}

/// What stands between quotation marks belongs to the word that it stands in, and so does a
/// backslash at the end of a line; quotation marks around nothing make no word.
pub proof fn law_glued(p: Seq<char>, w: Seq<char>, q: char)
    requires
        p.len() > 0,
        plain(p),
        q == '\'' || q == '"',
        forall|i: int| 0 <= i < w.len() ==> #[trigger] w[i] != q && w[i] != '\\',
    ensures
        crate::cli::repl::line_words(p + quoted(w, q)) == Some(seq![p + w]),
        crate::cli::repl::line_words(p + seq!['\\']) == Some(seq![p.push('\\')]),
        crate::cli::repl::line_words(seq![q, q]) == Some(Seq::<Seq<char>>::empty()),
{
    let s = Splitting::start();
    lemma_plain(s, p);
    assert(Seq::<char>::empty() + p =~= p);
    let m = s.run(p);
    lemma_run_split(s, p, quoted(w, q));
    assert(quoted(w, q) =~= seq![q] + (w + seq![q]));
    lemma_first(m, q, w + seq![q]);
    let o = m.step(q);
    lemma_run_split(o, w, seq![q]);
    lemma_within(o, w, q);
    let n = o.run(w);
    lemma_first(n, q, Seq::empty());
    assert(seq![q] + Seq::empty() =~= seq![q]);
    assert(Seq::<Seq<char>>::empty().push(p + w) =~= seq![p + w]);
    lemma_run_split(s, p, seq!['\\']);
    lemma_first(m, '\\', Seq::empty());
    assert(seq!['\\'] + Seq::empty() =~= seq!['\\']);
    assert(Seq::<Seq<char>>::empty().push(p.push('\\')) =~= seq![p.push('\\')]);
    assert(seq![q, q] =~= seq![q] + seq![q]);
    lemma_first(s, q, seq![q]);
    lemma_first(s.step(q), q, Seq::empty());
    assert(s.step(q).step(q) =~= s);
}

} // verus!
