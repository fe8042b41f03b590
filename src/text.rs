use vstd::prelude::*;

verus! {

/// Column width that quotes are wrapped to.
pub const MAX_LENGTH_PER_LINE: usize = 50;

/// The character sequences held by a sequence of character vectors.
pub open spec fn lines_view(v: Seq<Vec<char>>) -> Seq<Seq<char>> {
    v.map_values(|l: Vec<char>| l@)
}

/// The words of `t`: the pieces between single spaces, empty pieces included.
pub open spec fn words_of(t: Seq<char>) -> Seq<Seq<char>>
    decreases t.len(),
{
    if t.len() == 0 {
        seq![Seq::empty()]
    } else {
        let p = words_of(t.drop_last());
        if t.last() == ' ' {
            p.push(Seq::empty())
        } else {
            p.update(p.len() - 1, p.last().push(t.last()))
        }
    }
}

/// The words `ws` joined by single spaces.
pub open spec fn join_words(ws: Seq<Seq<char>>) -> Seq<char>
    decreases ws.len(),
{
    if ws.len() == 0 {
        Seq::empty()
    } else if ws.len() == 1 {
        ws[0]
    } else {
        join_words(ws.drop_last()).push(' ') + ws.last()
    }
}

/// The lines `ls` laid one after another.
pub open spec fn concat_lines(ls: Seq<Seq<char>>) -> Seq<char>
    decreases ls.len(),
{
    if ls.len() == 0 {
        Seq::empty()
    } else {
        concat_lines(ls.drop_last()) + ls.last()
    }
}

/// Greedy wrapping of the words `ws`: a word joins the last line when that line, a space and
/// the word fit in `width`, and starts a new line otherwise. Every line but the last ends with
/// the space that separated it from the next one.
pub open spec fn wrap_words(ws: Seq<Seq<char>>, width: nat) -> Seq<Seq<char>>
    decreases ws.len(),
{
    if ws.len() == 0 {
        Seq::empty()
    } else {
        let prev = wrap_words(ws.drop_last(), width);
        let w = ws.last();
        if prev.len() == 0 {
            seq![w]
        } else if prev.last().len() + 1 + w.len() > width {
            prev.update(prev.len() - 1, prev.last().push(' ')).push(w)
        } else {
            prev.update(prev.len() - 1, prev.last().push(' ') + w)
        }
    }
}

/// The lines that `t` wraps into at column width `width`.
pub open spec fn wrap_text(t: Seq<char>, width: nat) -> Seq<Seq<char>> {
    wrap_words(words_of(t), width)
}

/// Line `i` of `ls` without the space that ends every line but the last.
pub open spec fn line_body(ls: Seq<Seq<char>>, i: int) -> Seq<char> {
    if i + 1 < ls.len() {
        ls[i].drop_last()
    } else {
        ls[i]
    }
}

/// Line `i` of `ls` fits in `width` columns, or holds a single word.
pub open spec fn line_fits(ls: Seq<Seq<char>>, i: int, width: nat) -> bool {
    line_body(ls, i).len() <= width || !line_body(ls, i).contains(' ')
}

proof fn lemma_words_of(t: Seq<char>)
    ensures
        words_of(t).len() >= 1,
        join_words(words_of(t)) == t,
        forall|i: int, j: int|
            0 <= i < words_of(t).len() && 0 <= j < words_of(t)[i].len() ==> words_of(t)[i][j]
                != ' ',
    decreases t.len(),
{
    if t.len() > 0 {
        let tp = t.drop_last();
        lemma_words_of(tp);
        let p = words_of(tp);
        let n = p.len();
        if t.last() == ' ' {
            assert(words_of(t).drop_last() =~= p);
            assert(t =~= tp.push(' ') + Seq::<char>::empty());
        } else {
            let w = words_of(t);
            if n == 1 {
                assert(t =~= tp.push(t.last()));
            } else {
                assert(w.drop_last() =~= p.drop_last());
                assert(join_words(p) == join_words(p.drop_last()).push(' ') + p.last());
                assert(join_words(w) == join_words(p.drop_last()).push(' ') + p.last().push(
                    t.last(),
                ));
                assert(t =~= tp.push(t.last()));
                assert(tp == join_words(p));
                assert(tp.push(t.last()) =~= join_words(p.drop_last()).push(' ') + p.last().push(
                    t.last(),
                ));
            }
            assert forall|i: int, j: int|
                0 <= i < w.len() && 0 <= j < w[i].len() implies w[i][j] != ' ' by {
                if i == n - 1 && j + 1 < w[i].len() {
                    assert(w[i][j] == p[i][j]);
                }
            }
        }
    }
}

proof fn lemma_concat_update_last(ls: Seq<Seq<char>>, x: Seq<char>)
    requires
        ls.len() >= 1,
    ensures
        concat_lines(ls.update(ls.len() - 1, x)) == concat_lines(ls.drop_last()) + x,
{
    assert(ls.update(ls.len() - 1, x).drop_last() =~= ls.drop_last());
}

proof fn lemma_wrap_concat(ws: Seq<Seq<char>>, width: nat)
    requires
        ws.len() >= 1,
    ensures
        wrap_words(ws, width).len() >= 1,
        concat_lines(wrap_words(ws, width)) == join_words(ws),
    decreases ws.len(),
{
    if ws.len() == 1 {
        assert(wrap_words(ws.drop_last(), width) =~= Seq::<Seq<char>>::empty());
        assert(seq![ws[0]].drop_last() =~= Seq::<Seq<char>>::empty());
        assert(concat_lines(seq![ws[0]]) =~= concat_lines(Seq::<Seq<char>>::empty()) + ws[0]);
    } else {
        let wp = ws.drop_last();
        lemma_wrap_concat(wp, width);
        let prev = wrap_words(wp, width);
        let n = prev.len();
        let w = ws.last();
        let cp = concat_lines(prev);
        assert(cp == concat_lines(prev.drop_last()) + prev.last());
        if prev.last().len() + 1 + w.len() > width {
            let up = prev.update(n - 1, prev.last().push(' '));
            lemma_concat_update_last(prev, prev.last().push(' '));
            assert(wrap_words(ws, width).drop_last() == up);
            assert(concat_lines(wrap_words(ws, width)) == concat_lines(up) + w);
            assert(concat_lines(up) =~= cp.push(' '));
            assert(concat_lines(up) + w =~= cp.push(' ') + w);
        } else {
            lemma_concat_update_last(prev, prev.last().push(' ') + w);
            assert(concat_lines(prev.drop_last()) + (prev.last().push(' ') + w) =~= cp.push(' ')
                + w);
        }
    }
}

proof fn lemma_wrap_shape(ws: Seq<Seq<char>>, width: nat)
    requires
        forall|i: int, j: int| 0 <= i < ws.len() && 0 <= j < ws[i].len() ==> ws[i][j] != ' ',
    ensures
        forall|i: int| 0 <= i < wrap_words(ws, width).len() ==> line_fits(wrap_words(ws, width), i, width),
        forall|i: int|
            0 <= i < wrap_words(ws, width).len() - 1 ==> wrap_words(ws, width)[i].len() > 0
                && wrap_words(ws, width)[i].last() == ' ',
    decreases ws.len(),
{
    if ws.len() > 0 {
        let wp = ws.drop_last();
        lemma_wrap_shape(wp, width);
        let prev = wrap_words(wp, width);
        let n = prev.len();
        let w = ws.last();
        let ls = wrap_words(ws, width);
        assert(!w.contains(' ')) by {
            assert forall|j: int| 0 <= j < w.len() implies w[j] != ' ' by {
                assert(ws[ws.len() - 1][j] != ' ');
            }
        }
        if n == 0 {
            assert(line_body(ls, 0) == w);
        } else if prev.last().len() + 1 + w.len() > width {
            assert forall|i: int| 0 <= i < ls.len() implies line_fits(ls, i, width) by {
                if i < n - 1 {
                    assert(ls[i] == prev[i]);
                    assert(line_fits(prev, i, width));
                    assert(line_body(ls, i) == line_body(prev, i));
                } else if i == n - 1 {
                    assert(ls[i].drop_last() =~= prev[i]);
                    assert(line_fits(prev, i, width));
                    assert(line_body(ls, i) == line_body(prev, i));
                } else {
                    assert(line_body(ls, i) == w);
                }
            }
        } else {
            assert forall|i: int| 0 <= i < ls.len() implies line_fits(ls, i, width) by {
                if i < n - 1 {
                    assert(ls[i] == prev[i]);
                    assert(line_fits(prev, i, width));
                    assert(line_body(ls, i) == line_body(prev, i));
                } else {
                    assert(line_body(ls, i).len() == prev.last().len() + 1 + w.len());
                }
            }
            assert forall|i: int| 0 <= i < ls.len() - 1 implies ls[i].len() > 0 && ls[i].last()
                == ' ' by {
                assert(ls[i] == prev[i]);
            }
        }
    }
}

/// Wrapping loses nothing and keeps to the width: the wrapped lines, laid one after another
/// with the spaces that end them, give back `t` exactly; every line without its ending space
/// fits in `width` columns unless it is a single word; and every line but the last ends with
/// a space.
pub proof fn lemma_wrap_laws(t: Seq<char>, width: nat)
    ensures
        concat_lines(wrap_text(t, width)) == t,
        wrap_text(t, width).len() >= 1,
        forall|i: int|
            0 <= i < wrap_text(t, width).len() ==> line_fits(wrap_text(t, width), i, width),
        forall|i: int|
            0 <= i < wrap_text(t, width).len() - 1 ==> wrap_text(t, width)[i].len() > 0
                && wrap_text(t, width)[i].last() == ' ',
{
    lemma_words_of(t);
    lemma_wrap_concat(words_of(t), width);
    lemma_wrap_shape(words_of(t), width);
}

/// The characters of `s`, in order.
pub fn chars_of(s: &str) -> (r: Vec<char>)
    ensures
        r@ == s@,
{
    let mut r: Vec<char> = Vec::new();
    for c in it: s.chars()
        invariant
            it.seq() == s@,
            r@ == s@.take(it.index() as int),
    {
        r.push(c);
    }
    r
}

pub(crate) fn copy_chars(v: &Vec<char>) -> (r: Vec<char>)
    ensures
        r@ == v@,
{
    let mut r: Vec<char> = Vec::new();
    let mut i: usize = 0;
    while i < v.len()
        invariant
            i <= v.len(),
            r@ == v@.take(i as int),
        decreases v.len() - i,
    {
        r.push(v[i]);
        i += 1;
        assert(r@ =~= v@.take(i as int));
    }
    assert(v@.take(i as int) =~= v@);
    r
}

/// Splits `text` at every space; consecutive spaces give empty words.
pub fn split_words(text: &Vec<char>) -> (r: Vec<Vec<char>>)
    ensures
        lines_view(r@) == words_of(text@),
{
    let mut words: Vec<Vec<char>> = Vec::new();
    words.push(Vec::new());
    let mut i: usize = 0;
    assert(lines_view(words@) =~= words_of(text@.take(0)));
    while i < text.len()
        invariant
            i <= text.len(),
            words@.len() >= 1,
            lines_view(words@) == words_of(text@.take(i as int)),
        decreases text.len() - i,
    {
        let c = text[i];
        let ghost before = lines_view(words@);
        assert(text@.take(i + 1).drop_last() =~= text@.take(i as int));
        if c == ' ' {
            words.push(Vec::new());
            assert(lines_view(words@) =~= before.push(Seq::empty()));
        } else {
            let mut last = words.pop().unwrap();
            last.push(c);
            words.push(last);
            assert(lines_view(words@) =~= before.update(before.len() - 1, before.last().push(c)));
        }
        i += 1;
    }
    assert(text@.take(i as int) =~= text@);
    words
}

/// Wraps `text` greedily into lines of at most `max_width` columns. A word longer than the
/// width stands alone on a line of its own, and every line but the last keeps the space that
/// followed it, so that the lines laid end to end are `text` again.
pub fn wrap(text: &Vec<char>, max_width: usize) -> (r: Vec<Vec<char>>)
    ensures
        lines_view(r@) == wrap_text(text@, max_width as nat),
        concat_lines(lines_view(r@)) == text@,
        r@.len() >= 1,
        forall|i: int| 0 <= i < r@.len() ==> line_fits(lines_view(r@), i, max_width as nat),
{
    let words = split_words(text);
    let ghost ws = words_of(text@);
    let mut lines: Vec<Vec<char>> = Vec::new();
    let mut k: usize = 0;
    assert(ws.take(0) =~= Seq::<Seq<char>>::empty());
    while k < words.len()
        invariant
            k <= words.len(),
            lines_view(words@) == ws,
            lines_view(lines@) == wrap_words(ws.take(k as int), max_width as nat),
        decreases words.len() - k,
    {
        let ghost prev = lines_view(lines@);
        assert(ws.take(k + 1).drop_last() =~= ws.take(k as int));
        let word = copy_chars(&words[k]);
        assert(word@ == ws[k as int]);
        if lines.len() == 0 {
            lines.push(word);
            assert(lines_view(lines@) =~= seq![ws[k as int]]);
        } else {
            let mut last = lines.pop().unwrap();
            assert(last@ == prev.last());
            if last.len() >= max_width || word.len() > max_width - last.len() - 1 {
                last.push(' ');
                lines.push(last);
                lines.push(word);
                assert(lines_view(lines@) =~= prev.update(prev.len() - 1, prev.last().push(' ')).push(
                    ws[k as int],
                ));
            } else {
                last.push(' ');
                let mut j: usize = 0;
                let ghost base = last@;
                while j < word.len()
                    invariant
                        j <= word.len(),
                        last@ == base + word@.take(j as int),
                    decreases word.len() - j,
                {
                    last.push(word[j]);
                    j += 1;
                    assert(last@ =~= base + word@.take(j as int));
                }
                assert(word@.take(j as int) =~= word@);
                lines.push(last);
                assert(lines_view(lines@) =~= prev.update(prev.len() - 1, prev.last().push(' ')
                    + ws[k as int]));
            }
        }
        k += 1;
    }
    assert(ws.take(k as int) =~= ws);
    proof {
        lemma_wrap_laws(text@, max_width as nat);
    }
    lines
}

} // verus!
