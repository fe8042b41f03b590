use vstd::prelude::*;

use crate::corpus::{clamp_group, in_group, Corpus, CorpusError, LengthGroup, Quote};
use crate::text::{
    chars_of, concat_lines, copy_chars, lemma_wrap_laws, line_fits, lines_view, wrap, wrap_text,
    MAX_LENGTH_PER_LINE,
};

verus! {

/// Whether `c` is a whitespace character, as `char::is_whitespace` decides.
pub uninterp spec fn is_ws(c: char) -> bool;

/// Relies on `char::is_whitespace`: whether `c` has the Unicode White_Space property, which
/// the space character has.
#[verifier::external_body]
fn is_whitespace(c: char) -> (r: bool)
    ensures
        r == is_ws(c),
        c == ' ' ==> r,
{
    c.is_whitespace()
}

/// The key presses that a session reacts to.
#[derive(Debug, Clone, Copy, PartialEq, Eq, Structural)]
pub enum Key {
    Esc,
    Left,
    Right,
    Tab,
    Backspace,
    Char(char),
    Other,
}

/// The character expected at position `i` of `line`: a space past its end.
pub open spec fn char_at(line: Seq<char>, i: int) -> char {
    if 0 <= i < line.len() {
        line[i]
    } else {
        ' '
    }
}

/// How many positions of `typed` hold the character that `expected` has there.
pub open spec fn matching(typed: Seq<char>, expected: Seq<char>) -> nat
    decreases typed.len(),
{
    if typed.len() == 0 {
        0
    } else {
        matching(typed.drop_last(), expected) + if typed.last() == char_at(
            expected,
            typed.len() - 1,
        ) {
            1nat
        } else {
            0nat
        }
    }
}

/// How many whitespace characters `s` holds.
pub open spec fn ws_count(s: Seq<char>) -> nat
    decreases s.len(),
{
    if s.len() == 0 {
        0
    } else {
        ws_count(s.drop_last()) + if is_ws(s.last()) {
            1nat
        } else {
            0nat
        }
    }
}

/// How many characters of the committed lines `typed` match the lines `lines` they were
/// typed for.
pub open spec fn matched_lines(typed: Seq<Seq<char>>, lines: Seq<Seq<char>>) -> nat
    decreases typed.len(),
{
    if typed.len() == 0 {
        0
    } else {
        matched_lines(typed.drop_last(), lines) + matching(
            typed.last(),
            lines[typed.len() - 1],
        )
    }
}

/// The group one step to the left of `sel` among `n` groups, wrapping from the first to the
/// last.
pub open spec fn step_left(sel: usize, n: nat) -> usize {
    if sel == 0 {
        if n == 0 {
            0
        } else {
            (n - 1) as usize
        }
    } else {
        (sel - 1) as usize
    }
}

/// The group one step to the right of `sel` among `n` groups, wrapping from the last to the
/// first.
pub open spec fn step_right(sel: usize, n: nat) -> usize {
    if sel + 1 >= n {
        0
    } else {
        (sel + 1) as usize
    }
}

proof fn lemma_ws_count_le(s: Seq<char>)
    ensures
        ws_count(s) <= s.len(),
    decreases s.len(),
{
    if s.len() > 0 {
        lemma_ws_count_le(s.drop_last());
    }
}

proof fn lemma_matching_le(t: Seq<char>, e: Seq<char>)
    ensures
        matching(t, e) <= t.len(),
    decreases t.len(),
{
    if t.len() > 0 {
        lemma_matching_le(t.drop_last(), e);
    }
}

proof fn lemma_concat_same_lengths(a: Seq<Seq<char>>, b: Seq<Seq<char>>)
    requires
        a.len() == b.len(),
        forall|i: int| 0 <= i < a.len() ==> #[trigger] a[i].len() == b[i].len(),
    ensures
        concat_lines(a).len() == concat_lines(b).len(),
    decreases a.len(),
{
    if a.len() > 0 {
        lemma_concat_same_lengths(a.drop_last(), b.drop_last());
    }
}

proof fn lemma_concat_prefix(ls: Seq<Seq<char>>, k: int)
    requires
        0 <= k <= ls.len(),
    ensures
        concat_lines(ls.take(k)).len() <= concat_lines(ls).len(),
    decreases ls.len(),
{
    if k < ls.len() {
        assert(ls.drop_last().take(k) =~= ls.take(k));
        lemma_concat_prefix(ls.drop_last(), k);
    } else {
        assert(ls.take(k) =~= ls);
    }
}

/// The state of one typing session: the wrapped quote, how far it has been typed, and the
/// tallies that the statistics are made of. Times are milliseconds of a clock that the caller
/// reads.
#[derive(Debug)]
pub struct App {
    /// When the first key of the current attempt was pressed.
    pub start: u64,
    /// Characters of committed lines that matched.
    pub correct: usize,
    /// Characters of committed lines that did not match.
    pub incorrect: usize,
    /// Whitespace boundaries crossed.
    pub words: usize,
    /// The line being typed; all lines before it are committed.
    pub current_line: usize,
    /// The chosen length group.
    pub selected_group: usize,
    pub groups: Vec<LengthGroup>,
    /// The wrapped quote.
    pub sentence: Vec<Vec<char>>,
    pub sentence_source: String,
    /// What was typed for each committed line.
    pub typed: Vec<Vec<char>>,
    /// What has been typed so far of the current line.
    pub typing: Vec<char>,
    /// Set once the user asked to quit.
    pub exit: bool,
    /// When the last line was committed.
    pub done: Option<u64>,
}

impl App {
    /// The lines of the quote.
    pub open spec fn lines(&self) -> Seq<Seq<char>> {
        lines_view(self.sentence@)
    }

    /// What was typed for each committed line.
    pub open spec fn committed(&self) -> Seq<Seq<char>> {
        lines_view(self.typed@)
    }

    /// No key has been pressed for the current quote.
    pub open spec fn idle(&self) -> bool {
        self.typing@.len() == 0 && self.current_line == 0
    }

    /// The session's consistency: committed lines come first and have their lines' lengths,
    /// the buffer stays shorter than its line, the tallies count what was committed and typed
    /// (`correct` the matching characters of committed lines, `incorrect` the others),
    /// and `done` marks that every line of a non-empty quote is committed.
    pub open spec fn wf(&self) -> bool {
        &&& self.current_line <= self.sentence@.len()
        &&& self.typed@.len() == self.current_line
        &&& forall|i: int|
            0 <= i < self.sentence@.len() - 1 ==> #[trigger] self.sentence@[i]@.len() > 0
        &&& self.sentence@.len() > 0 ==> self.sentence@[0]@.len() > 0
        &&& concat_lines(self.lines()).len() <= usize::MAX
        &&& forall|i: int|
            0 <= i < self.current_line ==> #[trigger] self.typed@[i]@.len()
                == self.sentence@[i]@.len()
        &&& self.current_line < self.sentence@.len() ==> self.typing@.len()
            < self.sentence@[self.current_line as int]@.len()
        &&& self.current_line == self.sentence@.len() ==> self.typing@.len() == 0
        &&& self.correct + self.incorrect == concat_lines(
            self.lines().take(self.current_line as int),
        ).len()
        &&& self.correct == matched_lines(self.committed(), self.lines())
        &&& self.words == ws_count(concat_lines(self.committed()) + self.typing@)
        &&& (self.done is Some <==> (self.current_line == self.sentence@.len()
            && self.sentence@.len() > 0))
    }

    /// `post` keeps the quote, the group choice and the quit flag of `pre`.
    pub open spec fn same_setup(pre: App, post: App) -> bool {
        &&& post.selected_group == pre.selected_group
        &&& post.groups == pre.groups
        &&& post.sentence == pre.sentence
        &&& post.sentence_source == pre.sentence_source
        &&& post.exit == pre.exit
    }

    /// `post` keeps the progress and tallies of `pre`.
    pub open spec fn same_progress(pre: App, post: App) -> bool {
        &&& post.correct == pre.correct
        &&& post.incorrect == pre.incorrect
        &&& post.current_line == pre.current_line
        &&& post.typed == pre.typed
        &&& post.done == pre.done
    }

    /// The line after the current one is the last and is empty (a text that ends in a space
    /// right after a full line wraps so): it has nothing to type, and is committed, with zero
    /// characters, together with the current one.
    pub open spec fn empty_line_follows(a: App) -> bool {
        &&& a.current_line + 2 == a.sentence@.len()
        &&& a.sentence@[a.current_line + 1]@.len() == 0
    }

    /// `post` is `pre` after the character `c`, whitespace exactly when `ws`, was typed at
    /// time `now`. Nothing happens once every line is committed. Otherwise the first key of
    /// an attempt records the start time; a whitespace character is accepted only where the line expects a space, and any other
    /// character only where it does not. An accepted character joins the buffer, and a
    /// whitespace one counts a word. A buffer as long as its line is committed: tallied,
    /// kept, emptied, and the next line becomes current (an empty last line is committed
    /// along, see `empty_line_follows`); the commit of the last line records `now` as the end.
    pub open spec fn typed_char(pre: App, post: App, c: char, ws: bool, now: u64) -> bool {
        let cl = pre.current_line as int;
        let line = pre.lines()[cl];
        let expected = char_at(line, pre.typing@.len() as int);
        let buf = pre.typing@.push(c);
        if cl >= pre.sentence@.len() {
            post == pre
        } else {
            &&& App::same_setup(pre, post)
            &&& post.start == if pre.idle() {
                now
            } else {
                pre.start
            }
            &&& if (ws && expected != ' ') || (!ws && expected == ' ') {
                &&& App::same_progress(pre, post)
                &&& post.words == pre.words
                &&& post.typing == pre.typing
            } else {
                &&& post.words == pre.words + if ws {
                    1int
                } else {
                    0int
                }
                &&& if buf.len() == line.len() {
                    &&& post.correct == pre.correct + matching(buf, line)
                    &&& post.incorrect == pre.incorrect + buf.len() - matching(buf, line)
                    &&& post.correct + post.incorrect == pre.correct + pre.incorrect + line.len()
                    &&& post.committed() == if App::empty_line_follows(pre) {
                        pre.committed().push(buf).push(Seq::empty())
                    } else {
                        pre.committed().push(buf)
                    }
                    &&& post.typing@.len() == 0
                    &&& post.current_line == if App::empty_line_follows(pre) {
                        cl + 2
                    } else {
                        cl + 1
                    }
                    &&& post.done == if post.current_line == pre.sentence@.len() {
                        Some(now)
                    } else {
                        pre.done
                    }
                } else {
                    &&& App::same_progress(pre, post)
                    &&& post.typing@ == buf
                }
            }
        }
    }

    /// `post` is `pre` after Backspace: the buffer's last character, if any, is removed, and
    /// a whitespace one takes its word back. A committed line cannot be edited.
    pub open spec fn erased(pre: App, post: App) -> bool {
        if pre.typing@.len() == 0 {
            post == pre
        } else {
            &&& App::same_setup(pre, post)
            &&& App::same_progress(pre, post)
            &&& post.start == pre.start
            &&& post.typing@ == pre.typing@.drop_last()
            &&& post.words == pre.words - if is_ws(pre.typing@.last()) {
                1int
            } else {
                0int
            }
        }
    }

    proof fn lemma_room(a: App)
        requires
            a.wf(),
            a.current_line < a.sentence@.len(),
        ensures
            concat_lines(a.committed()).len() == concat_lines(
                a.lines().take(a.current_line as int),
            ).len(),
            concat_lines(a.lines().take(a.current_line + 1)) == concat_lines(
                a.lines().take(a.current_line as int),
            ) + a.lines()[a.current_line as int],
            concat_lines(a.lines().take(a.current_line + 1)).len() <= usize::MAX,
    {
        let cl = a.current_line as int;
        let ls = a.lines();
        assert forall|i: int| 0 <= i < cl implies #[trigger] a.committed()[i].len() == ls.take(
            cl,
        )[i].len() by {
            assert(a.typed@[i]@.len() == a.sentence@[i]@.len());
        }
        lemma_concat_same_lengths(a.committed(), ls.take(cl));
        assert(ls.take(cl + 1).drop_last() =~= ls.take(cl));
        lemma_concat_prefix(ls, cl + 1);
    }

    /// Types the character `c` at time `now` (see `typed_char`).
    pub fn type_char(&mut self, c: char, now: u64)
        requires
            old(self).wf(),
        ensures
            final(self).wf(),
            App::typed_char(*old(self), *final(self), c, is_ws(c), now),
    {
        let ws = is_whitespace(c);
        self.type_classified(c, ws, now);
    }

    /// Types the character `c`, of which `ws` tells whether it is whitespace, at time `now`
    /// (see `typed_char`).
    #[verifier::rlimit(50)]
    pub fn type_classified(&mut self, c: char, ws: bool, now: u64)
        requires
            old(self).wf(),
            ws == is_ws(c),
        ensures
            final(self).wf(),
            App::typed_char(*old(self), *final(self), c, ws, now),
    {
        if self.current_line >= self.sentence.len() {
            return ;
        }
        if self.typing.len() == 0 && self.current_line == 0 {
            self.start = now;
        }
        let cl = self.current_line;
        let expected = expected_at(&self.sentence[cl], self.typing.len());
        if ws && expected != ' ' {
            return ;
        }
        if !ws && expected == ' ' {
            return ;
        }
        let ghost pre = *self;
        let ghost x = concat_lines(self.committed()) + self.typing@;
        proof {
            App::lemma_room(*self);
            assert(x.push(c) =~= concat_lines(self.committed()) + self.typing@.push(c));
            assert(x.push(c).drop_last() =~= x);
            lemma_ws_count_le(x.push(c));
        }
        if ws {
            self.words += 1;
        }
        self.typing.push(c);
        if self.typing.len() == self.sentence[cl].len() {
            self.count_mistakes();
            let t = copy_chars(&self.typing);
            self.typed.push(t);
            self.typing = Vec::new();
            self.current_line += 1;
            proof {
                lemma_matching_le(pre.typing@.push(c), pre.lines()[cl as int]);
                assert(self.committed() =~= pre.committed().push(pre.typing@.push(c)));
                assert(self.committed().drop_last() =~= pre.committed());
                assert(self.lines() == pre.lines());
                assert(concat_lines(self.committed()) + self.typing@ =~= x.push(c));
                assert(self.correct == matched_lines(self.committed(), self.lines()));
            }
            if self.current_line < self.sentence.len() && self.sentence.len() - self.current_line
                == 1 && self.sentence[self.current_line].len() == 0 {
                let ghost mid = *self;
                self.typed.push(Vec::new());
                self.current_line += 1;
                proof {
                    let ls = self.lines();
                    assert(self.committed() =~= mid.committed().push(Seq::empty()));
                    assert(self.committed().drop_last() =~= mid.committed());
                    assert(concat_lines(self.committed()) =~= concat_lines(mid.committed()));
                    assert(ls.take(cl + 2).drop_last() =~= ls.take(cl + 1));
                    assert(concat_lines(ls.take(cl + 2)) =~= concat_lines(ls.take(cl + 1)));
                    assert(matching(Seq::empty(), ls[cl + 1]) == 0);
                    assert(mid.lines() == ls);
                    assert(matched_lines(self.committed(), ls) == matched_lines(mid.committed(), ls)
                        + matching(Seq::empty(), ls[cl + 1]));
                }
            }
            if self.current_line == self.sentence.len() {
                self.done = Some(now);
            }
            proof {
                assert forall|i: int| 0 <= i < self.current_line implies #[trigger] self.typed@[i]@.len()
                    == self.sentence@[i]@.len() by {
                    if i < cl {
                        assert(self.typed@[i] == pre.typed@[i]);
                    }
                }
                let ls = self.lines();
                let k = self.current_line as int;
                assert(k < ls.len() ==> self.typing@.len() < ls[k].len());
                assert(self.correct + self.incorrect == concat_lines(ls.take(k)).len());
                assert(self.correct == matched_lines(self.committed(), ls));
                assert(self.words == ws_count(concat_lines(self.committed()) + self.typing@));
                assert(self.done is Some <==> (k == ls.len() && ls.len() > 0));
            }
        }
    }

    /// Removes the last typed character of the current line, if any (see `erased`).
    pub fn backspace(&mut self)
        requires
            old(self).wf(),
        ensures
            final(self).wf(),
            App::erased(*old(self), *final(self)),
    {
        let ghost pre = *self;
        let ghost x = concat_lines(self.committed()) + self.typing@;
        if self.typing.len() == 0 {
            return ;
        }
        let ch = self.typing.pop().unwrap();
        proof {
            assert(x.drop_last() =~= concat_lines(self.committed()) + self.typing@);
            assert(x.last() == ch);
            assert(pre.typing@.last() == ch);
            assert(ws_count(x) == ws_count(x.drop_last()) + if is_ws(ch) {
                1nat
            } else {
                0nat
            });
        }
        if is_whitespace(ch) && self.words > 0 {
            self.words -= 1;
        }
    }

    /// A session with no quote and nothing typed, started at `now`.
    pub fn new(now: u64) -> (r: App)
        ensures
            r.wf(),
            r.idle(),
            r.start == now,
            r.selected_group == 0,
            r.groups@.len() == 0,
            r.sentence@.len() == 0,
            r.typed@.len() == 0,
            r.correct == 0,
            r.incorrect == 0,
            r.words == 0,
            !r.exit,
            r.done is None,
    {
        let r = App {
            start: now,
            correct: 0,
            incorrect: 0,
            words: 0,
            current_line: 0,
            selected_group: 0,
            groups: Vec::new(),
            sentence: Vec::new(),
            sentence_source: String::new(),
            typed: Vec::new(),
            typing: Vec::new(),
            exit: false,
            done: None,
        };
        proof {
            assert(r.lines() =~= Seq::<Seq<char>>::empty());
            assert(r.lines().take(0) =~= Seq::<Seq<char>>::empty());
            assert(r.committed() =~= Seq::<Seq<char>>::empty());
            assert(concat_lines(r.committed()) + r.typing@ =~= Seq::<char>::empty());
        }
        r
    }

    proof fn lemma_idle_counters(a: App)
        requires
            a.wf(),
            a.idle(),
        ensures
            a.correct == 0,
            a.incorrect == 0,
            a.words == 0,
    {
        assert(a.lines().take(0) =~= Seq::<Seq<char>>::empty());
        assert(a.committed() =~= Seq::<Seq<char>>::empty());
        assert(concat_lines(a.committed()) + a.typing@ =~= Seq::<char>::empty());
    }

    /// Puts `quote` in front of an idle session: its text, wrapped at the line width, becomes
    /// the lines to type, and its source the attribution. A quote without text has nothing to
    /// type: it is refused with `EmptyQuote`, and the session is left without lines.
    pub fn start_quote(&mut self, quote: &Quote) -> (r: Result<(), CorpusError>)
        requires
            old(self).wf(),
            old(self).idle(),
        ensures
            final(self).wf(),
            final(self).idle(),
            r is Err <==> quote.text@.len() == 0,
            r matches Err(e) ==> e == CorpusError::EmptyQuote && final(self).sentence@.len() == 0,
            r is Ok ==> final(self).lines() == wrap_text(quote.text@, MAX_LENGTH_PER_LINE as nat),
            r is Ok ==> final(self).sentence_source@ == quote.source@,
            final(self).start == old(self).start,
            final(self).correct == 0,
            final(self).incorrect == 0,
            final(self).words == 0,
            final(self).selected_group == old(self).selected_group,
            final(self).groups == old(self).groups,
            final(self).exit == old(self).exit,
            final(self).typed@.len() == 0,
            final(self).done is None,
    {
        proof {
            App::lemma_idle_counters(*self);
            assert(self.committed() =~= Seq::<Seq<char>>::empty());
        }
        let text = chars_of(quote.text.as_str());
        let text_len = text.len();
        if text_len == 0 {
            self.sentence = Vec::new();
            self.sentence_source = String::new();
            proof {
                assert(self.lines() =~= Seq::<Seq<char>>::empty());
                assert(self.lines().take(0) =~= Seq::<Seq<char>>::empty());
            }
            return Err(CorpusError::EmptyQuote);
        }
        let lines = wrap(&text, MAX_LENGTH_PER_LINE);
        proof {
            lemma_wrap_laws(text@, MAX_LENGTH_PER_LINE as nat);
        }
        self.sentence = lines;
        self.sentence_source = quote.source.clone();
        proof {
            let ls = self.lines();
            if ls.len() == 1 {
                assert(ls.drop_last() =~= Seq::<Seq<char>>::empty());
                assert(concat_lines(ls) =~= concat_lines(ls.drop_last()) + ls[0]);
            }
            assert(self.sentence@[0]@ == ls[0]);
            assert forall|i: int| 0 <= i < self.sentence@.len() - 1 implies #[trigger] self.sentence@[i]@.len() > 0 by {
                assert(self.sentence@[i]@ == ls[i]);
            }
            assert(ls.take(0) =~= Seq::<Seq<char>>::empty());
            assert(concat_lines(self.committed()) + self.typing@ =~= Seq::<char>::empty());
            assert(concat_lines(ls).len() == text_len);
        }
        Ok(())
    }

    /// `post` is an idle session on a new quote drawn from `corpus` for group `sel` (clamped to
    /// the first group when out of range), with `pre`'s start time and quit flag; when the group
    /// admits no quote, the session has no lines and the result is `EmptySelection`; when the
    /// drawn quote has no text, it has no lines either and the result is `EmptyQuote`. A drawn
    /// quote lies strictly inside the group's bounds, and its lines, laid end to end, are its
    /// text, each fitting the line width unless it is a single word.
    pub open spec fn renewed(
        pre: App,
        post: App,
        corpus: Corpus,
        sel: usize,
        r: Result<(), CorpusError>,
    ) -> bool {
        &&& post.idle()
        &&& post.typed@.len() == 0
        &&& post.groups@ == corpus.groups@
        &&& post.selected_group == clamp_group(sel, corpus.groups@.len())
        &&& post.start == pre.start
        &&& post.exit == pre.exit
        &&& post.done is None
        &&& post.correct == 0
        &&& post.incorrect == 0
        &&& post.words == 0
        &&& (r == Err::<(), CorpusError>(CorpusError::EmptySelection) <==> corpus.candidates_spec(
            post.selected_group,
        ).len() == 0)
        &&& (r is Err ==> post.sentence@.len() == 0)
        &&& (r == Err::<(), CorpusError>(CorpusError::EmptyQuote) ==> exists|i: usize|
            #![trigger corpus.quotes@[i as int]]
            {
                &&& corpus.candidates_spec(post.selected_group).contains(i)
                &&& i < corpus.quotes@.len()
                &&& corpus.quotes@[i as int].text@.len() == 0
            })
        &&& (r is Ok ==> exists|i: usize|
            #![trigger corpus.quotes@[i as int]]
            {
                let q = corpus.quotes@[i as int];
                &&& corpus.candidates_spec(post.selected_group).contains(i)
                &&& i < corpus.quotes@.len()
                &&& in_group(q.length, corpus.groups@[post.selected_group as int])
                &&& q.text@.len() > 0
                &&& post.lines() == wrap_text(q.text@, MAX_LENGTH_PER_LINE as nat)
                &&& concat_lines(post.lines()) == q.text@
                &&& forall|k: int|
                    0 <= k < post.lines().len() ==> line_fits(
                        post.lines(),
                        k,
                        MAX_LENGTH_PER_LINE as nat,
                    )
                &&& post.sentence_source@ == q.source@
            })
    }

    /// Draws a new quote from `corpus` for the selected group into an idle session, taking
    /// the corpus's groups; an out-of-range selection becomes the first group.
    pub fn new_quote(&mut self, corpus: &Corpus) -> (r: Result<(), CorpusError>)
        requires
            old(self).wf(),
            old(self).idle(),
        ensures
            final(self).wf(),
            App::renewed(*old(self), *final(self), *corpus, old(self).selected_group, r),
    {
        proof {
            App::lemma_idle_counters(*self);
        }
        let mut groups: Vec<LengthGroup> = Vec::new();
        let mut k: usize = 0;
        while k < corpus.groups.len()
            invariant
                k <= corpus.groups@.len(),
                groups@ == corpus.groups@.take(k as int),
            decreases corpus.groups.len() - k,
        {
            groups.push(corpus.groups[k]);
            k += 1;
            assert(groups@ =~= corpus.groups@.take(k as int));
        }
        assert(groups@ =~= corpus.groups@);
        let n = corpus.groups.len();
        self.groups = groups;
        if self.selected_group >= n {
            self.selected_group = 0;
        }
        match corpus.select(self.selected_group) {
            Ok(i) => {
                let r = self.start_quote(&corpus.quotes[i]);
                proof {
                    lemma_wrap_laws(corpus.quotes@[i as int].text@, MAX_LENGTH_PER_LINE as nat);
                }
                r
            },
            Err(e) => {
                self.sentence = Vec::new();
                self.sentence_source = String::new();
                proof {
                    assert(self.lines() =~= Seq::<Seq<char>>::empty());
                    assert(self.lines().take(0) =~= Seq::<Seq<char>>::empty());
                }
                Err(e)
            },
        }
    }

    /// `post` is `pre` with the quit flag set.
    pub open spec fn quit(pre: App, post: App) -> bool {
        &&& post.exit
        &&& post.start == pre.start
        &&& post.words == pre.words
        &&& post.typing == pre.typing
        &&& App::same_progress(pre, post)
        &&& post.selected_group == pre.selected_group
        &&& post.groups == pre.groups
        &&& post.sentence == pre.sentence
        &&& post.sentence_source == pre.sentence_source
    }

    /// Applies one key press at time `now`. Esc asks to quit. Left and Right, on an idle
    /// session only, step the selection through the corpus's groups with wrap-around (Left
    /// from the first group gives the last, Right from the last gives the first) and draw a
    /// new quote for it.
    /// Tab draws a new quote for the same group on an idle session, and on a finished one
    /// first clears the progress and tallies; while typing it does nothing. A character is
    /// typed (see `typed_char`) and Backspace erases (see `erased`). Only drawing a quote can
    /// fail, with `EmptySelection`.
    pub fn handle_key_event(&mut self, corpus: &Corpus, key: Key, now: u64) -> (r: Result<
        (),
        CorpusError,
    >)
        requires
            old(self).wf(),
        ensures
            final(self).wf(),
            key == Key::Esc ==> r is Ok && App::quit(*old(self), *final(self)),
            key == Key::Left ==> if old(self).idle() {
                App::renewed(
                    *old(self),
                    *final(self),
                    *corpus,
                    step_left(old(self).selected_group, corpus.groups@.len()),
                    r,
                )
            } else {
                r is Ok && *final(self) == *old(self)
            },
            key == Key::Right ==> if old(self).idle() {
                App::renewed(
                    *old(self),
                    *final(self),
                    *corpus,
                    step_right(old(self).selected_group, corpus.groups@.len()),
                    r,
                )
            } else {
                r is Ok && *final(self) == *old(self)
            },
            key == Key::Tab ==> if old(self).idle() || old(self).done is Some {
                App::renewed(*old(self), *final(self), *corpus, old(self).selected_group, r)
            } else {
                r is Ok && *final(self) == *old(self)
            },
            key matches Key::Char(c) ==> r is Ok && App::typed_char(
                *old(self),
                *final(self),
                c,
                is_ws(c),
                now,
            ),
            key == Key::Backspace ==> r is Ok && App::erased(*old(self), *final(self)),
            key == Key::Other ==> r is Ok && *final(self) == *old(self),
            key == Key::Left && old(self).idle() && old(self).selected_group == 0
                && corpus.groups@.len() > 0 ==> final(self).selected_group == corpus.groups@.len()
                - 1,
            key == Key::Right && old(self).idle() && old(self).selected_group + 1
                == corpus.groups@.len() ==> final(self).selected_group == 0,
    {
        match key {
            Key::Esc => {
                self.exit = true;
                Ok(())
            },
            Key::Left => {
                if self.typing.len() != 0 || self.current_line != 0 {
                    return Ok(());
                }
                if self.selected_group == 0 {
                    self.selected_group = corpus.groups.len().saturating_sub(1);
                } else {
                    self.selected_group -= 1;
                }
                self.new_quote(corpus)
            },
            Key::Right => {
                if self.typing.len() != 0 || self.current_line != 0 {
                    return Ok(());
                }
                if self.selected_group >= corpus.groups.len() || self.selected_group + 1
                    >= corpus.groups.len() {
                    self.selected_group = 0;
                } else {
                    self.selected_group += 1;
                }
                self.new_quote(corpus)
            },
            Key::Tab => {
                if self.typing.len() == 0 && self.current_line == 0 {
                    return self.new_quote(corpus);
                }
                if self.done.is_some() {
                    self.correct = 0;
                    self.incorrect = 0;
                    self.words = 0;
                    self.current_line = 0;
                    self.typing = Vec::new();
                    self.typed = Vec::new();
                    self.done = None;
                    proof {
                        assert(self.lines().take(0) =~= Seq::<Seq<char>>::empty());
                        assert(self.committed() =~= Seq::<Seq<char>>::empty());
                        assert(concat_lines(self.committed()) + self.typing@ =~= Seq::<
                            char,
                        >::empty());
                    }
                    self.new_quote(corpus)
                } else {
                    Ok(())
                }
            },
            Key::Char(c) => {
                self.type_char(c, now);
                Ok(())
            },
            Key::Backspace => {
                self.backspace();
                Ok(())
            },
            Key::Other => Ok(()),
        }
    }

    /// The live tally of the current line's buffer, not yet committed: characters that match
    /// and characters that do not.
    pub fn preview(&self) -> (r: (usize, usize))
        ensures
            self.current_line < self.sentence@.len() ==> r.0 == matching(
                self.typing@,
                self.lines()[self.current_line as int],
            ) && r.0 + r.1 == self.typing@.len(),
            self.current_line >= self.sentence@.len() ==> r == (0usize, 0usize),
    {
        if self.current_line >= self.sentence.len() {
            return (0, 0);
        }
        let line = &self.sentence[self.current_line];
        let mut correct: usize = 0;
        let mut incorrect: usize = 0;
        let mut i: usize = 0;
        while i < self.typing.len()
            invariant
                line@ == self.lines()[self.current_line as int],
                i <= self.typing@.len(),
                correct == matching(self.typing@.take(i as int), line@),
                correct + incorrect == i,
            decreases self.typing.len() - i,
        {
            assert(self.typing@.take(i + 1).drop_last() =~= self.typing@.take(i as int));
            if self.typing[i] == expected_at(line, i) {
                correct += 1;
            } else {
                incorrect += 1;
            }
            i += 1;
        }
        assert(self.typing@.take(i as int) =~= self.typing@);
        (correct, incorrect)
    }

    /// `post` is `pre` with the current line's typed characters tallied: `correct` grows by the
    /// matching positions and `incorrect` by the others.
    pub open spec fn tallied(pre: App, post: App) -> bool {
        let line = pre.lines()[pre.current_line as int];
        &&& post.correct == pre.correct + matching(pre.typing@, line)
        &&& post.incorrect == pre.incorrect + pre.typing@.len() - matching(pre.typing@, line)
    }

    /// Tallies the characters typed on the current line against that line, position by
    /// position: a position past the line's end expects a space.
    pub fn count_mistakes(&mut self)
        requires
            old(self).current_line < old(self).sentence@.len(),
            old(self).correct + old(self).incorrect + old(self).typing@.len() <= usize::MAX,
        ensures
            App::tallied(*old(self), *final(self)),
            final(self).start == old(self).start,
            final(self).words == old(self).words,
            final(self).current_line == old(self).current_line,
            final(self).selected_group == old(self).selected_group,
            final(self).groups == old(self).groups,
            final(self).sentence == old(self).sentence,
            final(self).sentence_source == old(self).sentence_source,
            final(self).typed == old(self).typed,
            final(self).typing == old(self).typing,
            final(self).exit == old(self).exit,
            final(self).done == old(self).done,
    {
        let line = &self.sentence[self.current_line];
        let mut correct = self.correct;
        let mut incorrect = self.incorrect;
        let mut i: usize = 0;
        while i < self.typing.len()
            invariant
                line@ == self.lines()[self.current_line as int],
                i <= self.typing@.len(),
                self.correct + self.incorrect + self.typing@.len() <= usize::MAX,
                correct == self.correct + matching(self.typing@.take(i as int), line@),
                correct + incorrect == self.correct + self.incorrect + i,
            decreases self.typing.len() - i,
        {
            assert(self.typing@.take(i + 1).drop_last() =~= self.typing@.take(i as int));
            if self.typing[i] == expected_at(line, i) {
                correct += 1;
            } else {
                incorrect += 1;
            }
            i += 1;
        }
        assert(self.typing@.take(i as int) =~= self.typing@);
        self.correct = correct;
        self.incorrect = incorrect;
    }
}

/// For each typed position, whether it holds the character that `expected` has there.
pub fn correctness_mask(expected: &Vec<char>, typed: &Vec<char>) -> (r: Vec<bool>)
    ensures
        r@.len() == typed@.len(),
        forall|i: int| 0 <= i < typed@.len() ==> r@[i] == (typed@[i] == char_at(expected@, i)),
{
    let mut r: Vec<bool> = Vec::new();
    let mut i: usize = 0;
    while i < typed.len()
        invariant
            i <= typed@.len(),
            r@.len() == i,
            forall|k: int| 0 <= k < i ==> r@[k] == (typed@[k] == char_at(expected@, k)),
        decreases typed.len() - i,
    {
        r.push(typed[i] == expected_at(expected, i));
        i += 1;
    }
    r
}

/// The character that `line` expects at position `i`: a space past its end.
fn expected_at(line: &Vec<char>, i: usize) -> (r: char)
    ensures
        r == char_at(line@, i as int),
{
    if i < line.len() {
        line[i]
    } else {
        ' '
    }
}

} // verus!
