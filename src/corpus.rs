use rand::seq::IndexedRandom;
use vstd::prelude::*;

verus! {

/// A range of quote lengths, exclusive at both ends.
#[derive(Debug, Clone, Copy, PartialEq, Eq, Structural)]
pub struct LengthGroup {
    pub min: u32,
    pub max: u32,
}

/// One quote of the corpus; `length` is the character count that the corpus gives for it.
#[derive(Debug)]
pub struct Quote {
    pub id: u32,
    pub text: String,
    pub source: String,
    pub length: u32,
}

/// The quotes to practise on, and the length groups that sort them.
#[derive(Debug)]
pub struct Corpus {
    pub language: String,
    pub groups: Vec<LengthGroup>,
    pub quotes: Vec<Quote>,
}

/// Why no quote could be picked.
#[derive(Debug, Clone, Copy, PartialEq, Eq, Structural)]
pub enum CorpusError {
    /// No quote lies strictly inside the bounds of the chosen group (or there is no group).
    EmptySelection,
    /// The quote drawn has no text, so nothing to type.
    EmptyQuote,
}

/// A quote of length `len` belongs to `g` when it lies strictly between its bounds.
pub open spec fn in_group(len: u32, g: LengthGroup) -> bool {
    g.min < len && len < g.max
}

/// The group index actually used for `index` among `n` groups: out of range means the first.
pub open spec fn clamp_group(index: usize, n: nat) -> usize {
    if index < n {
        index
    } else {
        0
    }
}

/// The positions in `quotes`, in order, of the quotes that belong to `g`.
pub open spec fn candidates_in(quotes: Seq<Quote>, g: LengthGroup) -> Seq<usize>
    decreases quotes.len(),
{
    if quotes.len() == 0 {
        Seq::empty()
    } else {
        let p = candidates_in(quotes.drop_last(), g);
        if in_group(quotes.last().length, g) {
            p.push((quotes.len() - 1) as usize)
        } else {
            p
        }
    }
}

proof fn lemma_candidates_in(quotes: Seq<Quote>, g: LengthGroup)
    requires
        quotes.len() <= usize::MAX,
    ensures
        forall|k: int|
            0 <= k < candidates_in(quotes, g).len() ==> {
                let i = #[trigger] candidates_in(quotes, g)[k];
                &&& i < quotes.len()
                &&& in_group(quotes[i as int].length, g)
            },
    decreases quotes.len(),
{
    if quotes.len() > 0 {
        let qp = quotes.drop_last();
        lemma_candidates_in(qp, g);
        let p = candidates_in(qp, g);
        assert forall|k: int| 0 <= k < p.len() implies quotes[p[k] as int] == qp[p[k] as int] by {
            assert(p[k] < qp.len());
        }
    }
}

impl Corpus {
    /// The quotes that group `group_index` admits (out of range: the first group).
    pub open spec fn candidates_spec(&self, group_index: usize) -> Seq<usize> {
        if self.groups@.len() == 0 {
            Seq::empty()
        } else {
            candidates_in(
                self.quotes@,
                self.groups@[clamp_group(group_index, self.groups@.len()) as int],
            )
        }
    }

    /// Positions, in order, of the quotes whose length lies strictly inside group
    /// `group_index`; an index out of range stands for the first group, and without groups
    /// nothing is admitted.
    pub fn candidates(&self, group_index: usize) -> (r: Vec<usize>)
        ensures
            r@ == self.candidates_spec(group_index),
    {
        let mut r: Vec<usize> = Vec::new();
        if self.groups.len() == 0 {
            return r;
        }
        let gi: usize = if group_index < self.groups.len() {
            group_index
        } else {
            0
        };
        let g = self.groups[gi];
        let mut i: usize = 0;
        while i < self.quotes.len()
            invariant
                i <= self.quotes@.len(),
                g == self.groups@[clamp_group(group_index, self.groups@.len()) as int],
                r@ == candidates_in(self.quotes@.take(i as int), g),
            decreases self.quotes.len() - i,
        {
            assert(self.quotes@.take(i + 1).drop_last() =~= self.quotes@.take(i as int));
            let len = self.quotes[i].length;
            if g.min < len && len < g.max {
                r.push(i);
            }
            i += 1;
        }
        assert(self.quotes@.take(i as int) =~= self.quotes@);
        r
    }

    /// Picks at random one of the quotes that group `group_index` admits (see `candidates`),
    /// and gives its position; fails exactly when the group admits none.
    pub fn select(&self, group_index: usize) -> (r: Result<usize, CorpusError>)
        ensures
            r is Err <==> self.candidates_spec(group_index).len() == 0,
            r matches Err(e) ==> e == CorpusError::EmptySelection,
            r matches Ok(i) ==> {
                &&& self.candidates_spec(group_index).contains(i)
                &&& self.groups@.len() > 0
                &&& i < self.quotes@.len()
                &&& in_group(
                    self.quotes@[i as int].length,
                    self.groups@[clamp_group(group_index, self.groups@.len()) as int],
                )
            },
    {
        let c = self.candidates(group_index);
        let quote_count = self.quotes.len();
        match choose_index(&c) {
            Some(i) => {
                proof {
                    if self.groups@.len() > 0 {
                        lemma_candidates_in(
                            self.quotes@,
                            self.groups@[clamp_group(group_index, self.groups@.len()) as int],
                        );
                    }
                    let k = choose|k: int| 0 <= k < c@.len() && c@[k] == i;
                    assert(c@[k] == i);
                    assert(self.quotes@.len() == quote_count);
                }
                Ok(i)
            },
            None => Err(CorpusError::EmptySelection),
        }
    }
}

/// Relies on rand's `IndexedRandom::choose` with the thread-local generator `rand::rng()`:
/// nothing for an empty slice, otherwise one of its elements.
#[verifier::external_body]
fn choose_index(items: &Vec<usize>) -> (r: Option<usize>)
    ensures
        items@.len() == 0 <==> r is None,
        r matches Some(i) ==> items@.contains(i),
{
    items.choose(&mut rand::rng()).copied()
}

} // verus!
