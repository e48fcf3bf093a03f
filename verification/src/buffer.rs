//! The bounded store of the newest data.

use std::collections::VecDeque;
use vstd::prelude::*;

use crate::datum::{Datum, Reading};
use crate::text::{extend_str, string_of};

verus! {

/// The smaller of two lengths.
pub open spec fn least(a: int, b: int) -> int {
    if a <= b {
        a
    } else {
        b
    }
}

/// The data `s`, newest first, after `d` has come in and no more than
/// `limit` are kept: `d` stands first, and of the others the oldest leave.
pub open spec fn pushed(s: Seq<Reading>, d: Reading, limit: int) -> Seq<Reading> {
    (seq![d] + s).take(least(s.len() as int + 1, limit))
}

/// The data `s` after each of `more` has come in, in the order of `more`.
pub open spec fn pushed_all(s: Seq<Reading>, more: Seq<Reading>, limit: int) -> Seq<Reading>
    decreases more.len(),
{
    if more.len() == 0 {
        s
    } else {
        pushed(pushed_all(s, more.drop_last(), limit), more.last(), limit)
    }
}

/// The data of `s` in writing, with commas between them.
pub open spec fn listed(s: Seq<Reading>) -> Seq<char>
    decreases s.len(),
{
    if s.len() == 0 {
        Seq::empty()
    } else if s.len() == 1 {
        s[0].text()
    } else {
        listed(s.drop_last()) + seq![','] + s.last().text()
    }
}

/// The data of `s` in writing as a list in square brackets.
pub open spec fn list_text(s: Seq<Reading>) -> Seq<char> {
    seq!['['] + listed(s) + seq![']']
}

/// The bound holds, and the order is that of arrival: after a datum has
/// come in, no more than `limit` are kept; the new datum is the first, and
/// each datum that stays stands one place further back than before.
pub proof fn lemma_pushed(s: Seq<Reading>, d: Reading, limit: int)
    requires
        0 <= limit,
        s.len() <= limit,
    ensures
        pushed(s, d, limit).len() <= limit,
        pushed(s, d, limit).len() == least(s.len() as int + 1, limit),
        limit > 0 ==> pushed(s, d, limit)[0] == d,
        forall|i: int| 1 <= i < pushed(s, d, limit).len() ==> pushed(s, d, limit)[i] == s[i - 1],
{
}

/// At every moment the store holds the data that came in last, as many as
/// the bound allows, the newest first: whatever came in since it was empty.
pub proof fn lemma_pushed_all(more: Seq<Reading>, limit: int)
    requires
        0 <= limit,
    ensures
        pushed_all(Seq::empty(), more, limit).len() == least(more.len() as int, limit),
        forall|i: int|
            0 <= i < least(more.len() as int, limit) ==> #[trigger] pushed_all(
                Seq::empty(),
                more,
                limit,
            )[i] == more[more.len() - 1 - i],
    decreases more.len(),
{
    if more.len() > 0 {
        let before = pushed_all(Seq::empty(), more.drop_last(), limit);
        lemma_pushed_all(more.drop_last(), limit);
        lemma_pushed(before, more.last(), limit);
        let after = pushed_all(Seq::empty(), more, limit);
        assert forall|i: int| 0 <= i < least(more.len() as int, limit) implies #[trigger] after[i]
            == more[more.len() - 1 - i] by {
            if i > 0 {
                assert(after[i] == before[i - 1]);
                assert(more.drop_last()[more.len() - 1 - i] == more[more.len() - 1 - i]);
            }
        }
    }
}

/// A store of data that keeps the newest, up to a bound.
#[derive(PartialEq, Debug)]
pub struct Buffer {
    data: VecDeque<Datum>,
    limit: usize,
}

impl View for Buffer {
    type V = Seq<Reading>;

    /// The data that are kept, the newest first.
    closed spec fn view(&self) -> Seq<Reading> {
        self.data@.map_values(|d: Datum| d@)
    }
}

impl Buffer {
    #[verifier::type_invariant]
    closed spec fn bounded(self) -> bool {
        self.data@.len() <= self.limit
    }

    /// A store keeps no more data than its bound allows.
    pub fn check(&self)
        ensures
            self@.len() <= self.limit(),
    {
        proof {
            use_type_invariant(self);
        }
    }

    /// How many data the store keeps at most.
    pub closed spec fn limit(&self) -> int {
        self.limit as int
    }

    /// An empty store that keeps at most `limit` data.
    pub fn new(limit: usize) -> (b: Buffer)
        ensures
            b@ == Seq::<Reading>::empty(),
            b.limit() == limit,
    {
        let b = Buffer { data: VecDeque::new(), limit };
        assert(b@ =~= Seq::<Reading>::empty());
        b
    }

    /// How many data are kept.
    pub fn len(&self) -> (n: usize)
        ensures
            n == self@.len(),
    {
        self.data.len()
    }

    /// How many data the store keeps at most.
    pub fn bound(&self) -> (n: usize)
        ensures
            n == self.limit(),
    {
        self.limit
    }

    /// The datum at place `i`; the newest is at place 0.
    pub fn get(&self, i: usize) -> (d: &Datum)
        requires
            i < self@.len(),
        ensures
            d@ == self@[i as int],
    {
        &self.data[i]
    }

    /// The newest datum, if any is kept.
    pub fn newest(&self) -> (d: Option<&Datum>)
        ensures
            d is Some <==> self@.len() > 0,
            d is Some ==> d->0@ == self@[0],
    {
        if self.data.len() > 0 {
            Some(&self.data[0])
        } else {
            None
        }
    }

    /// The store after `datum` has come in as the newest; the oldest data
    /// have left as far as the bound asks for it.
    pub fn push(self, datum: Datum) -> (b: Buffer)
        ensures
            b@ == pushed(self@, datum@, self.limit()),
            b.limit() == self.limit(),
    {
        let limit = self.limit;
        let mut data = self.data;
        if limit == 0 {
            data.clear();
            let b = Buffer { data, limit };
            assert(b@ =~= pushed(self@, datum@, 0));
            return b;
        }
        while data.len() >= limit
            invariant
                limit == self.limit > 0,
                data@.len() <= self.data@.len(),
                data@ == self.data@.take(data@.len() as int),
                data@.len() >= least(self.data@.len() as int, limit - 1),
            decreases data.len(),
        {
            let _ = data.pop_back();
        }
        data.push_front(datum);
        let b = Buffer { data, limit };
        assert(b@ =~= pushed(self@, datum@, self.limit()));
        b
    }

    /// The data in writing as a list in square brackets, the newest first.
    pub fn to_string(&self) -> (s: String)
        ensures
            s@ == list_text(self@),
    {
        let mut out: Vec<char> = Vec::new();
        out.push('[');
        let mut i: usize = 0;
        assert(self@.take(0) =~= Seq::<Reading>::empty());
        while i < self.data.len()
            invariant
                i <= self.data.len(),
                out@ == seq!['['] + listed(self@.take(i as int)),
            decreases self.data.len() - i,
        {
            if i > 0 {
                out.push(',');
            }
            extend_str(&mut out, self.data[i].to_string().as_str());
            proof {
                let t = self@.take(i + 1);
                assert(t.drop_last() =~= self@.take(i as int));
                assert(t.last() == self@[i as int]);
                assert(out@ =~= seq!['['] + listed(t));
            }
            i += 1;
        }
        assert(self@.take(self.data.len() as int) =~= self@);
        out.push(']');
        string_of(&out)
    }

    /// The newest datum in writing as a list in square brackets: a list of
    /// one, or of none where no datum is kept.
    pub fn newest_to_string(&self) -> (s: String)
        ensures
            s@ == list_text(self@.take(least(1, self@.len() as int))),
    {
        let mut out: Vec<char> = Vec::new();
        out.push('[');
        if self.data.len() > 0 {
            extend_str(&mut out, self.data[0].to_string().as_str());
            assert(self@.take(1) =~= seq![self@[0]]);
        } else {
            assert(self@.take(0) =~= Seq::<Reading>::empty());
        }
        out.push(']');
        assert(out@ =~= list_text(self@.take(least(1, self@.len() as int))));
        string_of(&out)
    }
}

} // verus!
