//! Equivalence classes and the packed list that stores them.

use vstd::prelude::*;

verus! {

/// What one equivalence class says, as mathematical values.
pub ghost struct EqClassRecord<W> {
    pub labels: Seq<usize>,
    pub weights: Seq<W>,
    pub count: u32,
}

/// One equivalence class: the transcripts a read is compatible with, a weight
/// for each of them, and how many reads showed this pattern.
#[derive(Debug)]
pub struct EqClass<W> {
    pub labels: Vec<usize>,
    pub weights: Vec<W>,
    pub count: u32,
}

impl<W> View for EqClass<W> {
    type V = EqClassRecord<W>;

    open spec fn view(&self) -> EqClassRecord<W> {
        EqClassRecord { labels: self.labels@, weights: self.weights@, count: self.count }
    }
}

impl<W> EqClass<W> {
    /// Labels and weights run in parallel.
    pub open spec fn wf(&self) -> bool {
        self.labels@.len() == self.weights@.len()
    }
}

/// A read-only window onto one record of an [`EqClassList`].
#[derive(Debug)]
pub struct EqClassView<'a, W> {
    pub labels: &'a [usize],
    pub weights: &'a [W],
    pub count: u32,
}

impl<'a, W> View for EqClassView<'a, W> {
    type V = EqClassRecord<W>;

    open spec fn view(&self) -> EqClassRecord<W> {
        EqClassRecord { labels: self.labels@, weights: self.weights@, count: self.count }
    }
}

/// All records, flattened: the labels and weights of every record lie end to
/// end, and `offsets` says where each record starts and ends.
#[derive(Debug)]
pub struct EqClassList<W> {
    /// One entry more than there are records, starting at 0 and never
    /// decreasing: record `i` occupies `offsets[i]..offsets[i + 1]`.
    pub offsets: Vec<usize>,
    pub labels: Vec<usize>,
    pub weights: Vec<W>,
    /// The read count of each record.
    pub counts: Vec<u32>,
}

impl<W> View for EqClassList<W> {
    type V = Seq<EqClassRecord<W>>;

    open spec fn view(&self) -> Seq<EqClassRecord<W>> {
        Seq::new(self.counts@.len(), |i: int| self.record(i))
    }
}

impl<W> EqClassList<W> {
    /// The offset table and the flat arrays fit together.
    pub open spec fn wf(&self) -> bool {
        &&& self.offsets@.len() == self.counts@.len() + 1
        &&& self.offsets@[0] == 0
        &&& forall|i: int, j: int|
            0 <= i <= j < self.offsets@.len() ==> self.offsets@[i] <= self.offsets@[j]
        &&& self.offsets@[self.offsets@.len() - 1] == self.labels@.len()
        &&& self.labels@.len() == self.weights@.len()
    }

    /// The record at position `i`, read off the flat arrays.
    pub open spec fn record(&self, i: int) -> EqClassRecord<W> {
        EqClassRecord {
            labels: self.labels@.subrange(self.offsets@[i] as int, self.offsets@[i + 1] as int),
            weights: self.weights@.subrange(self.offsets@[i] as int, self.offsets@[i + 1] as int),
            count: self.counts@[i],
        }
    }

    /// An empty list: no record, and the one offset 0.
    pub fn new() -> (list: Self)
        ensures
            list.wf(),
            list@ == Seq::<EqClassRecord<W>>::empty(),
            list.offsets@ == seq![0usize],
    {
        let mut offsets: Vec<usize> = Vec::new();
        offsets.push(0);
        EqClassList { offsets, labels: Vec::new(), weights: Vec::new(), counts: Vec::new() }
    }

    /// The number of records.
    pub fn len(&self) -> (n: usize)
        requires
            self.wf(),
        ensures
            n == self@.len(),
    {
        self.offsets.len() - 1
    }

    /// Whether the list holds no record.
    pub fn is_empty(&self) -> (b: bool)
        requires
            self.wf(),
        ensures
            b == (self@.len() == 0),
    {
        self.offsets.len() == 1
    }

    /// Appends one record, taking over its label and weight storage. The new
    /// last offset is the old one plus the number of weights.
    pub fn push(&mut self, ec: EqClass<W>)
        requires
            old(self).wf(),
            ec.wf(),
        ensures
            final(self).wf(),
            final(self)@ == old(self)@.push(ec@),
            final(self).offsets@ == old(self).offsets@.push(
                (old(self).offsets@.last() + ec.weights@.len()) as usize,
            ),
    {
        let ghost pushed = ec@;
        let mut ec = ec;
        self.labels.append(&mut ec.labels);
        self.weights.append(&mut ec.weights);
        self.offsets.push(self.weights.len());
        self.counts.push(ec.count);
        proof {
            let n = old(self)@.len() as int;
            assert forall|i: int| 0 <= i < n implies self.record(i) == old(self).record(i) by {
                assert(self.labels@.subrange(
                    self.offsets@[i] as int,
                    self.offsets@[i + 1] as int,
                ) =~= old(self).labels@.subrange(
                    old(self).offsets@[i] as int,
                    old(self).offsets@[i + 1] as int,
                ));
                assert(self.weights@.subrange(
                    self.offsets@[i] as int,
                    self.offsets@[i + 1] as int,
                ) =~= old(self).weights@.subrange(
                    old(self).offsets@[i] as int,
                    old(self).offsets@[i + 1] as int,
                ));
            }
            assert(self.record(n).labels =~= pushed.labels);
            assert(self.record(n).weights =~= pushed.weights);
            assert(self@ =~= old(self)@.push(pushed));
        }
    }

    /// The record at position `i`, or nothing where the list has no such
    /// position.
    pub fn get(&self, i: usize) -> (r: Option<EqClassView<'_, W>>)
        requires
            self.wf(),
        ensures
            match r {
                Some(v) => i < self@.len() && v@ == self@[i as int],
                None => i >= self@.len(),
            },
    {
        if i >= self.offsets.len() - 1 {
            None
        } else {
            let p = self.offsets[i];
            let q = self.offsets[i + 1];
            Some(
                EqClassView {
                    labels: vstd::slice::slice_subrange(self.labels.as_slice(), p, q),
                    weights: vstd::slice::slice_subrange(self.weights.as_slice(), p, q),
                    count: self.counts[i],
                },
            )
        }
    }
}

impl<W> EqClassList<W> {
    /// Checks that the offset table and the flat arrays fit together, for a
    /// list whose fields were filled in by hand.
    pub fn is_well_formed(&self) -> (b: bool)
        ensures
            b == self.wf(),
    {
        let n = self.offsets.len();
        if n == 0 || n - 1 != self.counts.len() || self.offsets[0] != 0 || self.offsets[n - 1]
            != self.labels.len() || self.labels.len() != self.weights.len() {
            return false;
        }
        let mut i: usize = 1;
        while i < n
            invariant
                1 <= i <= n,
                n == self.offsets@.len(),
                forall|a: int, b: int| 0 <= a <= b < i ==> self.offsets@[a] <= self.offsets@[b],
            decreases n - i,
        {
            if self.offsets[i - 1] > self.offsets[i] {
                return false;
            }
            i += 1;
        }
        true
    }

    /// A pass over the records, from the first to the last. Each call starts
    /// a pass of its own.
    pub fn iter(&self) -> (it: IterEqClassList<'_, W>)
        requires
            self.wf(),
        ensures
            it.list() == self@,
            it.remaining() == self@,
    {
        assert(self@.skip(0) =~= self@);
        IterEqClassList { inner: self, pos: 0 }
    }
}

impl<W> Default for EqClassList<W> {
    fn default() -> (list: Self)
        ensures
            list.wf(),
            list@ == Seq::<EqClassRecord<W>>::empty(),
    {
        Self::new()
    }
}

/// A pass over the records of an [`EqClassList`], in the order in which they
/// were pushed.
pub struct IterEqClassList<'a, W> {
    inner: &'a EqClassList<W>,
    pos: usize,
}

impl<'a, W> IterEqClassList<'a, W> {
    #[verifier::type_invariant]
    spec fn inv(&self) -> bool {
        self.inner.wf() && self.pos <= self.inner@.len()
    }

    /// The records of the list that the pass runs over.
    pub closed spec fn list(&self) -> Seq<EqClassRecord<W>> {
        self.inner@
    }

    /// The records that the pass has still to yield, in order.
    pub closed spec fn remaining(&self) -> Seq<EqClassRecord<W>> {
        self.inner@.skip(self.pos as int)
    }

    /// Yields the next record, or nothing once all were yielded.
    pub fn next(&mut self) -> (r: Option<EqClassView<'a, W>>)
        ensures
            final(self).list() == old(self).list(),
            match r {
                Some(v) => {
                    &&& old(self).remaining().len() > 0
                    &&& v@ == old(self).remaining()[0]
                    &&& final(self).remaining() == old(self).remaining().skip(1)
                },
                None => old(self).remaining().len() == 0 && final(self).remaining().len() == 0,
            },
    {
        proof {
            use_type_invariant(&*self);
        }
        let r = self.inner.get(self.pos);
        if r.is_some() {
            assert(self.inner@.skip(self.pos as int).skip(1) =~= self.inner@.skip(self.pos + 1));
            assert(self.pos < self.inner.counts.len());
            self.pos = self.pos + 1;
        }
        r
    }
}

/// The list that pushing `records`, one after another, onto `list` gives.
pub open spec fn pushed_all<W>(
    list: Seq<EqClassRecord<W>>,
    records: Seq<EqClassRecord<W>>,
) -> Seq<EqClassRecord<W>>
    decreases records.len(),
{
    if records.len() == 0 {
        list
    } else {
        pushed_all(list, records.drop_last()).push(records.last())
    }
}

/// Pushing records onto a list appends them to it, in their order.
pub proof fn lemma_pushed_all<W>(list: Seq<EqClassRecord<W>>, records: Seq<EqClassRecord<W>>)
    ensures
        pushed_all(list, records) == list + records,
    decreases records.len(),
{
    if records.len() == 0 {
        assert(list + records =~= list);
    } else {
        lemma_pushed_all(list, records.drop_last());
        assert((list + records.drop_last()).push(records.last()) =~= list + records);
    }
}

/// After records were pushed onto an empty list, the list has as many records
/// as were pushed.
pub proof fn lemma_len_counts_pushes<W>(records: Seq<EqClassRecord<W>>)
    ensures
        pushed_all(Seq::empty(), records).len() == records.len(),
{
    lemma_pushed_all(Seq::empty(), records);
}

/// After records were pushed onto an empty list, position `i` holds the
/// `i`-th of them, labels, weights and count.
pub proof fn lemma_get_after_pushes<W>(records: Seq<EqClassRecord<W>>, i: int)
    requires
        0 <= i < records.len(),
    ensures
        i < pushed_all(Seq::empty(), records).len(),
        pushed_all(Seq::empty(), records)[i] == records[i],
{
    lemma_pushed_all(Seq::empty(), records);
}

/// What a pass yields, call by call, while `remaining` is still to come: the
/// first of them, and then what a pass over the others yields.
pub open spec fn yields<W>(remaining: Seq<EqClassRecord<W>>) -> Seq<EqClassRecord<W>>
    decreases remaining.len(),
{
    if remaining.len() == 0 {
        Seq::empty()
    } else {
        seq![remaining[0]] + yields(remaining.skip(1))
    }
}

/// A pass yields what is still to come, in its order.
pub proof fn lemma_yields_all<W>(remaining: Seq<EqClassRecord<W>>)
    ensures
        yields(remaining) == remaining,
    decreases remaining.len(),
{
    if remaining.len() > 0 {
        lemma_yields_all(remaining.skip(1));
        assert(seq![remaining[0]] + remaining.skip(1) =~= remaining);
    }
}

/// A pass over a list that was built by pushing records onto an empty list
/// yields exactly those records, in the order in which they were pushed.
pub proof fn lemma_iteration_is_insertion_order<W>(records: Seq<EqClassRecord<W>>)
    ensures
        yields(pushed_all(Seq::empty(), records)) == records,
{
    lemma_pushed_all(Seq::empty(), records);
    assert(Seq::<EqClassRecord<W>>::empty() + records =~= records);
    lemma_yields_all(records);
}

} // verus!
