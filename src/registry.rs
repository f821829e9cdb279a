use vstd::prelude::*;

use vstd::multiset::Multiset;

use crate::priority::Priority;

verus! {

broadcast use {vstd::seq_lib::group_to_multiset_ensures, vstd::multiset::group_multiset_axioms};

/// A task that was submitted and not yet drained: its priority, the number
/// it was registered under, and the handle of its running computation.
pub struct Pending<H> {
    pub priority: Priority,
    pub seq: u64,
    pub handle: H,
}

/// `a` is drained before `b`: a higher priority first, and among equal
/// priorities the later registration first.
pub open spec fn outranks<H>(a: Pending<H>, b: Pending<H>) -> bool {
    a.priority.level > b.priority.level || (a.priority.level == b.priority.level && a.seq > b.seq)
}

/// Every entry of `s` outranks every entry that follows it.
pub open spec fn in_drain_order<H>(s: Seq<Pending<H>>) -> bool {
    forall|i: int, j: int| 0 <= i < j < s.len() ==> outranks(#[trigger] s[i], #[trigger] s[j])
}

/// Every entry of `hi` outranks every entry of `lo`.
pub open spec fn all_outrank<H>(hi: Seq<Pending<H>>, lo: Seq<Pending<H>>) -> bool {
    forall|i: int, j: int|
        0 <= i < hi.len() && 0 <= j < lo.len() ==> outranks(#[trigger] hi[i], #[trigger] lo[j])
}

/// No two entries carry the same registration number.
pub open spec fn distinct_numbers<H>(s: Seq<Pending<H>>) -> bool {
    forall|i: int, j: int|
        0 <= i < s.len() && 0 <= j < s.len() && i != j ==> (#[trigger] s[i]).seq != (#[trigger] s[j]).seq
}

/// Every entry is outranked by each entry after it: the order a stable
/// ascending sort by priority leaves, so that popping from the tail drains.
pub open spec fn in_stack_order<H>(s: Seq<Pending<H>>) -> bool {
    forall|i: int, j: int| 0 <= i < j < s.len() ==> outranks(#[trigger] s[j], #[trigger] s[i])
}

/// A partial drain of `count` entries does nothing: the result stream reports
/// empty or no task in flight, `count` is below the tasks in flight, or fewer
/// than `count` entries are registered.
pub open spec fn partial_drain_refused(
    count: int,
    stream_empty: bool,
    task_count: int,
    registered: int,
) -> bool {
    stream_empty || task_count == 0 || count < task_count || count > registered
}

/// Of two drained entries, the earlier one has the priority at least as high.
pub proof fn lemma_drain_by_priority<H>(out: Seq<Pending<H>>, i: int, j: int)
    requires
        in_drain_order(out),
        0 <= i < j < out.len(),
    ensures
        out[i].priority.level >= out[j].priority.level,
{
    assert(outranks(out[i], out[j]));
}

/// Among drained entries of equal priority the later registration comes
/// first: ties are broken last in, first out.
pub proof fn lemma_tie_break_last_in_first_out<H>(out: Seq<Pending<H>>, i: int, j: int)
    requires
        in_drain_order(out),
        0 <= i < j < out.len(),
        out[i].priority == out[j].priority,
    ensures
        out[i].seq > out[j].seq,
{
    assert(outranks(out[i], out[j]));
}

/// Registrations numbered in order give later tasks larger numbers: a task
/// registered after another is drained before it when their priorities are equal.
pub proof fn lemma_later_registration_drained_first<H>(
    out: Seq<Pending<H>>,
    a: Pending<H>,
    b: Pending<H>,
)
    requires
        in_drain_order(out),
        out.contains(a),
        out.contains(b),
        a.priority == b.priority,
        a.seq < b.seq,
    ensures
        out.index_of(b) < out.index_of(a),
{
    let ia = out.index_of(a);
    let ib = out.index_of(b);
    if ia < ib {
        assert(outranks(out[ia], out[ib]));
    } else if ia == ib {
        assert(out[ia] == a && out[ib] == b);
    }
}

/// What is drained fixes the order it is drained in: two sequences in drain
/// order that hold the same entries are equal. So a partial drain that takes
/// every registered entry hands them out exactly as a full drain does.
pub proof fn lemma_drain_order_unique<H>(a: Seq<Pending<H>>, b: Seq<Pending<H>>)
    requires
        in_drain_order(a),
        in_drain_order(b),
        a.to_multiset() == b.to_multiset(),
    ensures
        a == b,
    decreases a.len(),
{
    assert(a.len() == a.to_multiset().len());
    assert(b.len() == b.to_multiset().len());
    if a.len() > 0 {
        assert(a.to_multiset().count(a[0]) > 0) by {
            assert(a.contains(a[0]));
        }
        assert(b.contains(a[0]));
        let k = choose|k: int| 0 <= k < b.len() && b[k] == a[0];
        assert(a.to_multiset().count(b[0]) > 0) by {
            assert(b.contains(b[0]));
        }
        assert(a.contains(b[0]));
        let l = choose|l: int| 0 <= l < a.len() && a[l] == b[0];
        if k > 0 {
            assert(outranks(b[0], b[k]));
            if l > 0 {
                assert(outranks(a[0], a[l]));
            }
            assert(false);
        }
        assert(a[0] == b[0]);
        assert(a.remove(0).to_multiset() == a.to_multiset().remove(a[0]));
        assert(b.remove(0).to_multiset() == b.to_multiset().remove(b[0]));
        assert(a.remove(0) =~= a.drop_first());
        assert(b.remove(0) =~= b.drop_first());
        assert(in_drain_order(a.drop_first())) by {
            assert forall|i: int, j: int| 0 <= i < j < a.drop_first().len() implies outranks(
                #[trigger] a.drop_first()[i],
                #[trigger] a.drop_first()[j],
            ) by {
                assert(outranks(a[i + 1], a[j + 1]));
            }
        }
        assert(in_drain_order(b.drop_first())) by {
            assert forall|i: int, j: int| 0 <= i < j < b.drop_first().len() implies outranks(
                #[trigger] b.drop_first()[i],
                #[trigger] b.drop_first()[j],
            ) by {
                assert(outranks(b[i + 1], b[j + 1]));
            }
        }
        lemma_drain_order_unique(a.drop_first(), b.drop_first());
        assert(a =~= b) by {
            assert forall|i: int| 0 <= i < a.len() implies a[i] == b[i] by {
                if i > 0 {
                    assert(a[i] == a.drop_first()[i - 1]);
                    assert(b[i] == b.drop_first()[i - 1]);
                }
            }
        }
    } else {
        assert(a =~= b);
    }
}

/// Executable form of [`outranks`].
pub fn entry_outranks<H>(a: &Pending<H>, b: &Pending<H>) -> (r: bool)
    ensures
        r == outranks(*a, *b),
{
    a.priority.level > b.priority.level || (a.priority.level == b.priority.level && a.seq > b.seq)
}

/// The ordered collection of pending tasks.
///
/// A registration is appended at the tail and gets the next number of a
/// counter that only grows, so that later registrations carry larger numbers.
/// A partial drain leaves the rest sorted ascending by priority.
pub struct Registry<H> {
    entries: Vec<Pending<H>>,
    next_seq: u64,
}

impl<H> View for Registry<H> {
    type V = Seq<Pending<H>>;

    closed spec fn view(&self) -> Seq<Pending<H>> {
        self.entries@
    }
}

impl<H> Registry<H> {
    /// The number the next registration gets.
    pub closed spec fn next_seq_spec(&self) -> u64 {
        self.next_seq
    }

    /// The entries carry distinct numbers, each below the counter.
    pub open spec fn wf(&self) -> bool {
        &&& distinct_numbers(self@)
        &&& forall|i: int| 0 <= i < self@.len() ==> (#[trigger] self@[i]).seq < self.next_seq_spec()
    }

    /// An empty registry whose counter starts at zero.
    pub fn new() -> (r: Registry<H>)
        ensures
            r.wf(),
            r@.len() == 0,
            r.next_seq_spec() == 0,
    {
        Registry { entries: Vec::new(), next_seq: 0 }
    }

    /// The number of pending entries.
    pub fn len(&self) -> (r: usize)
        ensures
            r == self@.len(),
    {
        self.entries.len()
    }

    /// Whether no entry is pending.
    pub fn is_empty(&self) -> (r: bool)
        ensures
            r == (self@.len() == 0),
    {
        self.entries.len() == 0
    }

    /// The number the next registration gets.
    pub fn next_seq(&self) -> (r: u64)
        ensures
            r == self.next_seq_spec(),
    {
        self.next_seq
    }

    /// The pending entries: appended in order of registration, and sorted
    /// ascending by priority after a partial drain.
    pub fn entries(&self) -> (r: &Vec<Pending<H>>)
        ensures
            r@ == self@,
    {
        &self.entries
    }

    /// Registers a task under the next number. When the counter has reached
    /// its largest value nothing changes and the handle is given back.
    pub fn push(&mut self, priority: Priority, handle: H) -> (r: Result<(), H>)
        requires
            old(self).wf(),
        ensures
            final(self).wf(),
            old(self).next_seq_spec() < u64::MAX ==> {
                &&& r is Ok
                &&& final(self)@ == old(self)@.push(
                    (Pending { priority, seq: old(self).next_seq_spec(), handle }),
                )
                &&& final(self).next_seq_spec() == old(self).next_seq_spec() + 1
            },
            old(self).next_seq_spec() == u64::MAX ==> {
                &&& r == Err::<(), H>(handle)
                &&& *final(self) == *old(self)
            },
    {
        if self.next_seq == u64::MAX {
            return Err(handle);
        }
        let seq = self.next_seq;
        self.entries.push(Pending { priority, seq, handle });
        self.next_seq = seq + 1;
        Ok(())
    }

    /// The position of the entry that outranks all others.
    fn index_of_highest(v: &Vec<Pending<H>>) -> (m: usize)
        requires
            v@.len() > 0,
            distinct_numbers(v@),
        ensures
            m < v@.len(),
            forall|j: int| 0 <= j < v@.len() && j != m ==> outranks(v@[m as int], #[trigger] v@[j]),
    {
        let mut best: usize = 0;
        let mut i: usize = 1;
        while i < v.len()
            invariant
                0 <= best < i <= v@.len(),
                distinct_numbers(v@),
                forall|j: int| 0 <= j < i && j != best ==> outranks(v@[best as int], #[trigger] v@[j]),
            decreases v@.len() - i,
        {
            if entry_outranks(&v[i], &v[best]) {
                best = i;
            }
            i = i + 1;
        }
        best
    }

    /// Removes the `count` entries that outrank all others and returns them,
    /// each before the ones it outranks.
    fn select_highest(&mut self, count: usize) -> (out: Vec<Pending<H>>)
        requires
            old(self).wf(),
            count <= old(self)@.len(),
        ensures
            final(self).wf(),
            final(self).next_seq_spec() == old(self).next_seq_spec(),
            out@.len() == count,
            final(self)@.len() == old(self)@.len() - count,
            in_drain_order(out@),
            all_outrank(out@, final(self)@),
            out@.to_multiset().add(final(self)@.to_multiset()) == old(self)@.to_multiset(),
            distinct_numbers(out@),
            forall|i: int| 0 <= i < out@.len() ==> (#[trigger] out@[i]).seq < old(self).next_seq_spec(),
    {
        let ghost orig = self@;
        let mut out: Vec<Pending<H>> = Vec::new();
        let mut k: usize = 0;
        while k < count
            invariant
                self.wf(),
                self.next_seq_spec() == old(self).next_seq_spec(),
                old(self)@ == orig,
                k <= count <= orig.len(),
                out@.len() == k,
                self@.len() == orig.len() - k,
                in_drain_order(out@),
                all_outrank(out@, self@),
                distinct_numbers(out@),
                forall|i: int| 0 <= i < out@.len() ==> (#[trigger] out@[i]).seq < self.next_seq_spec(),
                forall|i: int, j: int|
                    0 <= i < out@.len() && 0 <= j < self@.len() ==> (#[trigger] out@[i]).seq != (
                    #[trigger] self@[j]).seq,
                out@.to_multiset().add(self@.to_multiset()) == orig.to_multiset(),
            decreases count - k,
        {
            let ghost before = self@;
            let ghost out_before = out@;
            let m = Self::index_of_highest(&self.entries);
            let e = self.entries.remove(m);
            assert(self@ == before.remove(m as int));
            out.push(e);
            assert(out@ == out_before.push(e));
            assert(forall|j: int| 0 <= j < self@.len() ==> #[trigger] self@[j] == before[if j < m {
                j
            } else {
                j + 1
            }]);
            assert(in_drain_order(out@)) by {
                assert forall|i: int, j: int| 0 <= i < j < out@.len() implies outranks(
                    #[trigger] out@[i],
                    #[trigger] out@[j],
                ) by {
                    if j == out@.len() - 1 {
                        assert(out@[i] == out_before[i]);
                        assert(outranks(out_before[i], before[m as int]));
                    }
                }
            }
            assert(all_outrank(out@, self@)) by {
                assert forall|i: int, j: int|
                    0 <= i < out@.len() && 0 <= j < self@.len() implies outranks(
                    #[trigger] out@[i],
                    #[trigger] self@[j],
                ) by {
                    let jj = if j < m { j } else { j + 1 };
                    assert(self@[j] == before[jj]);
                    if i < out_before.len() {
                        assert(outranks(out_before[i], before[jj]));
                    } else {
                        assert(outranks(before[m as int], before[jj]));
                    }
                }
            }
            assert(self@.to_multiset() == before.to_multiset().remove(e));
            assert(out@.to_multiset() == out_before.to_multiset().insert(e));
            assert(before.to_multiset().count(e) > 0) by {
                assert(before.contains(e)) by {
                    assert(before[m as int] == e);
                }
            }
            assert(out@.to_multiset().add(self@.to_multiset()) =~= orig.to_multiset());
            k = k + 1;
        }
        out
    }

    /// Removes the `count` entries that outrank all others and returns them,
    /// each before the ones it outranks. The rest are left sorted as a stable
    /// ascending sort by priority leaves them: each entry is outranked by the
    /// entries after it.
    pub fn drain_highest(&mut self, count: usize) -> (out: Vec<Pending<H>>)
        requires
            old(self).wf(),
            count <= old(self)@.len(),
        ensures
            final(self).wf(),
            final(self).next_seq_spec() == old(self).next_seq_spec(),
            out@.len() == count,
            final(self)@.len() == old(self)@.len() - count,
            in_drain_order(out@),
            in_stack_order(final(self)@),
            all_outrank(out@, final(self)@),
            out@.to_multiset().add(final(self)@.to_multiset()) == old(self)@.to_multiset(),
    {
        let n = self.entries.len();
        let mut out = self.select_highest(n);
        let ghost full = out@;
        assert(self@.to_multiset() =~= Multiset::empty());
        assert(full.to_multiset() =~= old(self)@.to_multiset());
        while out.len() > count
            invariant
                self.wf(),
                self.next_seq_spec() == old(self).next_seq_spec(),
                count <= out@.len() <= n,
                full.len() == n,
                in_drain_order(full),
                distinct_numbers(full),
                forall|i: int| 0 <= i < n ==> (#[trigger] full[i]).seq < self.next_seq_spec(),
                out@ == full.subrange(0, out@.len() as int),
                self@.len() == n - out@.len(),
                forall|k: int| 0 <= k < self@.len() ==> #[trigger] self@[k] == full[n - 1 - k],
                out@.to_multiset().add(self@.to_multiset()) == full.to_multiset(),
            decreases out@.len(),
        {
            let ghost before = out@;
            let ghost rest = self@;
            match out.pop() {
                Some(e) => {
                    assert(before =~= out@.push(e));
                    self.entries.push(e);
                    assert(self@ == rest.push(e));
                    assert(out@.to_multiset().add(self@.to_multiset()) =~= full.to_multiset());
                },
                None => {},
            }
        }
        assert(in_drain_order(out@));
        assert(all_outrank(out@, self@)) by {
            assert forall|i: int, j: int|
                0 <= i < out@.len() && 0 <= j < self@.len() implies outranks(
                #[trigger] out@[i],
                #[trigger] self@[j],
            ) by {
                assert(out@[i] == full[i]);
                assert(self@[j] == full[n - 1 - j]);
            }
        }
        assert(in_stack_order(self@)) by {
            assert forall|i: int, j: int| 0 <= i < j < self@.len() implies outranks(
                #[trigger] self@[j],
                #[trigger] self@[i],
            ) by {
                assert(self@[i] == full[n - 1 - i]);
                assert(self@[j] == full[n - 1 - j]);
            }
        }
        out
    }

    /// Removes every entry and returns them in drain order, as a
    /// cancellation sweep takes them.
    pub fn take_all(&mut self) -> (out: Vec<Pending<H>>)
        requires
            old(self).wf(),
        ensures
            final(self).wf(),
            final(self)@.len() == 0,
            final(self).next_seq_spec() == old(self).next_seq_spec(),
            out@.len() == old(self)@.len(),
            in_drain_order(out@),
            out@.to_multiset() == old(self)@.to_multiset(),
    {
        let n = self.entries.len();
        let out = self.drain_highest(n);
        assert(self@.to_multiset().len() == 0);
        assert(out@.to_multiset() =~= out@.to_multiset().add(self@.to_multiset()));
        out
    }

    /// Full drain: unless the result stream reports empty or no task in
    /// flight, removes every entry and returns them in drain order. Otherwise
    /// nothing changes and nothing is returned.
    pub fn wait_all(&mut self, stream_empty: bool, task_count: usize) -> (out: Vec<Pending<H>>)
        requires
            old(self).wf(),
        ensures
            final(self).wf(),
            final(self).next_seq_spec() == old(self).next_seq_spec(),
            stream_empty || task_count == 0 ==> out@.len() == 0 && *final(self) == *old(self),
            !(stream_empty || task_count == 0) ==> {
                &&& final(self)@.len() == 0
                &&& out@.len() == old(self)@.len()
                &&& in_drain_order(out@)
                &&& out@.to_multiset() == old(self)@.to_multiset()
            },
    {
        if stream_empty || task_count == 0 {
            return Vec::new();
        }
        let n = self.entries.len();
        let out = self.drain_highest(n);
        assert(self@.to_multiset().len() == 0);
        assert(out@.to_multiset() =~= out@.to_multiset().add(self@.to_multiset()));
        out
    }

    /// Partial drain of `count` entries. It is refused, and nothing changes,
    /// when the result stream reports empty or no task in flight, when
    /// `count` is below the number of tasks in flight, or when fewer than
    /// `count` entries are registered. Otherwise the `count` entries that
    /// outrank the rest are removed and returned in drain order, and the rest
    /// are left sorted ascending by priority.
    pub fn wait_for(&mut self, count: usize, stream_empty: bool, task_count: usize) -> (out:
        Vec<Pending<H>>)
        requires
            old(self).wf(),
        ensures
            final(self).wf(),
            final(self).next_seq_spec() == old(self).next_seq_spec(),
            partial_drain_refused(count as int, stream_empty, task_count as int, old(self)@.len() as int) ==> out@.len()
                == 0 && *final(self) == *old(self),
            !partial_drain_refused(count as int, stream_empty, task_count as int, old(self)@.len() as int) ==> {
                &&& out@.len() == count
                &&& final(self)@.len() == old(self)@.len() - count
                &&& in_drain_order(out@)
                &&& in_stack_order(final(self)@)
                &&& all_outrank(out@, final(self)@)
                &&& out@.to_multiset().add(final(self)@.to_multiset()) == old(self)@.to_multiset()
            },
    {
        if stream_empty || task_count == 0 || count < task_count || count > self.entries.len() {
            return Vec::new();
        }
        self.drain_highest(count)
    }
}

} // verus!
