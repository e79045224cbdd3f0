use vstd::prelude::*;

verus! {

/// The contents of a list of buffers.
pub open spec fn contents<T>(buffers: Seq<Vec<T>>) -> Seq<Seq<T>> {
    buffers.map_values(|b: Vec<T>| b@)
}

/// Double-buffered lists, one pair per worker thread. During a frame each
/// thread appends to its write buffer while everyone reads what all threads
/// wrote during the previous frame; `swap` turns the write buffers into the
/// read buffers and empties the others for the next frame.
pub struct ThreadBuffers<T> {
    even: Vec<Vec<T>>,
    odd: Vec<Vec<T>>,
    swap_index: bool,
}

impl<T> ThreadBuffers<T> {
    /// One write buffer and one read buffer per thread.
    pub closed spec fn wf(&self) -> bool {
        self.even@.len() == self.odd@.len()
    }

    /// The number of threads.
    pub closed spec fn thread_count(&self) -> nat {
        self.even@.len()
    }

    /// Which half is being written: `false` for the first, `true` for the second.
    pub closed spec fn write_half(&self) -> bool {
        self.swap_index
    }

    /// What each thread has written during the current frame.
    pub closed spec fn written(&self) -> Seq<Seq<T>> {
        if self.swap_index {
            contents(self.odd@)
        } else {
            contents(self.even@)
        }
    }

    /// What each thread wrote during the previous frame.
    pub closed spec fn previous(&self) -> Seq<Seq<T>> {
        if self.swap_index {
            contents(self.even@)
        } else {
            contents(self.odd@)
        }
    }

    /// There is one written and one previous list per thread.
    pub proof fn lemma_shape(&self)
        requires
            self.wf(),
        ensures
            self.written().len() == self.thread_count(),
            self.previous().len() == self.thread_count(),
    {
    }

    /// Empty buffers for `thread_count` threads; the first half is written first.
    pub fn new(thread_count: usize) -> (r: Self)
        requires
            thread_count > 0,
        ensures
            r.wf(),
            r.thread_count() == thread_count,
            !r.write_half(),
            r.written() == Seq::new(thread_count as nat, |i: int| Seq::<T>::empty()),
            r.previous() == Seq::new(thread_count as nat, |i: int| Seq::<T>::empty()),
    {
        let mut even: Vec<Vec<T>> = Vec::new();
        let mut odd: Vec<Vec<T>> = Vec::new();
        let mut i: usize = 0;
        while i < thread_count
            invariant
                i <= thread_count,
                even@.len() == i,
                odd@.len() == i,
                forall|k: int| 0 <= k < i ==> (#[trigger] even@[k])@ == Seq::<T>::empty(),
                forall|k: int| 0 <= k < i ==> (#[trigger] odd@[k])@ == Seq::<T>::empty(),
            decreases thread_count - i,
        {
            even.push(Vec::new());
            odd.push(Vec::new());
            i = i + 1;
        }
        let r = ThreadBuffers { even, odd, swap_index: false };
        assert(r.written() =~= Seq::new(thread_count as nat, |i: int| Seq::<T>::empty()));
        assert(r.previous() =~= Seq::new(thread_count as nat, |i: int| Seq::<T>::empty()));
        r
    }

    /// Appends `item` to the write buffer of thread `thread_index`.
    pub fn push(&mut self, thread_index: usize, item: T)
        requires
            old(self).wf(),
            thread_index < old(self).thread_count(),
        ensures
            final(self).wf(),
            final(self).thread_count() == old(self).thread_count(),
            final(self).write_half() == old(self).write_half(),
            final(self).previous() == old(self).previous(),
            final(self).written() == old(self).written().update(
                thread_index as int,
                old(self).written()[thread_index as int].push(item),
            ),
    {
        if self.swap_index {
            let mut buffer = Vec::new();
            core::mem::swap(&mut buffer, &mut self.odd[thread_index]);
            buffer.push(item);
            self.odd.set(thread_index, buffer);
        } else {
            let mut buffer = Vec::new();
            core::mem::swap(&mut buffer, &mut self.even[thread_index]);
            buffer.push(item);
            self.even.set(thread_index, buffer);
        }
        assert(final(self).written() =~= old(self).written().update(
            thread_index as int,
            old(self).written()[thread_index as int].push(item),
        ));
        assert(final(self).previous() =~= old(self).previous());
    }

    /// Starts a new frame: what was written becomes what is read, and the
    /// buffers read so far are emptied to be written next.
    pub fn swap(&mut self)
        requires
            old(self).wf(),
        ensures
            final(self).wf(),
            final(self).thread_count() == old(self).thread_count(),
            final(self).write_half() == !old(self).write_half(),
            final(self).previous() == old(self).written(),
            final(self).written() == Seq::new(old(self).thread_count(), |i: int| Seq::<T>::empty()),
    {
        self.swap_index = !self.swap_index;
        let n = self.even.len();
        let mut i: usize = 0;
        while i < n
            invariant
                self.wf(),
                n == self.thread_count(),
                i <= n,
                self.swap_index == !old(self).swap_index,
                self.previous() == old(self).written(),
                forall|k: int| 0 <= k < i ==> (#[trigger] self.written()[k]) == Seq::<T>::empty(),
                forall|k: int| i <= k < n ==> (#[trigger] self.written()[k]) == old(self).previous()[k],
            decreases n - i,
        {
            let ghost written_before = self.written();
            let ghost previous_before = self.previous();
            if self.swap_index {
                self.odd.set(i, Vec::new());
            } else {
                self.even.set(i, Vec::new());
            }
            assert(self.written() =~= written_before.update(i as int, Seq::<T>::empty()));
            assert(self.previous() =~= previous_before);
            i = i + 1;
        }
        assert(self.written() =~= Seq::new(old(self).thread_count(), |i: int| Seq::<T>::empty()));
    }

    /// Everything written during the previous frame: thread by thread, each
    /// thread's items in the order it wrote them.
    pub fn read(&self) -> (r: Vec<T>) where T: Copy
        requires
            self.wf(),
        ensures
            r@ == self.previous().flatten(),
    {
        let half = if self.swap_index { &self.even } else { &self.odd };
        let mut r: Vec<T> = Vec::new();
        let mut t: usize = 0;
        while t < half.len()
            invariant
                t <= half@.len(),
                contents(half@) == self.previous(),
                r@ == contents(half@).take(t as int).flatten(),
            decreases half@.len() - t,
        {
            let buffer = &half[t];
            let mut k: usize = 0;
            let ghost start = r@;
            while k < buffer.len()
                invariant
                    k <= buffer@.len(),
                    r@ == start + buffer@.take(k as int),
                decreases buffer@.len() - k,
            {
                r.push(buffer[k]);
                assert(r@ =~= start + buffer@.take(k + 1));
                k = k + 1;
            }
            proof {
                assert(buffer@.take(k as int) =~= buffer@);
                contents(half@).take(t as int).lemma_flatten_push(buffer@);
                assert(contents(half@).take(t + 1) =~= contents(half@).take(t as int).push(buffer@));
            }
            t = t + 1;
        }
        assert(contents(half@).take(t as int) =~= contents(half@));
        r
    }
}


/// Double buffers as values: what each thread has written during the current
/// frame, and what each wrote during the previous one. `ThreadBuffers` and
/// the buffers built on it state their operations over these two lists.
pub type BufferState<T> = (Seq<Seq<T>>, Seq<Seq<T>>);

/// The state after thread `i` writes `x`, as `push` changes it.
pub open spec fn state_push<T>(s: BufferState<T>, i: int, x: T) -> BufferState<T> {
    (s.0.update(i, s.0[i].push(x)), s.1)
}

/// The state after a swap, as `swap` changes it.
pub open spec fn state_swap<T>(s: BufferState<T>) -> BufferState<T> {
    (Seq::new(s.0.len(), |i: int| Seq::<T>::empty()), s.0)
}

/// What a read finds, as `read` returns it.
pub open spec fn state_read<T>(s: BufferState<T>) -> Seq<T> {
    s.1.flatten()
}

/// The state after each of `pushes`, a thread and an item, in order.
pub open spec fn state_push_all<T>(s: BufferState<T>, pushes: Seq<(int, T)>) -> BufferState<T>
    decreases pushes.len(),
{
    if pushes.len() == 0 {
        s
    } else {
        state_push(state_push_all(s, pushes.drop_last()), pushes.last().0, pushes.last().1)
    }
}

/// Whether a write was made by thread `i`.
pub open spec fn by_thread<T>(i: int) -> spec_fn((int, T)) -> bool {
    |p: (int, T)| p.0 == i
}

/// The items that thread `i` wrote among `pushes`, in order.
pub open spec fn thread_items<T>(pushes: Seq<(int, T)>, i: int) -> Seq<T> {
    pushes.filter(by_thread::<T>(i)).map_values(|p: (int, T)| p.1)
}

/// Writes keep what is read and the number of threads.
proof fn lemma_push_all_keeps<T>(s: BufferState<T>, pushes: Seq<(int, T)>)
    requires
        forall|k: int| 0 <= k < pushes.len() ==> 0 <= #[trigger] pushes[k].0 < s.0.len(),
    ensures
        state_push_all(s, pushes).1 == s.1,
        state_push_all(s, pushes).0.len() == s.0.len(),
    decreases pushes.len(),
{
    if pushes.len() > 0 {
        let q = pushes.drop_last();
        assert forall|k: int| 0 <= k < q.len() implies 0 <= #[trigger] q[k].0 < s.0.len() by {
            assert(q[k] == pushes[k]);
        }
        lemma_push_all_keeps(s, q);
        assert(pushes[pushes.len() - 1] == pushes.last());
    }
}

/// Writes into emptied buffers leave each thread's items in its buffer, in order.
proof fn lemma_push_all_from_empty<T>(n: nat, p: Seq<Seq<T>>, pushes: Seq<(int, T)>)
    requires
        forall|k: int| 0 <= k < pushes.len() ==> 0 <= #[trigger] pushes[k].0 < n,
    ensures
        state_push_all((Seq::new(n, |i: int| Seq::<T>::empty()), p), pushes).0 == Seq::new(
            n,
            |i: int| thread_items(pushes, i),
        ),
    decreases pushes.len(),
{
    let s: BufferState<T> = (Seq::new(n, |i: int| Seq::<T>::empty()), p);
    if pushes.len() == 0 {
        assert forall|i: int| 0 <= i < n implies thread_items(pushes, i) == Seq::<T>::empty() by {
            reveal(Seq::filter);
            assert(pushes.filter(by_thread::<T>(i)) =~= Seq::<(int, T)>::empty());
            assert(thread_items(pushes, i) =~= Seq::<T>::empty());
        }
        assert(state_push_all(s, pushes).0 =~= Seq::new(n, |i: int| thread_items(pushes, i)));
    } else {
        let q = pushes.drop_last();
        let (j, x) = pushes.last();
        assert forall|k: int| 0 <= k < q.len() implies 0 <= #[trigger] q[k].0 < n by {
            assert(q[k] == pushes[k]);
        }
        lemma_push_all_from_empty(n, p, q);
        assert(pushes[pushes.len() - 1] == pushes.last());
        assert forall|i: int| 0 <= i < n implies #[trigger] thread_items(pushes, i) == if i == j {
            thread_items(q, i).push(x)
        } else {
            thread_items(q, i)
        } by {
            reveal(Seq::filter);
            let fq = q.filter(by_thread::<T>(i));
            if i == j {
                assert(pushes.filter(by_thread::<T>(i)) == fq.push((j, x)));
                assert(fq.push((j, x)).map_values(|p: (int, T)| p.1) =~= fq.map_values(|p: (int, T)| p.1).push(x));
            } else {
                assert(pushes.filter(by_thread::<T>(i)) == fq);
            }
        }
        assert(state_push_all(s, pushes).0 =~= Seq::new(n, |i: int| thread_items(pushes, i)));
    }
}

/// A list of empty lists flattens to nothing.
proof fn lemma_flatten_all_empty<T>(ss: Seq<Seq<T>>)
    requires
        forall|i: int| 0 <= i < ss.len() ==> #[trigger] ss[i] == Seq::<T>::empty(),
    ensures
        ss.flatten() == Seq::<T>::empty(),
    decreases ss.len(),
{
    if ss.len() > 0 {
        assert(ss[0] == Seq::<T>::empty());
        assert forall|i: int| 0 <= i < ss.drop_first().len() implies #[trigger] ss.drop_first()[i]
            == Seq::<T>::empty() by {
            assert(ss.drop_first()[i] == ss[i + 1]);
        }
        lemma_flatten_all_empty(ss.drop_first());
        assert(ss.first() + ss.drop_first().flatten() =~= Seq::<T>::empty());
    }
}

/// Items are seen during exactly the one frame after the one they were written
/// in (law): writes are not seen before the next swap; after it, a read finds
/// exactly the items written between the two swaps, thread by thread and each
/// thread's in the order it wrote them, and nothing from earlier frames; after
/// one more swap with no writes, a read finds nothing.
pub proof fn law_one_frame<T>(s: BufferState<T>, pushes: Seq<(int, T)>)
    requires
        forall|k: int| 0 <= k < pushes.len() ==> 0 <= #[trigger] pushes[k].0 < s.0.len(),
    ensures
        state_read(state_push_all(s, pushes)) == state_read(s),
        state_read(state_swap(state_push_all(state_swap(s), pushes))) == Seq::new(
            s.0.len(),
            |i: int| thread_items(pushes, i),
        ).flatten(),
        state_read(state_swap(state_swap(state_push_all(state_swap(s), pushes)))) == Seq::<T>::empty(),
{
    lemma_push_all_keeps(s, pushes);
    let t = state_swap(s);
    lemma_push_all_keeps(t, pushes);
    lemma_push_all_from_empty(s.0.len(), s.0, pushes);
    let u = state_swap(state_push_all(t, pushes));
    lemma_flatten_all_empty(u.0);
}

} // verus!
