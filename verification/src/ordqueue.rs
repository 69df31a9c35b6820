//! The ordered-merge queue: accepts `(index, item)` pairs in any order and
//! releases the items strictly in index order. It decouples parallel,
//! unordered producers (colour-conversion workers) from the single sequential
//! consumer (the H.264 encoder), which must see frames in sequence order.

use vstd::prelude::*;

verus! {

/// Error returned by [`OrderedMergeQueue::push`].
#[derive(Clone, Copy, Debug, PartialEq, Eq, Structural)]
pub enum QueueError {
    /// The queue was closed before the push.
    Closed,
    /// The index was already released (it is below the cursor) or an item with
    /// the same index is already buffered.
    DuplicateOrPast,
}

/// The mathematical model of the queue: the buffered out-of-order items as a
/// map from sequence index to item, the next index owed to the consumer, and
/// whether producers have finished.
pub struct QueueModel<T> {
    /// Buffered items that have not been released yet, keyed by sequence index.
    pub pending: Map<int, T>,
    /// The next index the consumer is owed.
    pub cursor: int,
    /// Whether the queue was closed for further pushes.
    pub closed: bool,
}

/// The pending map described by an association list of `(index, item)` pairs.
pub open spec fn entries_map<T>(s: Seq<(u64, T)>) -> Map<int, T>
    decreases s.len(),
{
    if s.len() == 0 {
        Map::empty()
    } else {
        entries_map(s.drop_last()).insert(s.last().0 as int, s.last().1)
    }
}

/// A queue that turns out-of-order indexed inserts into an in-order sequence.
///
/// An item is released by [`Self::next`] if and only if its index equals the
/// cursor, after which the cursor advances by one; items may be pushed in any
/// order, and pushing an index below the cursor is an error.
pub struct OrderedMergeQueue<T> {
    entries: Vec<(u64, T)>,
    cursor: u64,
    closed: bool,
}

impl<T> View for OrderedMergeQueue<T> {
    type V = QueueModel<T>;

    closed spec fn view(&self) -> QueueModel<T> {
        QueueModel {
            pending: entries_map(self.entries@),
            cursor: self.cursor as int,
            closed: self.closed,
        }
    }
}

impl<T> OrderedMergeQueue<T> {
    /// Internal well-formedness: buffered indices are distinct, none is below
    /// the cursor, and each leaves room for the cursor to advance past it.
    pub closed spec fn wf(self) -> bool {
        &&& forall|i: int, j: int|
            0 <= i < j < self.entries@.len() ==> (#[trigger] self.entries@[i]).0 != (
            #[trigger] self.entries@[j]).0
        &&& forall|i: int|
            0 <= i < self.entries@.len() ==> (#[trigger] self.entries@[i]).0 >= self.cursor
        &&& forall|i: int|
            0 <= i < self.entries@.len() ==> (#[trigger] self.entries@[i]).0 < u64::MAX
    }

    /// An empty, open queue whose cursor starts at index 0.
    pub fn new() -> (q: Self)
        ensures
            q.wf(),
            q@.pending == Map::<int, T>::empty(),
            q@.cursor == 0,
            !q@.closed,
    {
        OrderedMergeQueue { entries: Vec::new(), cursor: 0, closed: false }
    }

    /// Buffer `item` under sequence index `index`.
    ///
    /// Fails with `Closed` after [`Self::close`], and with `DuplicateOrPast`
    /// if `index` was already released or is already buffered; a failed push
    /// leaves the queue unchanged.
    #[verifier::loop_isolation(false)]
    pub fn push(&mut self, index: u64, item: T) -> (r: Result<(), QueueError>)
        requires
            old(self).wf(),
            index < u64::MAX,
        ensures
            final(self).wf(),
            old(self)@.closed ==> r == Err::<(), QueueError>(QueueError::Closed),
            !old(self)@.closed && (index < old(self)@.cursor
                || old(self)@.pending.contains_key(index as int)) ==> r == Err::<(), QueueError>(
                QueueError::DuplicateOrPast),
            !old(self)@.closed && index >= old(self)@.cursor
                && !old(self)@.pending.contains_key(index as int) ==> r == Ok::<(), QueueError>(())
                && final(self)@.pending == old(self)@.pending.insert(index as int, item)
                && final(self)@.cursor == old(self)@.cursor
                && final(self)@.closed == old(self)@.closed,
            r is Err ==> *final(self) == *old(self),
    {
        if self.closed {
            return Err(QueueError::Closed);
        }
        if index < self.cursor {
            return Err(QueueError::DuplicateOrPast);
        }
        let ghost s = self.entries@;
        let mut j: usize = 0;
        while j < self.entries.len()
            invariant
                *self == *old(self),
                self.entries@ == s,
                j <= s.len(),
                forall|k: int| 0 <= k < j ==> (#[trigger] s[k]).0 != index,
            decreases s.len() - j,
        {
            if self.entries[j].0 == index {
                proof {
                    lemma_entries_map_dom(s);
                    assert(s[j as int].0 as int == index as int);
                    assert(entries_map(s).contains_key(index as int));
                }
                return Err(QueueError::DuplicateOrPast);
            }
            j += 1;
        }
        proof {
            lemma_entries_map_dom(s);
            assert(!entries_map(s).contains_key(index as int)) by {
                if entries_map(s).contains_key(index as int) {
                    let k = choose|k: int|
                        0 <= k < s.len() && (#[trigger] s[k]).0 as int == index as int;
                    assert(s[k].0 != index);
                }
            }
            assert(s.push((index, item)).drop_last() =~= s);
        }
        self.entries.push((index, item));
        Ok(())
    }

    /// Release the item at the cursor, if it has arrived.
    ///
    /// Returns `Some` and advances the cursor exactly when the item with the
    /// cursor's index is buffered; otherwise returns `None` and leaves the
    /// queue unchanged (the consumer retries, or stops once
    /// [`Self::is_finished`] holds).
    #[verifier::loop_isolation(false)]
    pub fn next(&mut self) -> (r: Option<T>)
        requires
            old(self).wf(),
        ensures
            final(self).wf(),
            0 <= final(self)@.cursor <= u64::MAX,
            old(self)@.pending.contains_key(old(self)@.cursor) ==> r == Some(
                old(self)@.pending[old(self)@.cursor])
                && final(self)@.pending == old(self)@.pending.remove(old(self)@.cursor)
                && final(self)@.cursor == old(self)@.cursor + 1
                && final(self)@.closed == old(self)@.closed,
            !old(self)@.pending.contains_key(old(self)@.cursor) ==> r is None && *final(self)
                == *old(self),
    {
        let ghost s = self.entries@;
        let mut j: usize = 0;
        while j < self.entries.len()
            invariant
                *self == *old(self),
                self.entries@ == s,
                j <= s.len(),
                forall|k: int| 0 <= k < j ==> (#[trigger] s[k]).0 != self.cursor,
            decreases s.len() - j,
        {
            if self.entries[j].0 == self.cursor {
                proof {
                    lemma_entries_map_dom(s);
                    lemma_entries_map_at(s, j as int);
                    lemma_entries_map_remove(s, j as int);
                    assert(s[j as int].0 as int == self.cursor as int);
                    assert(entries_map(s).contains_key(self.cursor as int));
                    assert(forall|p: int|
                        0 <= p < s.remove(j as int).len() ==> (#[trigger] s.remove(j as int)[p])
                            == (if p < j { s[p] } else { s[p + 1] }));
                }
                let (_, item) = self.entries.remove(j);
                self.cursor = self.cursor + 1;
                return Some(item);
            }
            j += 1;
        }
        proof {
            lemma_entries_map_dom(s);
            assert(!entries_map(s).contains_key(self.cursor as int)) by {
                if entries_map(s).contains_key(self.cursor as int) {
                    let k = choose|k: int|
                        0 <= k < s.len() && (#[trigger] s[k]).0 as int == self.cursor as int;
                    assert(s[k].0 != self.cursor);
                }
            }
        }
        None
    }

    /// Close the queue: no further pushes succeed, but buffered items are
    /// still drained in order by [`Self::next`].
    pub fn close(&mut self)
        requires
            old(self).wf(),
        ensures
            final(self).wf(),
            final(self)@.closed,
            final(self)@.pending == old(self)@.pending,
            final(self)@.cursor == old(self)@.cursor,
    {
        self.closed = true;
    }

    /// Whether the queue was closed.
    pub fn is_closed(&self) -> (r: bool)
        ensures
            r == self@.closed,
    {
        self.closed
    }

    /// Whether the queue is closed and fully drained: once this holds,
    /// [`Self::next`] will never return an item again.
    pub fn is_finished(&self) -> (r: bool)
        requires
            self.wf(),
        ensures
            r == (self@.closed && self@.pending =~= Map::<int, T>::empty()),
    {
        proof {
            let s = self.entries@;
            lemma_entries_map_dom(s);
            if s.len() > 0 {
                assert(s[0].0 as int == s[0].0 as int);
                assert(entries_map(s).contains_key(s[0].0 as int));
            }
        }
        self.closed && self.entries.len() == 0
    }

    /// The number of buffered (not yet released) items.
    pub fn buffered(&self) -> (r: usize)
        requires
            self.wf(),
        ensures
            r == self@.pending.dom().len(),
    {
        proof {
            lemma_entries_map_len(self.entries@);
        }
        self.entries.len()
    }

    /// The next index the consumer is owed.
    pub fn cursor(&self) -> (r: u64)
        ensures
            r == self@.cursor,
    {
        self.cursor
    }
}

/// The pending map holding exactly `vs[i]` under each index `i` below `vs.len()`.
pub open spec fn full_map<T>(vs: Seq<T>) -> Map<int, T> {
    Map::new(|i: int| 0 <= i < vs.len(), |i: int| vs[i])
}

/// The pending map reached from `m` by buffering the pairs of `ps` in order,
/// as [`OrderedMergeQueue::push`] does.
pub open spec fn apply_pushes<T>(m: Map<int, T>, ps: Seq<(u64, T)>) -> Map<int, T>
    decreases ps.len(),
{
    if ps.len() == 0 {
        m
    } else {
        apply_pushes(m.insert(ps[0].0 as int, ps[0].1), ps.drop_first())
    }
}

/// The items a consumer reads from pending map `m` by `n` in-order releases
/// starting at cursor `c`, as [`OrderedMergeQueue::next`] performs them.
pub open spec fn drain_seq<T>(m: Map<int, T>, c: int, n: nat) -> Seq<T>
    decreases n,
{
    if n == 0 {
        Seq::empty()
    } else {
        seq![m[c]] + drain_seq(m, c + 1, (n - 1) as nat)
    }
}

/// The cursor is a machine index: it always lies within `u64`.
pub proof fn lemma_cursor_in_range<T>(q: &OrderedMergeQueue<T>)
    ensures
        0 <= q@.cursor <= u64::MAX,
{
}

/// A well-formed queue buffers finitely many items: its pending map's domain
/// is finite (so a drain loop terminates on it).
pub proof fn lemma_pending_finite<T>(q: &OrderedMergeQueue<T>)
    requires
        q.wf(),
    ensures
        q@.pending.dom().finite(),
{
    lemma_entries_map_len(q.entries@);
}

/// Whether some pair of `ps` carries the sequence index `i`.
pub open spec fn carries_index<T>(ps: Seq<(u64, T)>, i: int) -> bool {
    exists|k: int| 0 <= k < ps.len() && (#[trigger] ps[k]).0 as int == i
}

/// Law: the queue restores order under any interleaving of producers.
///
/// If the pairs `(i, vs[i])` for `i` below `vs.len()` are pushed into an empty
/// queue in any permutation `ps` of those pairs, the resulting pending map is
/// `full_map(vs)` regardless of the permutation, and draining it from cursor 0
/// releases exactly `vs[0], vs[1], ..., vs[vs.len() - 1]` in that order.
pub proof fn lemma_merge_restores_order<T>(vs: Seq<T>, ps: Seq<(u64, T)>)
    requires
        ps.len() == vs.len(),
        forall|k: int| 0 <= k < ps.len() ==> (#[trigger] ps[k]).0 < vs.len(),
        forall|k: int| 0 <= k < ps.len() ==> (#[trigger] ps[k]).1 == vs[ps[k].0 as int],
        forall|k: int, l: int|
            0 <= k < l < ps.len() ==> (#[trigger] ps[k]).0 != (#[trigger] ps[l]).0,
        forall|i: int| 0 <= i < vs.len() ==> #[trigger] carries_index(ps, i),
    ensures
        apply_pushes(Map::empty(), ps) == full_map(vs),
        drain_seq(full_map(vs), 0, vs.len()) == vs,
{
    lemma_apply_pushes_char(Map::empty(), ps);
    assert forall|i: int| #[trigger]
        full_map(vs).contains_key(i) implies apply_pushes(Map::<int, T>::empty(), ps).contains_key(
        i,
    ) && apply_pushes(Map::<int, T>::empty(), ps)[i] == full_map(vs)[i] by {
        assert(carries_index(ps, i));
        let k = choose|k: int| 0 <= k < ps.len() && (#[trigger] ps[k]).0 as int == i;
        assert(apply_pushes(Map::<int, T>::empty(), ps)[ps[k].0 as int] == ps[k].1);
    }
    assert forall|i: int| #[trigger]
        apply_pushes(Map::<int, T>::empty(), ps).contains_key(i) implies full_map(
        vs,
    ).contains_key(i) by {
        let k = choose|k: int| 0 <= k < ps.len() && (#[trigger] ps[k]).0 as int == i;
    }
    assert(apply_pushes(Map::<int, T>::empty(), ps) =~= full_map(vs));
    lemma_drain_subrange(vs, 0);
    assert(vs.subrange(0, vs.len() as int) =~= vs);
}

/// Law: releases already made do not disturb the rest of the drain: removing
/// a key below the cursor leaves every later release unchanged.
pub proof fn lemma_drain_unaffected_by_release<T>(m: Map<int, T>, c0: int, c: int, n: nat)
    requires
        c0 < c,
    ensures
        drain_seq(m.remove(c0), c, n) == drain_seq(m, c, n),
    decreases n,
{
    if n > 0 {
        lemma_drain_unaffected_by_release(m, c0, c + 1, (n - 1) as nat);
    }
}

/// Draining `full_map(vs)` from cursor `c` to the end releases the suffix of
/// `vs` starting at `c`.
proof fn lemma_drain_subrange<T>(vs: Seq<T>, c: int)
    requires
        0 <= c <= vs.len(),
    ensures
        drain_seq(full_map(vs), c, (vs.len() - c) as nat) == vs.subrange(c, vs.len() as int),
    decreases vs.len() - c,
{
    if c < vs.len() {
        lemma_drain_subrange(vs, c + 1);
        assert(seq![full_map(vs)[c]] + vs.subrange(c + 1, vs.len() as int) =~= vs.subrange(
            c,
            vs.len() as int,
        ));
    } else {
        assert(drain_seq(full_map(vs), c, 0) =~= vs.subrange(c, vs.len() as int));
    }
}

/// What `apply_pushes` builds: every pushed key maps to its pushed item, and
/// untouched keys keep their value from `m`.
proof fn lemma_apply_pushes_char<T>(m: Map<int, T>, ps: Seq<(u64, T)>)
    requires
        forall|k: int, l: int|
            0 <= k < l < ps.len() ==> (#[trigger] ps[k]).0 != (#[trigger] ps[l]).0,
    ensures
        forall|k: int| #[trigger]
            apply_pushes(m, ps).contains_key(k) <==> (m.contains_key(k) || exists|j: int|
                0 <= j < ps.len() && (#[trigger] ps[j]).0 as int == k),
        forall|j: int|
            0 <= j < ps.len() ==> apply_pushes(m, ps)[(#[trigger] ps[j]).0 as int] == ps[j].1,
        forall|k: int|
            m.contains_key(k) && !(exists|j: int|
                0 <= j < ps.len() && (#[trigger] ps[j]).0 as int == k) ==> #[trigger] apply_pushes(
                m,
                ps,
            )[k] == m[k],
    decreases ps.len(),
{
    if ps.len() > 0 {
        let m1 = m.insert(ps[0].0 as int, ps[0].1);
        let rest = ps.drop_first();
        assert(forall|j: int| 0 <= j < rest.len() ==> rest[j] == ps[j + 1]);
        lemma_apply_pushes_char(m1, rest);
        assert(apply_pushes(m, ps) == apply_pushes(m1, rest));
        assert forall|k: int| #[trigger]
            apply_pushes(m, ps).contains_key(k) <==> (m.contains_key(k) || exists|j: int|
                0 <= j < ps.len() && (#[trigger] ps[j]).0 as int == k) by {
            if apply_pushes(m, ps).contains_key(k) {
                if m1.contains_key(k) && !m.contains_key(k) && k != ps[0].0 as int {
                    assert(false);
                } else if !m1.contains_key(k) {
                    let j = choose|j: int|
                        0 <= j < rest.len() && (#[trigger] rest[j]).0 as int == k;
                    assert(ps[j + 1].0 as int == k);
                } else if k == ps[0].0 as int {
                    assert(ps[0].0 as int == k);
                }
            }
            if m.contains_key(k) {
                assert(m1.contains_key(k));
            }
            if exists|j: int| 0 <= j < ps.len() && (#[trigger] ps[j]).0 as int == k {
                let j = choose|j: int| 0 <= j < ps.len() && (#[trigger] ps[j]).0 as int == k;
                if j == 0 {
                    assert(m1.contains_key(k));
                } else {
                    assert(rest[j - 1].0 as int == k);
                }
            }
        }
        assert forall|j: int|
            0 <= j < ps.len() implies apply_pushes(m, ps)[(#[trigger] ps[j]).0 as int]
            == ps[j].1 by {
            if j == 0 {
                let k = ps[0].0 as int;
                assert(!(exists|l: int| 0 <= l < rest.len() && (#[trigger] rest[l]).0 as int == k))
                    by {
                    if exists|l: int| 0 <= l < rest.len() && (#[trigger] rest[l]).0 as int == k {
                        let l = choose|l: int|
                            0 <= l < rest.len() && (#[trigger] rest[l]).0 as int == k;
                        assert(ps[l + 1].0 != ps[0].0);
                    }
                }
                assert(m1.contains_key(k) && m1[k] == ps[0].1);
                assert(apply_pushes(m1, rest)[k] == m1[k]);
            } else {
                assert(rest[j - 1] == ps[j]);
                assert(apply_pushes(m1, rest)[rest[j - 1].0 as int] == rest[j - 1].1);
            }
        }
        assert forall|k: int|
            m.contains_key(k) && !(exists|j: int|
                0 <= j < ps.len() && (#[trigger] ps[j]).0 as int == k) implies #[trigger]
            apply_pushes(m, ps)[k] == m[k] by {
            assert(ps[0].0 as int != k);
            assert(m1.contains_key(k) && m1[k] == m[k]);
            assert(!(exists|l: int| 0 <= l < rest.len() && (#[trigger] rest[l]).0 as int == k)) by {
                if exists|l: int| 0 <= l < rest.len() && (#[trigger] rest[l]).0 as int == k {
                    let l = choose|l: int|
                        0 <= l < rest.len() && (#[trigger] rest[l]).0 as int == k;
                    assert(ps[l + 1].0 as int == k);
                }
            }
            assert(apply_pushes(m1, rest)[k] == m1[k]);
        }
    }
}

/// The domain of the pending map is exactly the set of buffered indices.
proof fn lemma_entries_map_dom<T>(s: Seq<(u64, T)>)
    ensures
        forall|k: int| #[trigger]
            entries_map(s).contains_key(k) <==> exists|j: int|
                0 <= j < s.len() && (#[trigger] s[j]).0 as int == k,
    decreases s.len(),
{
    if s.len() > 0 {
        let t = s.drop_last();
        lemma_entries_map_dom(t);
        assert forall|k: int| #[trigger]
            entries_map(s).contains_key(k) <==> exists|j: int|
                0 <= j < s.len() && (#[trigger] s[j]).0 as int == k by {
            let last_k = s.last().0 as int;
            if entries_map(s).contains_key(k) {
                if k == last_k {
                    assert(s[s.len() - 1].0 as int == k);
                } else {
                    assert(entries_map(t).contains_key(k));
                    let j = choose|j: int| 0 <= j < t.len() && (#[trigger] t[j]).0 as int == k;
                    assert(s[j] == t[j]);
                    assert(s[j].0 as int == k);
                }
            }
            if exists|j: int| 0 <= j < s.len() && (#[trigger] s[j]).0 as int == k {
                let j = choose|j: int| 0 <= j < s.len() && (#[trigger] s[j]).0 as int == k;
                if j == s.len() - 1 {
                    assert(entries_map(s).contains_key(last_k));
                } else {
                    assert(t[j] == s[j]);
                    assert(t[j].0 as int == k);
                    assert(entries_map(t).contains_key(k));
                }
            }
        }
    }
}

/// With distinct indices, the pending map sends each buffered index to the
/// item stored beside it.
proof fn lemma_entries_map_at<T>(s: Seq<(u64, T)>, i: int)
    requires
        0 <= i < s.len(),
        forall|p: int, q: int| 0 <= p < q < s.len() ==> (#[trigger] s[p]).0 != (#[trigger] s[q]).0,
    ensures
        entries_map(s).contains_key(s[i].0 as int),
        entries_map(s)[s[i].0 as int] == s[i].1,
    decreases s.len(),
{
    let t = s.drop_last();
    if i < s.len() - 1 {
        lemma_entries_map_at(t, i);
        assert(t[i] == s[i]);
        assert(s[i].0 != s[s.len() - 1].0);
    }
}

/// With distinct indices, the number of buffered indices equals the number of
/// buffered pairs.
proof fn lemma_entries_map_len<T>(s: Seq<(u64, T)>)
    requires
        forall|p: int, q: int| 0 <= p < q < s.len() ==> (#[trigger] s[p]).0 != (#[trigger] s[q]).0,
    ensures
        entries_map(s).dom().finite(),
        entries_map(s).dom().len() == s.len(),
    decreases s.len(),
{
    if s.len() > 0 {
        let t = s.drop_last();
        assert(forall|p: int| 0 <= p < t.len() ==> t[p] == s[p]);
        lemma_entries_map_len(t);
        lemma_entries_map_dom(t);
        assert(!entries_map(t).contains_key(s.last().0 as int)) by {
            if entries_map(t).contains_key(s.last().0 as int) {
                let j = choose|j: int|
                    0 <= j < t.len() && (#[trigger] t[j]).0 as int == s.last().0 as int;
                assert(s[j].0 != s[s.len() - 1].0);
            }
        }
    }
}

/// With distinct indices, removing the pair at position `i` removes exactly
/// its index from the pending map.
proof fn lemma_entries_map_remove<T>(s: Seq<(u64, T)>, i: int)
    requires
        0 <= i < s.len(),
        forall|p: int, q: int| 0 <= p < q < s.len() ==> (#[trigger] s[p]).0 != (#[trigger] s[q]).0,
    ensures
        entries_map(s.remove(i)) == entries_map(s).remove(s[i].0 as int),
    decreases s.len(),
{
    lemma_entries_map_dom(s);
    if i == s.len() - 1 {
        assert(s.remove(i) =~= s.drop_last());
        lemma_entries_map_dom(s.drop_last());
        assert(!entries_map(s.drop_last()).contains_key(s.last().0 as int)) by {
            if entries_map(s.drop_last()).contains_key(s.last().0 as int) {
                let j = choose|j: int|
                    0 <= j < s.drop_last().len() && (#[trigger] s.drop_last()[j]).0 as int
                        == s.last().0 as int;
                assert(s[j] == s.drop_last()[j]);
                assert(s[j].0 != s[s.len() - 1].0);
            }
        }
        assert(entries_map(s.drop_last()) =~= entries_map(s).remove(s[i].0 as int));
    } else {
        let t = s.remove(i);
        let u = s.drop_last();
        assert(forall|p: int| 0 <= p < u.len() ==> u[p] == s[p]);
        assert(t.last() == s.last());
        assert(t.drop_last() =~= u.remove(i));
        lemma_entries_map_remove(u, i);
        assert(u[i] == s[i]);
        assert(entries_map(t) == entries_map(u.remove(i)).insert(
            s.last().0 as int,
            s.last().1,
        ));
        assert(s[i].0 != s[s.len() - 1].0);
        assert(entries_map(u.remove(i)).insert(s.last().0 as int, s.last().1)
            =~= entries_map(u).insert(s.last().0 as int, s.last().1).remove(s[i].0 as int));
    }
}

} // verus!
