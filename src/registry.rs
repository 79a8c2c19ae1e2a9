use vstd::prelude::*;

verus! {

/// Capacity of each connection's outbound queue, in units.
pub const QUEUE_CAPACITY: usize = 4096;

/// A peer's socket address, as plain values.
#[derive(Clone, Copy, Debug, PartialEq, Eq, Hash, Structural)]
pub enum PeerAddr {
    V4 { ip4: u32, port: u16 },
    V6 { ip6: u128, port: u16, flowinfo: u32, scope_id: u32 },
}

/// Who is at the other end of a connection.
#[derive(Clone, Copy, Debug, PartialEq, Eq, Hash, Structural)]
pub enum ConnectionId {
    /// The server's own terminal; there is only ever one.
    Terminal,
    Network(PeerAddr),
}

/// Whether `id` is the key of one of the entries.
pub open spec fn is_registered<Q>(entries: Seq<(ConnectionId, Q)>, id: ConnectionId) -> bool {
    exists|i: int| 0 <= i < entries.len() && #[trigger] entries[i].0 == id
}

/// No two entries share a key.
pub open spec fn unique_ids<Q>(entries: Seq<(ConnectionId, Q)>) -> bool {
    forall|i: int, j: int|
        0 <= i < entries.len() && 0 <= j < entries.len() && #[trigger] entries[i].0
            == #[trigger] entries[j].0 ==> i == j
}

/// `i` is the position of the first entry of `id`.
pub open spec fn is_first_of<Q>(entries: Seq<(ConnectionId, Q)>, id: ConnectionId, i: int) -> bool {
    &&& 0 <= i < entries.len()
    &&& entries[i].0 == id
    &&& forall|k: int| 0 <= k < i ==> #[trigger] entries[k].0 != id
}

/// The entries after `id` has registered with `queue`: its entry is
/// replaced where it stands, or a new one comes last.
pub open spec fn with_entry<Q>(entries: Seq<(ConnectionId, Q)>, id: ConnectionId, queue: Q) -> Seq<
    (ConnectionId, Q),
> {
    if is_registered(entries, id) {
        let i = choose|i: int| is_first_of(entries, id, i);
        entries.update(i, (id, queue))
    } else {
        entries.push((id, queue))
    }
}

/// The entries other than that of `id`, in their order.
pub open spec fn without_entry<Q>(entries: Seq<(ConnectionId, Q)>, id: ConnectionId) -> Seq<
    (ConnectionId, Q),
> {
    entries.filter(other_than(id))
}

/// Accepts the entries whose key is not `id`.
pub open spec fn other_than<Q>(id: ConnectionId) -> spec_fn((ConnectionId, Q)) -> bool {
    |e: (ConnectionId, Q)| e.0 != id
}

/// `r` lists once each, in increasing order, the positions below `n` that
/// `keep` accepts.
pub open spec fn lists_positions(r: Seq<usize>, n: int, keep: spec_fn(int) -> bool) -> bool {
    &&& forall|a: int, b: int| 0 <= a < b < r.len() ==> #[trigger] r[a] < #[trigger] r[b]
    &&& forall|a: int| 0 <= a < r.len() ==> #[trigger] r[a] < n && keep(r[a] as int)
    &&& forall|i: int| 0 <= i < n && #[trigger] keep(i) ==> r.contains(i as usize)
}

/// The positions that take an echo of a unit that `from` forwarded: every
/// other connection's, if echo is on and the unit reached the process.
pub open spec fn echo_keeps<Q>(v: RegistryView<Q>, from: ConnectionId, written: bool) -> spec_fn(int) -> bool {
    |i: int| v.echo && written && v.entries[i].0 != from
}

/// Every position.
pub open spec fn every_position() -> spec_fn(int) -> bool {
    |i: int| true
}

/// The registry as a specification sees it: one entry per live connection,
/// with the sending end of its outbound queue, and the echo flag.
pub struct RegistryView<Q> {
    pub entries: Seq<(ConnectionId, Q)>,
    pub echo: bool,
}

/// The table of live connections and their outbound queues.
pub struct Registry<Q> {
    entries: Vec<(ConnectionId, Q)>,
    echo: bool,
}

impl<Q> View for Registry<Q> {
    type V = RegistryView<Q>;

    closed spec fn view(&self) -> RegistryView<Q> {
        RegistryView { entries: self.entries@, echo: self.echo }
    }
}

impl<Q> Registry<Q> {
    /// An empty registry; `echo` says whether forwarded input is replayed
    /// to the other connections.
    pub fn new(echo: bool) -> (r: Registry<Q>)
        ensures
            r@.entries == Seq::<(ConnectionId, Q)>::empty(),
            r@.echo == echo,
            unique_ids(r@.entries),
    {
        Registry { entries: Vec::new(), echo }
    }

    /// Position of the entry of `id`, if there is one.
    fn find(&self, id: &ConnectionId) -> (r: Option<usize>)
        ensures
            match r {
                Some(i) => is_first_of(self@.entries, *id, i as int),
                None => !is_registered(self@.entries, *id),
            },
    {
        let mut i: usize = 0;
        while i < self.entries.len()
            invariant
                i <= self.entries@.len(),
                forall|k: int| 0 <= k < i ==> self.entries@[k].0 != *id,
            decreases self.entries@.len() - i,
        {
            if self.entries[i].0 == *id {
                return Some(i);
            }
            i = i + 1;
        }
        None
    }

    /// Whether `id` has an entry.
    pub fn contains(&self, id: &ConnectionId) -> (r: bool)
        ensures
            r == is_registered(self@.entries, *id),
    {
        self.find(id).is_some()
    }

    /// The number of live connections.
    pub fn len(&self) -> (r: usize)
        ensures
            r == self@.entries.len(),
    {
        self.entries.len()
    }

    /// Whether forwarded input is replayed to the other connections.
    pub fn echo(&self) -> (r: bool)
        ensures
            r == self@.echo,
    {
        self.echo
    }

    /// Adds `id` with the sending end of its queue. An id that is already
    /// there keeps its place and gets the new queue.
    pub fn register(&mut self, id: ConnectionId, queue: Q)
        ensures
            final(self)@.entries == with_entry(old(self)@.entries, id, queue),
            final(self)@.echo == old(self)@.echo,
            unique_ids(old(self)@.entries) ==> unique_ids(final(self)@.entries),
    {
        match self.find(&id) {
            Some(i) => {
                proof {
                    let e = self.entries@;
                    let c = choose|c: int| is_first_of(e, id, c);
                    assert(is_first_of(e, id, i as int));
                    if c < i {
                    } else if i < c {
                    }
                }
                self.entries.set(i, (id, queue));
            },
            None => {
                self.entries.push((id, queue));
                proof {
                    let e = self.entries@;
                    assert forall|a: int, b: int|
                        0 <= a < e.len() && 0 <= b < e.len() && #[trigger] e[a].0
                            == #[trigger] e[b].0 && unique_ids(old(self)@.entries) implies a == b by {
                        if a < e.len() - 1 && b == e.len() - 1 {
                            assert(old(self)@.entries[a].0 == id);
                        } else if b < e.len() - 1 && a == e.len() - 1 {
                            assert(old(self)@.entries[b].0 == id);
                        }
                    }
                }
            },
        }
    }

    /// Removes the entry of `id`; nothing happens where there is none.
    /// Says whether there was one.
    pub fn deregister(&mut self, id: &ConnectionId) -> (r: bool)
        ensures
            final(self)@.entries == without_entry(old(self)@.entries, *id),
            final(self)@.echo == old(self)@.echo,
            r == is_registered(old(self)@.entries, *id),
            unique_ids(old(self)@.entries) ==> unique_ids(final(self)@.entries),
    {
        let ghost old_entries = self.entries@;
        let mut removed = false;
        let mut i: usize = 0;
        let ghost mut j: int = 0;
        proof {
            reveal(Seq::filter);
            assert(old_entries.take(0) =~= Seq::<(ConnectionId, Q)>::empty());
            assert(old_entries.skip(0) =~= old_entries);
            assert(without_entry(old_entries.take(0), *id) =~= Seq::<(ConnectionId, Q)>::empty());
        }
        while i < self.entries.len()
            invariant
                0 <= j <= old_entries.len(),
                self.entries@ == without_entry(old_entries.take(j), *id) + old_entries.skip(j),
                i == without_entry(old_entries.take(j), *id).len(),
                removed == exists|k: int| 0 <= k < j && #[trigger] old_entries[k].0 == *id,
                self.echo == old(self).echo,
            decreases old_entries.len() - j,
        {
            proof {
                lemma_without_entry_step(old_entries, *id, j);
                assert(self.entries@[i as int] == old_entries[j]);
            }
            if self.entries[i].0 == *id {
                self.entries.remove(i);
                removed = true;
                proof {
                    assert(self.entries@ =~= without_entry(old_entries.take(j + 1), *id)
                        + old_entries.skip(j + 1));
                    j = j + 1;
                }
            } else {
                i = i + 1;
                proof {
                    assert(self.entries@ =~= without_entry(old_entries.take(j + 1), *id)
                        + old_entries.skip(j + 1));
                    assert(!(old_entries[j].0 == *id));
                    j = j + 1;
                }
            }
        }
        proof {
            if j < old_entries.len() {
                assert(self.entries@.len() == i + old_entries.skip(j).len());
            }
            assert(old_entries.take(j) =~= old_entries);
            assert(self.entries@ =~= without_entry(old_entries, *id));
            if unique_ids(old_entries) {
                lemma_without_entry_unique(old_entries, *id);
            }
        }
        removed
    }

    /// The sending end of the queue at position `i`.
    pub fn queue_at(&self, i: usize) -> (r: &Q)
        requires
            i < self@.entries.len(),
        ensures
            *r == self@.entries[i as int].1,
    {
        &self.entries[i].1
    }

    /// The connection at position `i`.
    pub fn id_at(&self, i: usize) -> (r: ConnectionId)
        requires
            i < self@.entries.len(),
        ensures
            r == self@.entries[i as int].0,
    {
        self.entries[i].0
    }

    /// Positions of the queues that the units are broadcast to, in the
    /// order of the table, with a position for every live connection.
    pub fn broadcast_targets(&self) -> (r: Vec<usize>)
        ensures
            lists_positions(r@, self@.entries.len() as int, every_position()),
    {
        let mut r: Vec<usize> = Vec::new();
        let mut i: usize = 0;
        while i < self.entries.len()
            invariant
                i <= self@.entries.len(),
                r@.len() == i,
                forall|a: int| 0 <= a < i ==> #[trigger] r@[a] == a,
            decreases self@.entries.len() - i,
        {
            r.push(i);
            i = i + 1;
        }
        proof {
            assert forall|k: int| 0 <= k < self@.entries.len() && #[trigger] every_position()(
                k,
            ) implies r@.contains(k as usize) by {
                assert(r@[k] == k);
            }
        }
        r
    }

    /// Positions of the queues that take an echo of a unit forwarded by
    /// `from`, given whether it was written to the process: none unless
    /// echo is on and the write succeeded, and never that of `from` itself.
    pub fn echo_targets(&self, from: &ConnectionId, written: bool) -> (r: Vec<usize>)
        ensures
            lists_positions(r@, self@.entries.len() as int, echo_keeps(self@, *from, written)),
    {
        let ghost keep = echo_keeps(self@, *from, written);
        let mut r: Vec<usize> = Vec::new();
        let mut i: usize = 0;
        while i < self.entries.len()
            invariant
                keep == echo_keeps(self@, *from, written),
                i <= self@.entries.len(),
                forall|a: int, b: int| 0 <= a < b < r@.len() ==> #[trigger] r@[a] < #[trigger] r@[b],
                forall|a: int| 0 <= a < r@.len() ==> #[trigger] r@[a] < i && keep(r@[a] as int),
                forall|k: int| 0 <= k < i && #[trigger] keep(k) ==> r@.contains(k as usize),
            decreases self@.entries.len() - i,
        {
            if self.echo && written && self.entries[i].0 != *from {
                let ghost before = r@;
                r.push(i);
                proof {
                    assert(r@[r@.len() - 1] == i);
                    assert forall|k: int| 0 <= k < i + 1 && #[trigger] keep(k) implies r@.contains(
                        k as usize,
                    ) by {
                        if k < i {
                            let c = choose|c: int| 0 <= c < before.len() && before[c] == k as usize;
                            assert(r@[c] == k as usize);
                        } else {
                            assert(r@[r@.len() - 1] == k as usize);
                        }
                    }
                }
            }
            i = i + 1;
        }
        r
    }
}

/// Taking one more entry into account when dropping those of `id`.
proof fn lemma_without_entry_step<Q>(s: Seq<(ConnectionId, Q)>, id: ConnectionId, j: int)
    requires
        0 <= j < s.len(),
    ensures
        without_entry(s.take(j + 1), id) == if s[j].0 != id {
            without_entry(s.take(j), id).push(s[j])
        } else {
            without_entry(s.take(j), id)
        },
{
    reveal(Seq::filter);
    assert(s.take(j + 1).drop_last() =~= s.take(j));
    assert(s.take(j + 1).last() == s[j]);
}

/// Dropping the entries of one key keeps the other keys unique.
proof fn lemma_without_entry_unique<Q>(s: Seq<(ConnectionId, Q)>, id: ConnectionId)
    requires
        unique_ids(s),
    ensures
        unique_ids(without_entry(s, id)),
    decreases s.len(),
{
    reveal(Seq::filter);
    if s.len() > 0 {
        let rest = s.drop_last();
        assert forall|a: int, b: int|
            0 <= a < rest.len() && 0 <= b < rest.len() && #[trigger] rest[a].0
                == #[trigger] rest[b].0 implies a == b by {
            assert(s[a].0 == s[b].0);
        }
        lemma_without_entry_unique(rest, id);
        let f = without_entry(rest, id);
        if other_than::<Q>(id)(s.last()) {
            assert forall|i: int| 0 <= i < f.len() implies (#[trigger] f[i]).0 != s.last().0 by {
                assert(f.contains(f[i]));
                rest.lemma_filter_contains_rev(other_than(id), f[i]);
                let k = choose|k: int| 0 <= k < rest.len() && rest[k] == f[i];
                assert(s[k].0 == f[i].0);
                if f[i].0 == s.last().0 {
                    assert(s[k].0 == s[s.len() - 1].0);
                }
            }
            let g = f.push(s.last());
            assert(without_entry(s, id) == g);
            assert forall|a: int, b: int|
                0 <= a < g.len() && 0 <= b < g.len() && #[trigger] g[a].0 == #[trigger] g[b].0 implies a
                == b by {
                if a < f.len() && b == f.len() {
                    assert(f[a].0 != s.last().0);
                } else if b < f.len() && a == f.len() {
                    assert(f[b].0 != s.last().0);
                } else if a < f.len() && b < f.len() {
                    assert(f[a].0 == f[b].0);
                }
            }
        }
    }
}

/// A filter that accepts every element changes nothing.
proof fn lemma_filter_keeps_all<A>(s: Seq<A>, keep: spec_fn(A) -> bool)
    requires
        forall|i: int| 0 <= i < s.len() ==> keep(#[trigger] s[i]),
    ensures
        s.filter(keep) == s,
    decreases s.len(),
{
    reveal(Seq::filter);
    if s.len() > 0 {
        lemma_filter_keeps_all(s.drop_last(), keep);
        assert(s.drop_last().push(s.last()) =~= s);
    }
}

/// Deregistering is idempotent: after one call `id` has no entry, and a
/// second call in a row leaves the table as the first left it.
pub proof fn lemma_deregister_idempotent<Q>(entries: Seq<(ConnectionId, Q)>, id: ConnectionId)
    ensures
        !is_registered(without_entry(entries, id), id),
        without_entry(without_entry(entries, id), id) == without_entry(entries, id),
{
    broadcast use Seq::lemma_filter_pred;

    let once = without_entry(entries, id);
    assert forall|i: int| 0 <= i < once.len() implies (#[trigger] once[i]).0 != id by {
        entries.lemma_filter_pred(other_than(id), i);
    }
    lemma_filter_keeps_all(once, other_than(id));
}

/// Echo: with echo on and the unit written to the process, the echo of a
/// unit forwarded by `from` goes to the queue of every other registered
/// connection, and never to a queue of `from` itself.
pub proof fn lemma_echo_skips_sender<Q>(v: RegistryView<Q>, from: ConnectionId, targets: Seq<usize>)
    requires
        v.echo,
        lists_positions(targets, v.entries.len() as int, echo_keeps(v, from, true)),
    ensures
        forall|i: int|
            0 <= i < v.entries.len() && (#[trigger] v.entries[i]).0 != from ==> targets.contains(
                i as usize,
            ),
        forall|a: int|
            0 <= a < targets.len() ==> #[trigger] targets[a] < v.entries.len() && v.entries[targets[a] as int].0
                != from,
{
    assert forall|i: int| 0 <= i < v.entries.len() && (#[trigger] v.entries[i]).0 != from implies targets.contains(
        i as usize,
    ) by {
        assert(echo_keeps(v, from, true)(i));
    }
}

/// After `id` deregisters, no broadcast target is a queue of `id`.
pub proof fn lemma_broadcast_skips_departed<Q>(v: RegistryView<Q>, id: ConnectionId, targets: Seq<usize>)
    requires
        lists_positions(targets, without_entry(v.entries, id).len() as int, every_position()),
    ensures
        forall|a: int|
            0 <= a < targets.len() ==> without_entry(v.entries, id)[#[trigger] targets[a] as int].0
                != id,
{
    lemma_deregister_idempotent(v.entries, id);
}

} // verus!
