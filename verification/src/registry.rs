//! The connection registry: the single shared map from connection identifier
//! to session state.
//!
//! A connection is present here exactly while its channel is believed open.
//! Identifiers are allocated from a monotone counter, so an identifier is
//! never reused while the service runs; removal is immediate and final.
//! Every operation is atomic with respect to the others: the transport wraps
//! the whole registry in one exclusive-access scope per call.

use vstd::prelude::*;

verus! {

/// Session state of one live connection: its identifier and the display name,
/// unset until the client sets one. The outbound send path itself stays with
/// the transport; the core only plans which identifiers to send to.
#[derive(Debug)]
pub struct WsClientConnection {
    pub id: u64,
    pub name: Option<String>,
}

/// Does some entry of `s` carry the identifier `id`?
pub open spec fn contains_id(s: Seq<WsClientConnection>, id: u64) -> bool {
    exists|i: int| 0 <= i < s.len() && s[i].id == id
}

/// The index of the entry carrying `id`; meaningful only when `contains_id`
/// holds, and unique once identifiers are distinct.
pub open spec fn idx_of(s: Seq<WsClientConnection>, id: u64) -> int {
    choose|i: int| 0 <= i < s.len() && s[i].id == id
}

/// No identifier occurs twice.
pub open spec fn ids_distinct(s: Seq<WsClientConnection>) -> bool {
    forall|i: int, j: int| 0 <= i < j < s.len() ==> s[i].id != s[j].id
}

/// The display name recorded for `id`; meaningful only when `contains_id` holds.
pub open spec fn name_of(s: Seq<WsClientConnection>, id: u64) -> Option<String> {
    s[idx_of(s, id)].name
}

/// With distinct identifiers, `idx_of` finds exactly the index one exhibits.
pub proof fn lemma_idx_of(s: Seq<WsClientConnection>, id: u64, i: int)
    requires
        ids_distinct(s),
        0 <= i < s.len(),
        s[i].id == id,
    ensures
        contains_id(s, id),
        idx_of(s, id) == i,
{
    assert(contains_id(s, id));
    let j = idx_of(s, id);
    if j != i {
        if j < i {
            assert(s[j].id != s[i].id);
        } else {
            assert(s[i].id != s[j].id);
        }
        assert(false);
    }
}


/// `conns` with every entry whose identifier is in `failed` taken out.
pub open spec fn remove_ids(conns: Seq<WsClientConnection>, failed: Seq<u64>) -> Seq<
    WsClientConnection,
>
    decreases conns.len(),
{
    if conns.len() == 0 {
        Seq::empty()
    } else {
        let rest = remove_ids(conns.drop_last(), failed);
        if failed.contains(conns.last().id) {
            rest
        } else {
            rest.push(conns.last())
        }
    }
}

/// What the removal keeps: exactly the entries not reported failed, each an
/// entry of the original, with distinctness preserved.
pub proof fn lemma_remove_ids(conns: Seq<WsClientConnection>, failed: Seq<u64>)
    ensures
        forall|m: u64| #[trigger] contains_id(remove_ids(conns, failed), m) <==> (contains_id(
            conns,
            m,
        ) && !failed.contains(m)),
        ids_distinct(conns) ==> ids_distinct(remove_ids(conns, failed)),
        forall|i: int| 0 <= i < remove_ids(conns, failed).len() ==> exists|j: int|
            0 <= j < conns.len() && #[trigger] remove_ids(conns, failed)[i] == conns[j],
    decreases conns.len(),
{
    let p = remove_ids(conns, failed);
    if conns.len() == 0 {
        assert forall|m: u64| #[trigger] contains_id(p, m) implies false by {
            let i = choose|i: int| 0 <= i < p.len() && p[i].id == m;
        }
        assert forall|m: u64| #[trigger] contains_id(conns, m) implies false by {
            let i = choose|i: int| 0 <= i < conns.len() && conns[i].id == m;
        }
    } else {
        let head = conns.drop_last();
        let last = conns.last();
        let rest = remove_ids(head, failed);
        lemma_remove_ids(head, failed);
        assert forall|m: u64| #[trigger] contains_id(p, m) implies contains_id(conns, m)
            && !failed.contains(m) by {
            let i = choose|i: int| 0 <= i < p.len() && p[i].id == m;
            if !failed.contains(last.id) && i == p.len() - 1 {
                assert(conns[conns.len() - 1].id == m);
            } else {
                assert(p[i] == rest[i]);
                assert(contains_id(rest, m));
                let j = choose|j: int| 0 <= j < head.len() && head[j].id == m;
                assert(conns[j].id == m);
            }
        }
        assert forall|m: u64| contains_id(conns, m) && !failed.contains(m) implies #[trigger] contains_id(
            p,
            m,
        ) by {
            let i = choose|i: int| 0 <= i < conns.len() && conns[i].id == m;
            if i == conns.len() - 1 {
                assert(p[p.len() - 1].id == m);
            } else {
                assert(head[i].id == m);
                assert(contains_id(head, m));
                assert(contains_id(rest, m));
                let j = choose|j: int| 0 <= j < rest.len() && rest[j].id == m;
                assert(p[j].id == m);
            }
        }
        assert forall|i: int| 0 <= i < p.len() implies exists|j: int|
            0 <= j < conns.len() && #[trigger] p[i] == conns[j] by {
            if !failed.contains(last.id) && i == p.len() - 1 {
                assert(p[i] == conns[conns.len() - 1]);
            } else {
                assert(p[i] == rest[i]);
                let j = choose|j: int| 0 <= j < head.len() && rest[i] == head[j];
                assert(p[i] == conns[j]);
            }
        }
        if ids_distinct(conns) {
            assert forall|i: int, j: int|
                0 <= i < j < head.len() implies head[i].id != head[j].id by {
                assert(conns[i].id != conns[j].id);
            }
            if !failed.contains(last.id) {
                assert forall|i: int|
                    0 <= i < head.len() implies head[i].id != last.id by {
                    assert(conns[i].id != conns[conns.len() - 1].id);
                }
                assert(!contains_id(head, last.id));
                assert(!contains_id(rest, last.id));
                assert forall|i: int, j: int| 0 <= i < j < p.len() implies p[i].id != p[j].id by {
                    if j < p.len() - 1 {
                        assert(p[i] == rest[i] && p[j] == rest[j]);
                    } else {
                        assert(p[i] == rest[i]);
                        assert(contains_id(rest, rest[i].id));
                    }
                }
            }
        }
    }
}

/// The connection registry. The view is the sequence of live sessions in
/// insertion order; `wf` is its invariant: identifiers are distinct and all
/// below the allocation counter, which is what makes them fresh forever.
pub struct WsConnections {
    conns: Vec<WsClientConnection>,
    next_id: u64,
}

impl View for WsConnections {
    type V = Seq<WsClientConnection>;

    closed spec fn view(&self) -> Seq<WsClientConnection> {
        self.conns@
    }
}

impl WsConnections {
    /// The next identifier the registry would hand out.
    pub closed spec fn next_id(self) -> u64 {
        self.next_id
    }

    /// Registry invariant: distinct identifiers, all already allocated.
    pub open spec fn wf(self) -> bool {
        &&& ids_distinct(self@)
        &&& forall|i: int| 0 <= i < self@.len() ==> (#[trigger] self@[i]).id < self.next_id()
    }

    /// An empty registry.
    pub fn new() -> (r: Self)
        ensures
            r.wf(),
            r@ == Seq::<WsClientConnection>::empty(),
            r.next_id() == 0,
    {
        WsConnections { conns: Vec::new(), next_id: 0 }
    }

    /// The identifier the next accepted connection would get; the caller
    /// checks it is not exhausted before accepting.
    pub fn peek_next_id(&self) -> (r: u64)
        ensures
            r == self.next_id(),
    {
        self.next_id
    }

    /// How many connections are live.
    pub fn len(&self) -> (n: usize)
        ensures
            n == self@.len(),
    {
        self.conns.len()
    }

    /// Read access to the `i`-th live session, for snapshot fan-out.
    pub fn at(&self, i: usize) -> (c: &WsClientConnection)
        requires
            i < self@.len(),
        ensures
            *c == self@[i as int],
    {
        &self.conns[i]
    }

    /// Registers a freshly accepted connection, anonymous at first, and hands
    /// back its identifier, which no connection ever carried before.
    pub fn accept(&mut self) -> (id: u64)
        requires
            old(self).wf(),
            old(self).next_id() < u64::MAX,
        ensures
            final(self).wf(),
            id == old(self).next_id(),
            !contains_id(old(self)@, id),
            final(self)@ == old(self)@.push((WsClientConnection { id, name: None })),
            final(self).next_id() == id + 1,
    {
        let id = self.next_id;
        self.conns.push(WsClientConnection { id, name: None });
        self.next_id = self.next_id + 1;
        proof {
            assert forall|i: int, j: int| 0 <= i < j < self@.len() implies self@[i].id
                != self@[j].id by {
                if j == self@.len() - 1 {
                    assert(self@[i].id < id);
                }
            }
        }
        id
    }


    /// Removes every connection whose identifier the transport reported
    /// failed, in one pass; identifiers not present are ignored.
    pub fn remove_all(&mut self, failed: &Vec<u64>)
        requires
            old(self).wf(),
        ensures
            final(self).wf(),
            final(self).next_id() == old(self).next_id(),
            final(self)@ == remove_ids(old(self)@, failed@),
            forall|m: u64| failed@.contains(m) ==> !contains_id(final(self)@, m),
    {
        let ghost cs = self.conns@;
        let n = self.conns.len();
        let mut survivors: Vec<WsClientConnection> = Vec::new();
        let mut i: usize = 0;
        while i < n
            invariant
                old(self).wf(),
                n == cs.len(),
                i <= n,
                self.conns@ == cs,
                self.next_id == old(self).next_id(),
                survivors@ == remove_ids(cs.take(i as int), failed@),
            decreases n - i,
        {
            proof {
                assert(cs.take(i + 1).drop_last() =~= cs.take(i as int));
                assert(cs.take(i + 1).last() == cs[i as int]);
            }
            let c = &self.conns[i];
            if !crate::room::vec_contains(failed, c.id) {
                let name = match &c.name {
                    Some(nm) => Some(nm.clone()),
                    None => None,
                };
                survivors.push(WsClientConnection { id: c.id, name });
                proof {
                    assert(survivors@.last() == cs[i as int]);
                    assert(survivors@ =~= remove_ids(cs.take(i + 1), failed@));
                }
            }
            i = i + 1;
        }
        proof {
            assert(cs.take(n as int) =~= cs);
        }
        self.conns = survivors;
        proof {
            lemma_remove_ids(cs, failed@);
            assert forall|i: int| 0 <= i < self@.len() implies (#[trigger] self@[i]).id < self
                .next_id() by {
                let j = choose|j: int| 0 <= j < cs.len() && self@[i] == cs[j];
            }
            assert forall|m: u64| failed@.contains(m) implies !contains_id(self@, m) by {}
        }
    }

    /// Is `id` currently registered?
    pub fn contains(&self, id: u64) -> (r: bool)
        ensures
            r == contains_id(self@, id),
    {
        let n = self.conns.len();
        let mut i: usize = 0;
        while i < n
            invariant
                n == self@.len(),
                i <= n,
                forall|j: int| 0 <= j < i ==> self@[j].id != id,
            decreases n - i,
        {
            if self.conns[i].id == id {
                return true;
            }
            i = i + 1;
        }
        false
    }

    /// Looks a session up by identifier: a reference when present, `None` when
    /// the identifier is not currently registered.
    pub fn get(&self, id: u64) -> (r: Option<&WsClientConnection>)
        requires
            self.wf(),
        ensures
            match r {
                Some(c) => {
                    &&& contains_id(self@, id)
                    &&& *c == self@[idx_of(self@, id)]
                    &&& c.id == id
                },
                None => !contains_id(self@, id),
            },
    {
        let n = self.conns.len();
        let mut i: usize = 0;
        while i < n
            invariant
                self.wf(),
                n == self@.len(),
                i <= n,
                forall|j: int| 0 <= j < i ==> self@[j].id != id,
            decreases n - i,
        {
            if self.conns[i].id == id {
                proof {
                    lemma_idx_of(self@, id, i as int);
                }
                return Some(&self.conns[i]);
            }
            i = i + 1;
        }
        None
    }

    /// Records `name` for `id`. Returns whether the identifier was present;
    /// an absent identifier leaves the registry untouched.
    pub fn set_name(&mut self, id: u64, name: String) -> (r: bool)
        requires
            old(self).wf(),
        ensures
            final(self).wf(),
            final(self).next_id() == old(self).next_id(),
            r == contains_id(old(self)@, id),
            r ==> final(self)@ == old(self)@.update(
                idx_of(old(self)@, id),
                (WsClientConnection { id, name: Some(name) }),
            ),
            !r ==> final(self)@ == old(self)@,
    {
        let n = self.conns.len();
        let mut i: usize = 0;
        while i < n
            invariant
                old(self).wf(),
                n == self@.len(),
                i <= n,
                *self == *old(self),
                forall|j: int| 0 <= j < i ==> self@[j].id != id,
            decreases n - i,
        {
            if self.conns[i].id == id {
                proof {
                    lemma_idx_of(self@, id, i as int);
                }
                self.conns[i] = WsClientConnection { id, name: Some(name) };
                proof {
                    assert forall|a: int, b: int| 0 <= a < b < self@.len() implies self@[a].id
                        != self@[b].id by {
                        assert(old(self)@[a].id != old(self)@[b].id);
                    }
                }
                return true;
            }
            i = i + 1;
        }
        false
    }

    /// Removes `id` from the registry. Returns whether it was present;
    /// afterwards it is certainly absent, and nothing else changed.
    pub fn remove(&mut self, id: u64) -> (r: bool)
        requires
            old(self).wf(),
        ensures
            final(self).wf(),
            final(self).next_id() == old(self).next_id(),
            r == contains_id(old(self)@, id),
            r ==> final(self)@ == old(self)@.remove(idx_of(old(self)@, id)),
            !r ==> final(self)@ == old(self)@,
            !contains_id(final(self)@, id),
    {
        let n = self.conns.len();
        let mut i: usize = 0;
        while i < n
            invariant
                old(self).wf(),
                n == self@.len(),
                i <= n,
                *self == *old(self),
                forall|j: int| 0 <= j < i ==> self@[j].id != id,
            decreases n - i,
        {
            if self.conns[i].id == id {
                proof {
                    lemma_idx_of(self@, id, i as int);
                }
                self.conns.remove(i);
                proof {
                    let s = old(self)@;
                    let k = i as int;
                    assert forall|a: int, b: int| 0 <= a < b < self@.len() implies self@[a].id
                        != self@[b].id by {
                        let a0 = if a < k { a } else { a + 1 };
                        let b0 = if b < k { b } else { b + 1 };
                        assert(self@[a] == s[a0]);
                        assert(self@[b] == s[b0]);
                        assert(s[a0].id != s[b0].id);
                    }
                    assert forall|a: int| 0 <= a < self@.len() implies !(self@[a].id == id) by {
                        let a0 = if a < k { a } else { a + 1 };
                        assert(self@[a] == s[a0]);
                        if a0 != k {
                            if a0 < k {
                                assert(s[a0].id != s[k].id);
                            } else {
                                assert(s[k].id != s[a0].id);
                            }
                        }
                    }
                }
                return true;
            }
            i = i + 1;
        }
        false
    }
}

} // verus!
