//! The bookkeeping of a selective forwarding unit's room: which client
//! produces which media streams, which streams a newcomer may consume, and
//! what is dropped when a client leaves.
use vstd::prelude::*;
use vstd::string::*;
use crate::text::str_eq;
use std::collections::HashMap;

verus! {

broadcast use vstd::std_specs::hash::group_hash_axioms;

/// The kind of media a producer sends.
#[derive(PartialEq, Eq, Structural, Debug, Clone, Copy)]
pub enum MediaKind {
    Audio,
    Video,
}

/// A producer as announced to other clients.
#[derive(PartialEq, Eq, Structural, Debug, Clone, Copy)]
pub struct ProducerInfo {
    pub producer_id: u128,
    pub kind: MediaKind,
}

/// A connected client and the producers it created.
pub struct ClientEntry {
    id: String,
    producers: Vec<u128>,
}

/// The clients of a room and the producers they created.
pub struct Room {
    clients: Vec<ClientEntry>,
    producers: HashMap<u128, MediaKind>,
}

/// Client ids with their producer ids, and the kind of each producer.
pub type ClientsView = Seq<(Seq<char>, Seq<u128>)>;

pub type ProducersView = Map<u128, MediaKind>;

impl View for Room {
    type V = (ClientsView, ProducersView);

    closed spec fn view(&self) -> (ClientsView, ProducersView) {
        (self.clients@.map_values(|e: ClientEntry| (e.id@, e.producers@)), self.producers@)
    }
}

/// `cs` holds client `k`.
pub open spec fn has_client(cs: ClientsView, k: Seq<char>) -> bool {
    exists|i: int| 0 <= i < cs.len() && (#[trigger] cs[i]).0 == k
}

/// The producer ids of client `k`, if `cs` holds it.
pub open spec fn producers_of(cs: ClientsView, k: Seq<char>) -> Option<Seq<u128>> {
    if has_client(cs, k) {
        Some(cs[choose|i: int| 0 <= i < cs.len() && (#[trigger] cs[i]).0 == k].1)
    } else {
        None
    }
}

/// `ps` holds producer `id`.
pub open spec fn has_producer(ps: ProducersView, id: u128) -> bool {
    ps.contains_key(id)
}

/// The kind of producer `id`, if `ps` holds it.
pub open spec fn kind_of(ps: ProducersView, id: u128) -> Option<MediaKind> {
    if has_producer(ps, id) {
        Some(ps[id])
    } else {
        None
    }
}

/// No client is listed twice, and no client lists a producer twice.
pub open spec fn room_wf(v: (ClientsView, ProducersView)) -> bool {
    &&& forall|i: int, j: int|
        0 <= i < j < v.0.len() ==> (#[trigger] v.0[i]).0 != (#[trigger] v.0[j]).0
    &&& forall|i: int| 0 <= i < v.0.len() ==> (#[trigger] v.0[i]).1.no_duplicates()
}

/// The open producers among `ids` that the room holds, in the order of `ids`.
pub open spec fn open_producers(ps: ProducersView, closed: Seq<u128>, ids: Seq<u128>) -> Seq<
    ProducerInfo,
>
    decreases ids.len(),
{
    if ids.len() == 0 {
        Seq::empty()
    } else {
        let rest = open_producers(ps, closed, ids.drop_last());
        let id = ids.last();
        if has_producer(ps, id) && !closed.contains(id) {
            rest.push(ProducerInfo { producer_id: id, kind: kind_of(ps, id)->0 })
        } else {
            rest
        }
    }
}

/// What the first `n` clients of the room offer to `client`: for each other
/// client in turn, each of its open producers that the room holds, once.
pub open spec fn offered_list(
    v: (ClientsView, ProducersView),
    client: Seq<char>,
    closed: Seq<u128>,
    n: int,
) -> Seq<ProducerInfo>
    decreases n,
{
    if n <= 0 {
        Seq::empty()
    } else if v.0[n - 1].0 != client {
        offered_list(v, client, closed, n - 1) + open_producers(v.1, closed, v.0[n - 1].1)
    } else {
        offered_list(v, client, closed, n - 1)
    }
}

/// A producer that a client other than `client` created, that the room still
/// holds, and that is not closed.
pub open spec fn offered_to(
    v: (ClientsView, ProducersView),
    client: Seq<char>,
    closed: Seq<u128>,
    info: ProducerInfo,
) -> bool {
    &&& exists|i: int|
        0 <= i < v.0.len() && (#[trigger] v.0[i]).0 != client && v.0[i].1.contains(
            info.producer_id,
        )
    &&& kind_of(v.1, info.producer_id) == Some(info.kind)
    &&& !closed.contains(info.producer_id)
}

proof fn lemma_producers_of_at(cs: ClientsView, k: Seq<char>, i: int)
    requires
        forall|a: int, b: int| 0 <= a < b < cs.len() ==> (#[trigger] cs[a]).0 != (#[trigger] cs[b]).0,
        0 <= i < cs.len(),
        cs[i].0 == k,
    ensures
        producers_of(cs, k) == Some(cs[i].1),
{
    assert(has_client(cs, k));
    let j = choose|j: int| 0 <= j < cs.len() && (#[trigger] cs[j]).0 == k;
    if j < i {
        assert(cs[j].0 != cs[i].0);
    } else if i < j {
        assert(cs[i].0 != cs[j].0);
    }
}

/// The clients other than `k` keep their producer lists.
pub open spec fn others_unchanged(old_cs: ClientsView, new_cs: ClientsView, k: Seq<char>) -> bool {
    forall|other: Seq<char>|
        other != k ==> #[trigger] producers_of(new_cs, other) == producers_of(old_cs, other)
}

proof fn lemma_update_client(cs: ClientsView, i: int, e: (Seq<char>, Seq<u128>))
    requires
        forall|a: int, b: int| 0 <= a < b < cs.len() ==> (#[trigger] cs[a]).0 != (#[trigger] cs[b]).0,
        0 <= i < cs.len(),
        cs[i].0 == e.0,
    ensures
        forall|a: int, b: int|
            0 <= a < b < cs.update(i, e).len() ==> (#[trigger] cs.update(i, e)[a]).0 != (
            #[trigger] cs.update(i, e)[b]).0,
        producers_of(cs.update(i, e), e.0) == Some(e.1),
        others_unchanged(cs, cs.update(i, e), e.0),
{
    let ns = cs.update(i, e);
    lemma_producers_of_at(ns, e.0, i);
    assert forall|other: Seq<char>| other != e.0 implies #[trigger] producers_of(ns, other)
        == producers_of(cs, other) by {
        if has_client(cs, other) {
            let j = choose|j: int| 0 <= j < cs.len() && (#[trigger] cs[j]).0 == other;
            lemma_producers_of_at(cs, other, j);
            lemma_producers_of_at(ns, other, j);
        } else {
            assert forall|j: int| 0 <= j < ns.len() implies (#[trigger] ns[j]).0 != other by {
                if j != i {
                    assert(ns[j] == cs[j]);
                }
            }
        }
    }
}

proof fn lemma_push_client(cs: ClientsView, e: (Seq<char>, Seq<u128>))
    requires
        forall|a: int, b: int| 0 <= a < b < cs.len() ==> (#[trigger] cs[a]).0 != (#[trigger] cs[b]).0,
        !has_client(cs, e.0),
    ensures
        forall|a: int, b: int|
            0 <= a < b < cs.push(e).len() ==> (#[trigger] cs.push(e)[a]).0 != (
            #[trigger] cs.push(e)[b]).0,
        producers_of(cs.push(e), e.0) == Some(e.1),
        others_unchanged(cs, cs.push(e), e.0),
{
    let ns = cs.push(e);
    assert forall|a: int, b: int| 0 <= a < b < ns.len() implies (#[trigger] ns[a]).0 != (
    #[trigger] ns[b]).0 by {
        if b == cs.len() {
            assert(cs[a].0 != e.0);
        }
    }
    lemma_producers_of_at(ns, e.0, cs.len() as int);
    assert forall|other: Seq<char>| other != e.0 implies #[trigger] producers_of(ns, other)
        == producers_of(cs, other) by {
        if has_client(cs, other) {
            let j = choose|j: int| 0 <= j < cs.len() && (#[trigger] cs[j]).0 == other;
            lemma_producers_of_at(cs, other, j);
            lemma_producers_of_at(ns, other, j);
        } else {
            assert forall|j: int| 0 <= j < ns.len() implies (#[trigger] ns[j]).0 != other by {
                if j < cs.len() {
                    assert(ns[j] == cs[j]);
                }
            }
        }
    }
}

proof fn lemma_remove_client(cs: ClientsView, i: int)
    requires
        forall|a: int, b: int| 0 <= a < b < cs.len() ==> (#[trigger] cs[a]).0 != (#[trigger] cs[b]).0,
        0 <= i < cs.len(),
    ensures
        forall|a: int, b: int|
            0 <= a < b < cs.remove(i).len() ==> (#[trigger] cs.remove(i)[a]).0 != (
            #[trigger] cs.remove(i)[b]).0,
        !has_client(cs.remove(i), cs[i].0),
        others_unchanged(cs, cs.remove(i), cs[i].0),
{
    let ns = cs.remove(i);
    let k = cs[i].0;
    assert forall|a: int, b: int| 0 <= a < b < ns.len() implies (#[trigger] ns[a]).0 != (
    #[trigger] ns[b]).0 by {
        let a2 = if a < i { a } else { a + 1 };
        let b2 = if b < i { b } else { b + 1 };
        assert(ns[a] == cs[a2]);
        assert(ns[b] == cs[b2]);
    }
    assert forall|j: int| 0 <= j < ns.len() implies (#[trigger] ns[j]).0 != k by {
        let j2 = if j < i { j } else { j + 1 };
        assert(ns[j] == cs[j2]);
    }
    assert forall|other: Seq<char>| other != k implies #[trigger] producers_of(ns, other)
        == producers_of(cs, other) by {
        if has_client(cs, other) {
            let j = choose|j: int| 0 <= j < cs.len() && (#[trigger] cs[j]).0 == other;
            assert(j != i);
            lemma_producers_of_at(cs, other, j);
            let j2 = if j < i { j } else { j - 1 };
            assert(ns[j2] == cs[j]);
            lemma_producers_of_at(ns, other, j2);
        } else {
            assert forall|j: int| 0 <= j < ns.len() implies (#[trigger] ns[j]).0 != other by {
                let j2 = if j < i { j } else { j + 1 };
                assert(ns[j] == cs[j2]);
            }
        }
    }
}

/// Whether a message that `sender` broadcast is forwarded to client `me`:
/// every client but the sender gets it.
pub fn should_forward(sender: &str, me: &str) -> (r: bool)
    ensures
        r == (sender@ != me@),
{
    !str_eq(sender, me)
}

fn contains_id(ids: &[u128], id: u128) -> (r: bool)
    ensures
        r == ids@.contains(id),
{
    let mut i: usize = 0;
    while i < ids.len()
        invariant
            0 <= i <= ids@.len(),
            forall|j: int| 0 <= j < i ==> ids@[j] != id,
        decreases ids@.len() - i,
    {
        if ids[i] == id {
            assert(ids@[i as int] == id);
            return true;
        }
        i = i + 1;
    }
    false
}

impl Room {
    pub closed spec fn wf(&self) -> bool {
        room_wf(self@)
    }

    /// An empty room.
    pub fn new() -> (r: Room)
        ensures
            r.wf(),
            r@.0 == Seq::<(Seq<char>, Seq<u128>)>::empty(),
            r@.1 == Map::<u128, MediaKind>::empty(),
    {
        let r = Room { clients: Vec::new(), producers: HashMap::new() };
        assert(r@.0 =~= Seq::<(Seq<char>, Seq<u128>)>::empty());
        r
    }

    fn find_client(&self, client: &str) -> (r: Option<usize>)
        requires
            self.wf(),
        ensures
            r matches Some(i) ==> i < self@.0.len() && self@.0[i as int].0 == client@,
            r is None ==> !has_client(self@.0, client@),
    {
        let mut i: usize = 0;
        while i < self.clients.len()
            invariant
                0 <= i <= self@.0.len(),
                self@.0.len() == self.clients@.len(),
                forall|j: int| 0 <= j < i ==> (#[trigger] self@.0[j]).0 != client@,
            decreases self.clients@.len() - i,
        {
            if str_eq(self.clients[i].id.as_str(), client) {
                return Some(i);
            }
            i = i + 1;
        }
        None
    }

    /// The producer ids of `client`, if the room holds it.
    pub fn producers_of_client(&self, client: &str) -> (r: Option<Vec<u128>>)
        requires
            self.wf(),
        ensures
            match producers_of(self@.0, client@) {
                Some(ids) => r matches Some(v) && v@ == ids,
                None => r is None,
            },
    {
        match self.find_client(client) {
            Some(i) => {
                proof {
                    lemma_producers_of_at(self@.0, client@, i as int);
                }
                Some(self.clients[i].producers.clone())
            },
            None => None,
        }
    }
}

impl Room {
    /// Registers `client` with no producers; a client registered again
    /// starts over with none.
    pub fn register_client(&mut self, client: &str)
        requires
            old(self).wf(),
        ensures
            final(self).wf(),
            producers_of(final(self)@.0, client@) == Some(Seq::<u128>::empty()),
            others_unchanged(old(self)@.0, final(self)@.0, client@),
            final(self)@.1 == old(self)@.1,
    {
        let entry = ClientEntry { id: client.to_owned(), producers: Vec::new() };
        let ghost e = (entry.id@, entry.producers@);
        let ghost cs = self@.0;
        match self.find_client(client) {
            Some(i) => {
                self.clients.set(i, entry);
                assert(self@.0 =~= cs.update(i as int, e));
                proof {
                    lemma_update_client(cs, i as int, e);
                }
            },
            None => {
                self.clients.push(entry);
                assert(self@.0 =~= cs.push(e));
                proof {
                    lemma_push_client(cs, e);
                }
            },
        }
    }

    /// Records that `client` created producer `producer_id` of `kind`: the
    /// producer is registered (replacing one with the same id) and added to
    /// the client's producers, registering the client if it was not.
    pub fn add_producer(&mut self, client: &str, producer_id: u128, kind: MediaKind)
        requires
            old(self).wf(),
        ensures
            final(self).wf(),
            kind_of(final(self)@.1, producer_id) == Some(kind),
            forall|id: u128|
                id != producer_id ==> #[trigger] kind_of(final(self)@.1, id) == kind_of(
                    old(self)@.1,
                    id,
                ),
            ({
                let before = match producers_of(old(self)@.0, client@) {
                    Some(ids) => ids,
                    None => Seq::<u128>::empty(),
                };
                producers_of(final(self)@.0, client@) == Some(
                    if before.contains(producer_id) {
                        before
                    } else {
                        before.push(producer_id)
                    },
                )
            }),
            others_unchanged(old(self)@.0, final(self)@.0, client@),
    {
        self.producers.insert(producer_id, kind);
        let ghost cs = self@.0;
        match self.find_client(client) {
            Some(i) => {
                proof {
                    lemma_producers_of_at(cs, client@, i as int);
                }
                let mut ids = self.clients[i].producers.clone();
                assert(ids@ == cs[i as int].1);
                if !contains_id(ids.as_slice(), producer_id) {
                    ids.push(producer_id);
                }
                let entry = ClientEntry { id: client.to_owned(), producers: ids };
                let ghost e = (entry.id@, entry.producers@);
                self.clients.set(i, entry);
                assert(self@.0 =~= cs.update(i as int, e));
                proof {
                    lemma_update_client(cs, i as int, e);
                    assert(e.1.no_duplicates());
                }
            },
            None => {
                let mut ids: Vec<u128> = Vec::new();
                ids.push(producer_id);
                let entry = ClientEntry { id: client.to_owned(), producers: ids };
                let ghost e = (entry.id@, entry.producers@);
                self.clients.push(entry);
                assert(self@.0 =~= cs.push(e));
                proof {
                    assert(Seq::<u128>::empty().push(producer_id) =~= e.1);
                    lemma_push_client(cs, e);
                }
            },
        }
    }
}

impl Room {
    /// The producers offered to a client that asks what is already being
    /// sent: those of every other client that the room still holds and that
    /// are not closed: for each other client in the order it joined the room,
    /// each of its producers in the order it created them, once.
    pub fn existing_producers(&self, client: &str, closed: &[u128]) -> (r: Vec<ProducerInfo>)
        requires
            self.wf(),
        ensures
            forall|i: int| 0 <= i < r@.len() ==> offered_to(self@, client@, closed@, #[trigger] r@[i]),
            forall|info: ProducerInfo|
                offered_to(self@, client@, closed@, info) ==> r@.contains(info),
            r@ == offered_list(self@, client@, closed@, self@.0.len() as int),
    {
        let mut existing: Vec<ProducerInfo> = Vec::new();
        let mut ci: usize = 0;
        while ci < self.clients.len()
            invariant
                0 <= ci <= self@.0.len(),
                self@.0.len() == self.clients@.len(),
                self.wf(),
                existing@ == offered_list(self@, client@, closed@, ci as int),
                forall|i: int|
                    0 <= i < existing@.len() ==> offered_to(
                        self@,
                        client@,
                        closed@,
                        #[trigger] existing@[i],
                    ),
                forall|info: ProducerInfo|
                    #![trigger existing@.contains(info)]
                    offered_to(self@, client@, closed@, info) && (exists|c: int|
                        0 <= c < ci && (#[trigger] self@.0[c]).0 != client@ && self@.0[c].1.contains(
                            info.producer_id,
                        )) ==> existing@.contains(info),
            decreases self.clients@.len() - ci,
        {
            if !str_eq(self.clients[ci].id.as_str(), client) {
                let ids = &self.clients[ci].producers;
                let ghost ids_v = self@.0[ci as int].1;
                assert(ids@ == ids_v);
                let mut k: usize = 0;
                while k < ids.len()
                    invariant
                        0 <= k <= ids@.len(),
                        ids@ == ids_v,
                        ids_v == self@.0[ci as int].1,
                        0 <= ci < self@.0.len(),
                        self@.0[ci as int].0 != client@,
                        self.wf(),
                        existing@ == offered_list(self@, client@, closed@, ci as int)
                            + open_producers(self@.1, closed@, ids_v.subrange(0, k as int)),
                        forall|i: int|
                            0 <= i < existing@.len() ==> offered_to(
                                self@,
                                client@,
                                closed@,
                                #[trigger] existing@[i],
                            ),
                        forall|info: ProducerInfo|
                            #![trigger existing@.contains(info)]
                            offered_to(self@, client@, closed@, info) && ((exists|c: int|
                                0 <= c < ci && (#[trigger] self@.0[c]).0 != client@
                                    && self@.0[c].1.contains(info.producer_id)) || (exists|m: int|
                                0 <= m < k && #[trigger] ids_v[m] == info.producer_id))
                                ==> existing@.contains(info),
                    decreases ids@.len() - k,
                {
                    let pid = ids[k];
                    match self.producers.get(&pid) {
                        Some(kind) => {
                            if !contains_id(closed, pid) {
                                let info = ProducerInfo { producer_id: pid, kind: *kind };
                                proof {
                                    assert(ids_v[k as int] == pid);
                                    assert(self@.0[ci as int].1.contains(pid));
                                    assert(offered_to(self@, client@, closed@, info));
                                }
                                let ghost old_existing = existing@;
                                existing.push(info);
                                proof {
                                    assert(existing@[old_existing.len() as int] == info);
                                    assert forall|x: ProducerInfo|
                                        #![trigger existing@.contains(x)]
                                        old_existing.contains(x) implies existing@.contains(x) by {
                                        let t = choose|t: int|
                                            0 <= t < old_existing.len() && old_existing[t] == x;
                                        assert(existing@[t] == x);
                                    }
                                    assert forall|x: ProducerInfo|
                                        #![trigger existing@.contains(x)]
                                        offered_to(self@, client@, closed@, x) && x.producer_id
                                            == pid implies existing@.contains(x) by {
                                        assert(kind_of(self@.1, pid) == Some(x.kind));
                                        assert(x == info);
                                    }
                                }
                            }
                        },
                        None => {},
                    }
                    proof {
                        assert(ids_v.subrange(0, k + 1).drop_last() =~= ids_v.subrange(0, k as int));
                        assert(ids_v.subrange(0, k + 1).last() == pid);
                    }
                    k = k + 1;
                }
                proof {
                    assert(ids_v.subrange(0, ids_v.len() as int) =~= ids_v);
                }
            }
            ci = ci + 1;
        }
        existing
    }
}

impl Room {
    /// Whether a client may consume producer `producer_id`: the room holds it
    /// and it is not closed.
    pub fn can_consume_producer(&self, producer_id: u128, closed: &[u128]) -> (r: bool)
        ensures
            r == (has_producer(self@.1, producer_id) && !closed@.contains(producer_id)),
    {
        self.producers.contains_key(&producer_id) && !contains_id(closed, producer_id)
    }

    /// Forgets `client` and every producer it created; returns the ids of
    /// those producers, so that they can be closed.
    pub fn remove_client(&mut self, client: &str) -> (r: Vec<u128>)
        requires
            old(self).wf(),
        ensures
            final(self).wf(),
            r@ == match producers_of(old(self)@.0, client@) {
                Some(ids) => ids,
                None => Seq::<u128>::empty(),
            },
            !has_client(final(self)@.0, client@),
            others_unchanged(old(self)@.0, final(self)@.0, client@),
            forall|id: u128|
                #[trigger] kind_of(final(self)@.1, id) == if r@.contains(id) {
                    None
                } else {
                    kind_of(old(self)@.1, id)
                },
    {
        let ghost cs = self@.0;
        let ghost ps0 = self@.1;
        match self.find_client(client) {
            None => {
                let r: Vec<u128> = Vec::new();
                proof {
                    assert forall|other: Seq<char>| other != client@ implies #[trigger] producers_of(
                        self@.0,
                        other,
                    ) == producers_of(cs, other) by {}
                }
                r
            },
            Some(i) => {
                proof {
                    lemma_producers_of_at(cs, client@, i as int);
                }
                let entry = self.clients.remove(i);
                assert(self@.0 =~= cs.remove(i as int));
                proof {
                    lemma_remove_client(cs, i as int);
                }
                let ids = entry.producers;
                let mut k: usize = 0;
                while k < ids.len()
                    invariant
                        0 <= k <= ids@.len(),
                        room_wf(self@),
                        forall|id: u128|
                            #[trigger] kind_of(self@.1, id) == if ids@.subrange(0, k as int).contains(
                                id,
                            ) {
                                None
                            } else {
                                kind_of(ps0, id)
                            },
                        self@.0 == cs.remove(i as int),
                    decreases ids@.len() - k,
                {
                    let pid = ids[k];
                    let ghost ps = self@.1;
                    self.producers.remove(&pid);
                    assert(self@.1 == ps.remove(pid));
                    proof {
                        assert forall|id: u128| #[trigger] kind_of(self@.1, id) == if ids@.subrange(
                            0,
                            k + 1,
                        ).contains(id) {
                            None
                        } else {
                            kind_of(ps0, id)
                        } by {
                            assert(ids@.subrange(0, k + 1) =~= ids@.subrange(0, k as int).push(pid));
                            assert(kind_of(ps, id) == if ids@.subrange(0, k as int).contains(id) {
                                None
                            } else {
                                kind_of(ps0, id)
                            });
                            if id != pid {
                                if ids@.subrange(0, k as int).push(pid).contains(id) {
                                    let t = choose|t: int|
                                        0 <= t < k + 1 && ids@.subrange(0, k as int).push(pid)[t]
                                            == id;
                                    assert(ids@.subrange(0, k as int)[t] == id);
                                }
                            } else {
                                assert(ids@.subrange(0, k as int).push(pid)[k as int] == pid);
                            }
                        }
                    }
                    k = k + 1;
                }
                assert(ids@.subrange(0, ids@.len() as int) =~= ids@);
                ids
            },
        }
    }
}

/// A lower-case hexadecimal digit.
pub open spec fn is_lower_hex(c: char) -> bool {
    (0x30 <= c as u32 <= 0x39) || (0x61 <= c as u32 <= 0x66)
}

/// The hyphenated lower-case text of a random (version 4, RFC 4122 variant) UUID.
pub open spec fn is_uuid_v4_text(s: Seq<char>) -> bool {
    &&& s.len() == 36
    &&& forall|i: int|
        0 <= i < 36 ==> if i == 8 || i == 13 || i == 18 || i == 23 {
            #[trigger] s[i] == '-'
        } else {
            is_lower_hex(s[i])
        }
    &&& s[14] == '4'
    &&& (s[19] == '8' || s[19] == '9' || s[19] == 'a' || s[19] == 'b')
}

/// `uuid::Uuid::new_v4().to_string()`: a fresh random UUID, written in its
/// hyphenated lower-case form with the version and variant digits set. Which
/// UUID comes out is left open.
#[verifier::external_body]
fn new_uuid_v4_text() -> (s: String)
    ensures
        is_uuid_v4_text(s@),
{
    uuid::Uuid::new_v4().to_string()
}

/// The client id made from a UUID's text: its first seven characters.
pub fn client_id_from_uuid(text: &str) -> (id: String)
    ensures
        id@ == text@.subrange(0, if text@.len() < 7 { text@.len() as int } else { 7 }),
{
    let n = text.unicode_len();
    let take = if n < 7 { n } else { 7 };
    text.substring_char(0, take).to_owned()
}

/// A fresh client id: seven lower-case hexadecimal digits drawn from a random UUID.
pub fn fresh_client_id() -> (id: String)
    ensures
        id@.len() == 7,
        forall|i: int| 0 <= i < 7 ==> is_lower_hex(#[trigger] id@[i]),
{
    let text = new_uuid_v4_text();
    let id = client_id_from_uuid(text.as_str());
    proof {
        assert forall|i: int| 0 <= i < 7 implies is_lower_hex(#[trigger] id@[i]) by {
            assert(id@[i] == text@[i]);
        }
    }
    id
}

/// What a newcomer is offered: every open producer that another client
/// created and that the room holds.
pub proof fn law_producer_offered_to_others(
    v: (ClientsView, ProducersView),
    owner: Seq<char>,
    other: Seq<char>,
    id: u128,
    closed: Seq<u128>,
)
    requires
        room_wf(v),
        owner != other,
        producers_of(v.0, owner) matches Some(ids) && ids.contains(id),
        has_producer(v.1, id),
        !closed.contains(id),
    ensures
        offered_to(v, other, closed, ProducerInfo { producer_id: id, kind: kind_of(v.1, id)->0 }),
{
    let i = choose|i: int| 0 <= i < v.0.len() && (#[trigger] v.0[i]).0 == owner;
    lemma_producers_of_at(v.0, owner, i);
    assert(v.0[i].1.contains(id));
}

} // verus!
