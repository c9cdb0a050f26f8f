//! Services that mods register for each other, and topics they publish to.
use vstd::prelude::*;
use crate::text::str_equals;

verus! {

/// The registry of named services (an address per name) and of topic subscribers
/// (a callback address per subscription, in subscription order).
pub struct IpcRegistry {
    services: Vec<(String, usize)>,
    subscribers: Vec<(String, usize)>,
}

/// No name occurs twice among `entries`.
pub open spec fn names_distinct(entries: Seq<(Seq<char>, usize)>) -> bool {
    forall|i: int, j: int|
        0 <= i < entries.len() && 0 <= j < entries.len() && i != j ==> #[trigger] entries[i].0
            != #[trigger] entries[j].0
}

/// The map from name to address that distinct `entries` describe.
pub open spec fn entries_map(entries: Seq<(Seq<char>, usize)>) -> Map<Seq<char>, usize>
    decreases entries.len(),
{
    if entries.len() == 0 {
        Map::empty()
    } else {
        entries_map(entries.drop_last()).insert(entries.last().0, entries.last().1)
    }
}

/// The callbacks subscribed to `topic`, in subscription order.
pub open spec fn matching(subs: Seq<(Seq<char>, usize)>, topic: Seq<char>) -> Seq<usize>
    decreases subs.len(),
{
    if subs.len() == 0 {
        Seq::empty()
    } else if subs.last().0 == topic {
        matching(subs.drop_last(), topic).push(subs.last().1)
    } else {
        matching(subs.drop_last(), topic)
    }
}

pub open spec fn pair_view(p: (String, usize)) -> (Seq<char>, usize) {
    (p.0@, p.1)
}

proof fn lemma_entries_map_has(entries: Seq<(Seq<char>, usize)>, i: int)
    requires
        names_distinct(entries),
        0 <= i < entries.len(),
    ensures
        entries_map(entries).contains_key(entries[i].0),
        entries_map(entries)[entries[i].0] == entries[i].1,
    decreases entries.len(),
{
    if i < entries.len() - 1 {
        let prefix = entries.drop_last();
        assert(prefix[i] == entries[i]);
        assert(names_distinct(prefix));
        lemma_entries_map_has(prefix, i);
        assert(entries.last().0 != entries[i].0);
    }
}

proof fn lemma_entries_map_lacks(entries: Seq<(Seq<char>, usize)>, name: Seq<char>)
    requires
        forall|i: int| 0 <= i < entries.len() ==> #[trigger] entries[i].0 != name,
    ensures
        !entries_map(entries).contains_key(name),
    decreases entries.len(),
{
    if entries.len() > 0 {
        let prefix = entries.drop_last();
        assert forall|i: int| 0 <= i < prefix.len() implies #[trigger] prefix[i].0 != name by {
            assert(prefix[i] == entries[i]);
        }
        lemma_entries_map_lacks(prefix, name);
    }
}

/// What a lookup gives back after a registration: the service just registered
/// under `name`, and for any other name what was there before.
pub proof fn law_service_read_after_write(
    services: Map<Seq<char>, usize>,
    name: Seq<char>,
    ptr: usize,
    other: Seq<char>,
)
    ensures
        services.insert(name, ptr).contains_key(name),
        services.insert(name, ptr)[name] == ptr,
        other != name ==> (services.insert(name, ptr).contains_key(other) == services.contains_key(
            other,
        )),
        other != name && services.contains_key(other) ==> services.insert(name, ptr)[other]
            == services[other],
{
}

/// A subscription to `topic` adds its callback last among those a publication to
/// `topic` calls, and changes nothing for other topics.
pub proof fn law_publish_after_subscribe(
    subs: Seq<(Seq<char>, usize)>,
    topic: Seq<char>,
    cb: usize,
    other: Seq<char>,
)
    ensures
        matching(subs.push((topic, cb)), topic) == matching(subs, topic).push(cb),
        other != topic ==> matching(subs.push((topic, cb)), other) == matching(subs, other),
{
    assert(subs.push((topic, cb)).drop_last() =~= subs);
}

/// A call that changes the registry, with its arguments as plain values (`None`
/// for a null name, topic or callback). Lookups and publications read the registry
/// and change nothing.
pub ghost enum IpcOp {
    Register(Option<Seq<char>>, usize),
    Subscribe(Option<Seq<char>>, Option<usize>),
    Shutdown,
}

/// The services and subscriptions after the call `op` on `state`, as
/// `register_service`, `subscribe` and `shutdown` state it.
pub open spec fn ipc_apply(
    state: (Map<Seq<char>, usize>, Seq<(Seq<char>, usize)>),
    op: IpcOp,
) -> (Map<Seq<char>, usize>, Seq<(Seq<char>, usize)>) {
    match op {
        IpcOp::Register(Some(n), p) => (state.0.insert(n, p), state.1),
        IpcOp::Register(None, _) => state,
        IpcOp::Subscribe(Some(t), Some(cb)) => (state.0, state.1.push((t, cb))),
        IpcOp::Subscribe(_, _) => state,
        IpcOp::Shutdown => (Map::empty(), Seq::empty()),
    }
}

/// The services and subscriptions of a new registry after the calls `ops`.
pub open spec fn ipc_run(ops: Seq<IpcOp>) -> (Map<Seq<char>, usize>, Seq<(Seq<char>, usize)>)
    decreases ops.len(),
{
    if ops.len() == 0 {
        (Map::empty(), Seq::empty())
    } else {
        ipc_apply(ipc_run(ops.drop_last()), ops.last())
    }
}

/// The pointer last registered under `name` in `ops` since the last shutdown.
pub open spec fn last_registration(ops: Seq<IpcOp>, name: Seq<char>) -> Option<usize>
    decreases ops.len(),
{
    if ops.len() == 0 {
        None
    } else {
        match ops.last() {
            IpcOp::Register(Some(n), p) => if n == name {
                Some(p)
            } else {
                last_registration(ops.drop_last(), name)
            },
            IpcOp::Shutdown => None,
            _ => last_registration(ops.drop_last(), name),
        }
    }
}

/// The callbacks subscribed to `topic` in `ops` since the last shutdown, in order.
pub open spec fn subscribed_since_shutdown(ops: Seq<IpcOp>, topic: Seq<char>) -> Seq<usize>
    decreases ops.len(),
{
    if ops.len() == 0 {
        Seq::empty()
    } else {
        match ops.last() {
            IpcOp::Subscribe(Some(t), Some(cb)) => if t == topic {
                subscribed_since_shutdown(ops.drop_last(), topic).push(cb)
            } else {
                subscribed_since_shutdown(ops.drop_last(), topic)
            },
            IpcOp::Shutdown => Seq::empty(),
            _ => subscribed_since_shutdown(ops.drop_last(), topic),
        }
    }
}

/// A name or topic as a plain value.
pub open spec fn opt_chars(s: Option<&str>) -> Option<Seq<char>> {
    match s {
        Some(x) => Some(x@),
        None => None,
    }
}

/// Reading back after any sequence of calls on a new registry: a lookup of `name`
/// finds the pointer last registered under it since the last shutdown (and finds
/// nothing when there is none), and a publication to `topic` calls the callbacks
/// subscribed to it since the last shutdown, in subscription order.
pub proof fn law_ipc_read_back(ops: Seq<IpcOp>, name: Seq<char>, topic: Seq<char>)
    ensures
        ipc_run(ops).0.contains_key(name) == last_registration(ops, name) is Some,
        last_registration(ops, name) matches Some(p) ==> ipc_run(ops).0[name] == p,
        matching(ipc_run(ops).1, topic) == subscribed_since_shutdown(ops, topic),
    decreases ops.len(),
{
    if ops.len() > 0 {
        law_ipc_read_back(ops.drop_last(), name, topic);
        let prev = ipc_run(ops.drop_last());
        match ops.last() {
            IpcOp::Subscribe(Some(t), Some(cb)) => {
                assert(prev.1.push((t, cb)).drop_last() =~= prev.1);
            },
            IpcOp::Shutdown => {
                assert(matching(Seq::<(Seq<char>, usize)>::empty(), topic) =~= Seq::<usize>::empty());
            },
            _ => {},
        }
    }
}

impl IpcRegistry {
    /// The services and the subscriptions.
    pub open spec fn state(&self) -> (Map<Seq<char>, usize>, Seq<(Seq<char>, usize)>) {
        (self.services(), self.subscriptions())
    }

    /// The registered services.
    pub closed spec fn services(&self) -> Map<Seq<char>, usize> {
        entries_map(self.services@.map_values(|p: (String, usize)| pair_view(p)))
    }

    /// The subscriptions, in order: topic and callback.
    pub closed spec fn subscriptions(&self) -> Seq<(Seq<char>, usize)> {
        self.subscribers@.map_values(|p: (String, usize)| pair_view(p))
    }

    pub closed spec fn wf(&self) -> bool {
        names_distinct(self.services@.map_values(|p: (String, usize)| pair_view(p)))
    }

    /// No services, no subscribers.
    pub fn new() -> (r: IpcRegistry)
        ensures
            r.wf(),
            r.services() == Map::<Seq<char>, usize>::empty(),
            r.subscriptions() == Seq::<(Seq<char>, usize)>::empty(),
            r.state() == ipc_run(Seq::empty()),
    {
        let r = IpcRegistry { services: Vec::new(), subscribers: Vec::new() };
        assert(r.services@.map_values(|p: (String, usize)| pair_view(p)) =~= Seq::empty());
        assert(r.subscriptions() =~= Seq::<(Seq<char>, usize)>::empty());
        r
    }

    /// The position of the service named `name`, if there is one.
    fn find_service(&self, name: &str) -> (r: Option<usize>)
        ensures
            match r {
                Some(i) => i < self.services@.len() && self.services@[i as int].0@ == name@,
                None => forall|i: int|
                    0 <= i < self.services@.len() ==> #[trigger] self.services@[i].0@ != name@,
            },
    {
        let mut i: usize = 0;
        while i < self.services.len()
            invariant
                i <= self.services@.len(),
                forall|j: int| 0 <= j < i ==> #[trigger] self.services@[j].0@ != name@,
            decreases self.services.len() - i,
        {
            if str_equals(self.services[i].0.as_str(), name) {
                return Some(i);
            }
            i = i + 1;
        }
        None
    }

    /// `api_register_service`: records `ptr` as the service `name`, replacing an
    /// earlier one of that name; -1, with nothing changed, when there is no name.
    pub fn register_service(&mut self, name: Option<&str>, ptr: usize) -> (r: i32)
        requires
            old(self).wf(),
        ensures
            final(self).wf(),
            final(self).subscriptions() == old(self).subscriptions(),
            match name {
                Some(n) => r == 0 && final(self).services() == old(self).services().insert(n@, ptr),
                None => r == -1 && final(self).services() == old(self).services(),
            },
            final(self).state() == ipc_apply(old(self).state(), IpcOp::Register(opt_chars(name), ptr)),
    {
        let name = match name {
            Some(n) => n,
            None => {
                return -1;
            },
        };
        let ghost before = self.services@.map_values(|p: (String, usize)| pair_view(p));
        match self.find_service(name) {
            Some(i) => {
                let key = self.services[i].0.clone();
                self.services.set(i, (key, ptr));
                proof {
                    let after = self.services@.map_values(|p: (String, usize)| pair_view(p));
                    assert(after =~= before.update(i as int, (name@, ptr)));
                    assert forall|j: int| 0 <= j < after.len() implies #[trigger] after[j].0
                        == before[j].0 by {
                        if j == i {
                            assert(before[j] == pair_view(old(self).services@[j]));
                        }
                    }
                    assert(names_distinct(after));
                    assert(after[i as int] == (name@, ptr));
                    assert(entries_map(after) =~= entries_map(before).insert(name@, ptr)) by {
                        assert forall|k: Seq<char>|
                            entries_map(after).contains_key(k) <==> entries_map(
                                before,
                            ).insert(name@, ptr).contains_key(k) by {
                            if exists|j: int| 0 <= j < after.len() && after[j].0 == k {
                                let j = choose|j: int| 0 <= j < after.len() && after[j].0 == k;
                                lemma_entries_map_has(after, j);
                                lemma_entries_map_has(before, j);
                            } else {
                                assert forall|j: int| 0 <= j < before.len() implies #[trigger] before[j].0
                                    != k by {
                                    assert(after[j].0 == before[j].0);
                                }
                                assert(after[i as int].0 != k);
                                lemma_entries_map_lacks(after, k);
                                lemma_entries_map_lacks(before, k);
                            }
                        }
                        assert forall|k: Seq<char>| #[trigger]
                            entries_map(after).contains_key(k) implies entries_map(after)[k]
                            == entries_map(before).insert(name@, ptr)[k] by {
                            if exists|j: int| 0 <= j < after.len() && after[j].0 == k {
                                let j = choose|j: int| 0 <= j < after.len() && after[j].0 == k;
                                lemma_entries_map_has(after, j);
                                lemma_entries_map_has(before, j);
                                if j != i {
                                    assert(after[j] == before[j]);
                                    assert(before[j].0 != before[i as int].0);
                                }
                            } else {
                                lemma_entries_map_lacks(after, k);
                            }
                        }
                    }
                }
            },
            None => {
                self.services.push((name.to_owned(), ptr));
                proof {
                    let after = self.services@.map_values(|p: (String, usize)| pair_view(p));
                    assert(after =~= before.push((name@, ptr)));
                    assert(after.drop_last() =~= before);
                }
            },
        }
        0
    }

    /// `api_get_service`: the address registered as `name`; 0 when there is none
    /// or no name is given.
    pub fn get_service(&self, name: Option<&str>) -> (r: usize)
        requires
            self.wf(),
        ensures
            match name {
                Some(n) => if self.services().contains_key(n@) {
                    r == self.services()[n@]
                } else {
                    r == 0
                },
                None => r == 0,
            },
    {
        let name = match name {
            Some(n) => n,
            None => {
                return 0;
            },
        };
        let ghost entries = self.services@.map_values(|p: (String, usize)| pair_view(p));
        match self.find_service(name) {
            Some(i) => {
                proof {
                    assert(entries[i as int] == pair_view(self.services@[i as int]));
                    lemma_entries_map_has(entries, i as int);
                }
                self.services[i].1
            },
            None => {
                proof {
                    assert forall|j: int| 0 <= j < entries.len() implies #[trigger] entries[j].0
                        != name@ by {
                        assert(entries[j] == pair_view(self.services@[j]));
                    }
                    lemma_entries_map_lacks(entries, name@);
                }
                0
            },
        }
    }

    /// `api_subscribe`: adds a subscription of `callback` to `topic`; -1, with
    /// nothing changed, when the topic or the callback is missing.
    pub fn subscribe(&mut self, topic: Option<&str>, callback: Option<usize>) -> (r: i32)
        requires
            old(self).wf(),
        ensures
            final(self).wf(),
            final(self).services() == old(self).services(),
            match (topic, callback) {
                (Some(t), Some(cb)) => r == 0 && final(self).subscriptions()
                    == old(self).subscriptions().push((t@, cb)),
                _ => r == -1 && final(self).subscriptions() == old(self).subscriptions(),
            },
            final(self).state() == ipc_apply(
                old(self).state(),
                IpcOp::Subscribe(opt_chars(topic), callback),
            ),
    {
        let topic = match topic {
            Some(t) => t,
            None => {
                return -1;
            },
        };
        let cb = match callback {
            Some(cb) => cb,
            None => {
                return -1;
            },
        };
        self.subscribers.push((topic.to_owned(), cb));
        assert(self.subscriptions() =~= old(self).subscriptions().push((topic@, cb)));
        0
    }

    /// `api_publish`: the callbacks to invoke for `topic`, in subscription order,
    /// and the status (-1 when there is no topic, with no callbacks).
    pub fn publish(&self, topic: Option<&str>) -> (r: (i32, Vec<usize>))
        ensures
            match topic {
                Some(t) => r.0 == 0 && r.1@ == matching(self.subscriptions(), t@),
                None => r.0 == -1 && r.1@.len() == 0,
            },
    {
        let topic = match topic {
            Some(t) => t,
            None => {
                return (-1, Vec::new());
            },
        };
        let ghost subs = self.subscriptions();
        let mut out: Vec<usize> = Vec::new();
        let mut i: usize = 0;
        while i < self.subscribers.len()
            invariant
                subs == self.subscriptions(),
                i <= subs.len(),
                out@ == matching(subs.subrange(0, i as int), topic@),
            decreases self.subscribers.len() - i,
        {
            assert(subs.subrange(0, i + 1).drop_last() =~= subs.subrange(0, i as int));
            assert(subs[i as int] == pair_view(self.subscribers@[i as int]));
            if str_equals(self.subscribers[i].0.as_str(), topic) {
                out.push(self.subscribers[i].1);
            }
            i = i + 1;
        }
        assert(subs.subrange(0, subs.len() as int) =~= subs);
        (0, out)
    }

    /// `shutdown`: forgets every service and subscription.
    pub fn shutdown(&mut self)
        ensures
            final(self).wf(),
            final(self).services() == Map::<Seq<char>, usize>::empty(),
            final(self).subscriptions() == Seq::<(Seq<char>, usize)>::empty(),
            final(self).state() == ipc_apply(old(self).state(), IpcOp::Shutdown),
    {
        self.services.clear();
        self.subscribers.clear();
        assert(self.services@.map_values(|p: (String, usize)| pair_view(p)) =~= Seq::empty());
        assert(self.subscriptions() =~= Seq::<(Seq<char>, usize)>::empty());
    }
}

} // verus!
