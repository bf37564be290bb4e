//! The broker's sessions: who is connected, what each client has subscribed to, and
//! the messages kept for clients that are away. Each command to the broker is decided
//! here; the channels and tasks that carry the decisions out are not.
use vstd::prelude::*;

use super::code::ReturnCode;
use super::command::{ClientCommand, ClientCommandView};
use super::protocol::conn::{ConnAck, ConnAckOptions, ConnAckView, Connect, ConnectView};
use super::protocol::property::{pair_views, PropertyUser};
use super::protocol::publish::{PublishOptions, PublishOptionsView};
use super::protocol::subscribe::{
    sub_views, SubAck, Subscribe, SubscribeOption, SubscribeView, UnsubAck, Unsubscribe,
    UnsubscribeView,
};
use super::protocol::will::{Will, WillView};
use super::utils::{is_shared, parse_shared_subscription, shared_parts, sub_topic_ok, sub_topic_valid};
use super::{MqttProtocolVersion, QoS};
use crate::config::MqttSettings;
use crate::topic::str_eq;

verus! {

/// The session of one client.
pub struct Client {
    pub client_id: String,
    pub version: MqttProtocolVersion,
    pub connected: bool,
    /// when the client went away
    pub disconnected_tm: u64,
    pub clear_start: bool,
    /// how long the session outlives the connection, in seconds
    pub expiry: u32,
    /// the topic filters subscribed to, each once, with their options
    pub subscribes: Vec<(String, SubscribeOption)>,
    pub will: Option<Will>,
}

/// A session as plain values.
pub struct ClientView {
    pub client_id: Seq<char>,
    pub version: MqttProtocolVersion,
    pub connected: bool,
    pub disconnected_tm: u64,
    pub clear_start: bool,
    pub expiry: u32,
    pub subscribes: Seq<(Seq<char>, SubscribeOption)>,
    pub will: Option<WillView>,
}

/// The view of an optional will.
pub open spec fn opt_will(w: Option<Will>) -> Option<WillView> {
    match w {
        Some(x) => Some(x@),
        None => None,
    }
}

impl View for Client {
    type V = ClientView;

    open spec fn view(&self) -> ClientView {
        ClientView {
            client_id: self.client_id@,
            version: self.version,
            connected: self.connected,
            disconnected_tm: self.disconnected_tm,
            clear_start: self.clear_start,
            expiry: self.expiry,
            subscribes: sub_views(self.subscribes@),
            will: opt_will(self.will),
        }
    }
}

/// What the broker has the operator, a connection or a timer do.
pub enum BrokerAction {
    /// tell the connection of `client_id` to close with `code`
    Disconnect { client_id: String, code: ReturnCode },
    /// publish the will of `client_id`, after its delay
    PrepareWill { client_id: String, will: Will },
    /// drop every subscription of `client_id` from the router
    RemoveClient { client_id: String },
    /// subscribe `client_id` to `topic` in the router, in a shared group if given
    Subscribe {
        client_id: String,
        share_group: Option<String>,
        topic: String,
        qos: QoS,
        no_local: bool,
        persist: bool,
    },
    /// drop the subscription of `client_id` to `topic` from the router
    Unsubscribe { client_id: String, share_group: Option<String>, topic: String },
    /// route a message from `client_id` to the subscribers of `topic`
    Publish {
        client_id: String,
        retain: bool,
        qos: QoS,
        topic: String,
        payload: Vec<u8>,
        user_properties: Vec<PropertyUser>,
        options: PublishOptions,
    },
    /// hand `command` to the connection of `client_id`
    Send { client_id: String, command: ClientCommand },
    /// drop expired retained messages
    PurgeExpiry,
}

/// An action as plain values.
pub enum ActionView {
    Disconnect { client_id: Seq<char>, code: ReturnCode },
    PrepareWill { client_id: Seq<char>, will: WillView },
    RemoveClient { client_id: Seq<char> },
    Subscribe {
        client_id: Seq<char>,
        share_group: Option<Seq<char>>,
        topic: Seq<char>,
        qos: QoS,
        no_local: bool,
        persist: bool,
    },
    Unsubscribe { client_id: Seq<char>, share_group: Option<Seq<char>>, topic: Seq<char> },
    Publish {
        client_id: Seq<char>,
        retain: bool,
        qos: QoS,
        topic: Seq<char>,
        payload: Seq<u8>,
        user_properties: Seq<(Seq<char>, Seq<char>)>,
        options: PublishOptionsView,
    },
    Send { client_id: Seq<char>, command: ClientCommandView },
    PurgeExpiry,
}

/// The view of an optional string.
pub open spec fn opt_str(o: Option<String>) -> Option<Seq<char>> {
    match o {
        Some(s) => Some(s@),
        None => None,
    }
}

impl View for BrokerAction {
    type V = ActionView;

    open spec fn view(&self) -> ActionView {
        match self {
            BrokerAction::Disconnect { client_id, code } => ActionView::Disconnect {
                client_id: client_id@,
                code: *code,
            },
            BrokerAction::PrepareWill { client_id, will } => ActionView::PrepareWill {
                client_id: client_id@,
                will: will@,
            },
            BrokerAction::RemoveClient { client_id } => ActionView::RemoveClient {
                client_id: client_id@,
            },
            BrokerAction::Subscribe { client_id, share_group, topic, qos, no_local, persist } =>
                ActionView::Subscribe {
                client_id: client_id@,
                share_group: opt_str(*share_group),
                topic: topic@,
                qos: *qos,
                no_local: *no_local,
                persist: *persist,
            },
            BrokerAction::Unsubscribe { client_id, share_group, topic } => ActionView::Unsubscribe {
                client_id: client_id@,
                share_group: opt_str(*share_group),
                topic: topic@,
            },
            BrokerAction::Publish {
                client_id,
                retain,
                qos,
                topic,
                payload,
                user_properties,
                options,
            } => ActionView::Publish {
                client_id: client_id@,
                retain: *retain,
                qos: *qos,
                topic: topic@,
                payload: payload@,
                user_properties: pair_views(user_properties@),
                options: options@,
            },
            BrokerAction::Send { client_id, command } => ActionView::Send {
                client_id: client_id@,
                command: command@,
            },
            BrokerAction::PurgeExpiry => ActionView::PurgeExpiry,
        }
    }
}

/// The views of actions.
pub open spec fn action_views(v: Seq<BrokerAction>) -> Seq<ActionView> {
    v.map_values(|a: BrokerAction| a@)
}

/// The views of sessions.
pub open spec fn client_views(v: Seq<Client>) -> Seq<ClientView> {
    v.map_values(|c: Client| c@)
}

/// No two sessions have the same client identifier.
pub open spec fn ids_unique(cs: Seq<ClientView>) -> bool {
    forall|i: int, j: int|
        0 <= i < j < cs.len() ==> (#[trigger] cs[i]).client_id != (#[trigger] cs[j]).client_id
}

/// Whether a session of `id` is among `cs`.
pub open spec fn has_id(cs: Seq<ClientView>, id: Seq<char>) -> bool {
    exists|i: int| 0 <= i < cs.len() && (#[trigger] cs[i]).client_id == id
}

/// Where the session of `id` stands among `cs`, when it is there.
pub open spec fn index_of(cs: Seq<ClientView>, id: Seq<char>) -> int {
    choose|i: int| 0 <= i < cs.len() && (#[trigger] cs[i]).client_id == id
}

/// The session of `id` among `cs`, if any.
pub open spec fn lookup(cs: Seq<ClientView>, id: Seq<char>) -> Option<ClientView> {
    if has_id(cs, id) {
        Some(cs[index_of(cs, id)])
    } else {
        None
    }
}

/// `cs` without the session of `id`.
pub open spec fn without(cs: Seq<ClientView>, id: Seq<char>) -> Seq<ClientView> {
    if has_id(cs, id) {
        cs.remove(index_of(cs, id))
    } else {
        cs
    }
}

/// `cs` with the session of `id` replaced by `c`.
pub open spec fn replaced(cs: Seq<ClientView>, id: Seq<char>, c: ClientView) -> Seq<ClientView> {
    if has_id(cs, id) {
        cs.update(index_of(cs, id), c)
    } else {
        cs
    }
}

/// The views of commands.
pub open spec fn cmd_views(v: Seq<ClientCommand>) -> Seq<ClientCommandView> {
    v.map_values(|c: ClientCommand| c@)
}

/// The messages kept for clients that are away, by client identifier.
pub open spec fn queue_views(v: Seq<(String, Vec<ClientCommand>)>) -> Seq<
    (Seq<char>, Seq<ClientCommandView>),
> {
    v.map_values(
        |e: (String, Vec<ClientCommand>)| (e.0@, cmd_views(e.1@)),
    )
}

/// The broker's state: sessions that outlive their connection, sessions that end
/// with it, and the messages kept for clients that are away.
pub struct Broker {
    /// lasting sessions, one per client identifier (`broker_wf`); lists rather than
    /// maps keyed by the identifier, since vstd gives a `HashMap` or `BTreeMap` meaning
    /// only for keys whose hashing or ordering obeys its laws, which it states for integers
    /// and not for `String`
    store_clients: Vec<Client>,
    clean_clients: Vec<Client>,
    store_msgs: Vec<(String, Vec<ClientCommand>)>,
}

/// The broker's state as plain values.
pub struct BrokerView {
    pub store: Seq<ClientView>,
    pub clean: Seq<ClientView>,
    pub msgs: Seq<(Seq<char>, Seq<ClientCommandView>)>,
}

impl View for Broker {
    type V = BrokerView;

    closed spec fn view(&self) -> BrokerView {
        BrokerView {
            store: client_views(self.store_clients@),
            clean: client_views(self.clean_clients@),
            msgs: queue_views(self.store_msgs@),
        }
    }
}

/// The keys of the kept messages.
pub open spec fn queue_keys(q: Seq<(Seq<char>, Seq<ClientCommandView>)>) -> Seq<Seq<char>> {
    q.map_values(|e: (Seq<char>, Seq<ClientCommandView>)| e.0)
}

/// A client identifier has at most one session, in one of the two tables, and at
/// most one queue of kept messages.
pub open spec fn broker_wf(b: BrokerView) -> bool {
    &&& ids_unique(b.store)
    &&& ids_unique(b.clean)
    &&& forall|id: Seq<char>| !(has_id(b.store, id) && has_id(b.clean, id))
    &&& queue_keys(b.msgs).no_duplicates()
}

impl Broker {
    /// A broker with no sessions.
    pub fn new() -> (r: Self)
        ensures
            broker_wf(r@),
            r@.store.len() == 0,
            r@.clean.len() == 0,
            r@.msgs.len() == 0,
    {
        let b = Broker {
            store_clients: Vec::new(),
            clean_clients: Vec::new(),
            store_msgs: Vec::new(),
        };
        assert(queue_keys(b@.msgs) =~= Seq::<Seq<char>>::empty());
        b
    }
}

/// Finds the session of `id` among `v`.
fn find_client(v: &Vec<Client>, id: &str) -> (r: Option<usize>)
    requires
        ids_unique(client_views(v@)),
    ensures
        match r {
            Some(i) => i < v@.len() && v@[i as int].client_id@ == id@ && i == index_of(
                client_views(v@),
                id@,
            ),
            None => !has_id(client_views(v@), id@),
        },
{
    let mut i: usize = 0;
    while i < v.len()
        invariant
            i <= v@.len(),
            ids_unique(client_views(v@)),
            forall|j: int| 0 <= j < i ==> v@[j].client_id@ != id@,
        decreases v.len() - i,
    {
        if str_eq(v[i].client_id.as_str(), id) {
            proof {
                let cs = client_views(v@);
                assert(cs[i as int].client_id == id@);
                let k = index_of(cs, id@);
                assert(cs[k].client_id == id@);
                if k != i {
                    if k < i {
                        assert(cs[k].client_id != cs[i as int].client_id);
                    } else {
                        assert(cs[i as int].client_id != cs[k].client_id);
                    }
                }
            }
            return Some(i);
        }
        i = i + 1;
    }
    proof {
        let cs = client_views(v@);
        assert forall|j: int| 0 <= j < cs.len() implies (#[trigger] cs[j]).client_id != id@ by {
            assert(cs[j] == v@[j]@);
        }
    }
    None
}

/// Takes the session of `id` out of `v`.
fn take_client(v: &mut Vec<Client>, id: &str) -> (r: Option<Client>)
    requires
        ids_unique(client_views(old(v)@)),
    ensures
        match lookup(client_views(old(v)@), id@) {
            Some(c) => r matches Some(x) && x@ == c,
            None => r is None,
        },
        client_views(final(v)@) == without(client_views(old(v)@), id@),
{
    match find_client(v, id) {
        Some(i) => {
            assert(client_views(old(v)@)[i as int].client_id == id@);
            let c = v.remove(i);
            assert(client_views(v@) =~= client_views(old(v)@).remove(i as int));
            Some(c)
        },
        None => None,
    }
}

/// A sequence without one element keeps its ids distinct.
proof fn lemma_unique_remove(cs: Seq<ClientView>, i: int)
    requires
        ids_unique(cs),
        0 <= i < cs.len(),
    ensures
        ids_unique(cs.remove(i)),
        forall|id: Seq<char>| has_id(cs.remove(i), id) ==> has_id(cs, id),
        !has_id(cs.remove(i), cs[i].client_id),
{
    let r = cs.remove(i);
    assert forall|a: int, b: int| 0 <= a < b < r.len() implies (#[trigger] r[a]).client_id != (
    #[trigger] r[b]).client_id by {
        let a2 = if a < i { a } else { a + 1 };
        let b2 = if b < i { b } else { b + 1 };
        assert(r[a] == cs[a2]);
        assert(r[b] == cs[b2]);
    }
    assert forall|id: Seq<char>| has_id(r, id) implies has_id(cs, id) by {
        let k = choose|k: int| 0 <= k < r.len() && (#[trigger] r[k]).client_id == id;
        let k2 = if k < i { k } else { k + 1 };
        assert(cs[k2] == r[k]);
    }
    if has_id(r, cs[i].client_id) {
        let k = choose|k: int| 0 <= k < r.len() && (#[trigger] r[k]).client_id == cs[i].client_id;
        let k2 = if k < i { k } else { k + 1 };
        assert(cs[k2] == r[k]);
        if k2 < i {
            assert(cs[k2].client_id != cs[i].client_id);
        } else {
            assert(cs[i].client_id != cs[k2].client_id);
        }
    }
}

/// Without the session of `id`, ids stay distinct and `id` is gone.
proof fn lemma_without(cs: Seq<ClientView>, id: Seq<char>)
    requires
        ids_unique(cs),
    ensures
        ids_unique(without(cs, id)),
        !has_id(without(cs, id), id),
        forall|x: Seq<char>| has_id(without(cs, id), x) ==> has_id(cs, x),
{
    if has_id(cs, id) {
        let i = index_of(cs, id);
        lemma_unique_remove(cs, i);
    }
}

/// A sequence with a new id pushed keeps its ids distinct.
proof fn lemma_unique_push(cs: Seq<ClientView>, c: ClientView)
    requires
        ids_unique(cs),
        !has_id(cs, c.client_id),
    ensures
        ids_unique(cs.push(c)),
        forall|id: Seq<char>| has_id(cs.push(c), id) <==> (has_id(cs, id) || id == c.client_id),
{
    let r = cs.push(c);
    assert forall|a: int, b: int| 0 <= a < b < r.len() implies (#[trigger] r[a]).client_id != (
    #[trigger] r[b]).client_id by {
        if b == cs.len() {
            assert(r[a] == cs[a]);
        } else {
            assert(r[a] == cs[a]);
            assert(r[b] == cs[b]);
        }
    }
    assert forall|id: Seq<char>| has_id(r, id) <==> (has_id(cs, id) || id == c.client_id) by {
        if has_id(r, id) {
            let k = choose|k: int| 0 <= k < r.len() && (#[trigger] r[k]).client_id == id;
            if k < cs.len() {
                assert(cs[k] == r[k]);
            }
        }
        if has_id(cs, id) {
            let k = choose|k: int| 0 <= k < cs.len() && (#[trigger] cs[k]).client_id == id;
            assert(r[k] == cs[k]);
        }
        if id == c.client_id {
            assert(r[cs.len() as int] == c);
        }
    }
}

/// The actions for the will of session `c` when it ends with `code`: the will is
/// published unless the client said goodbye.
pub open spec fn will_actions(c: ClientView, code: ReturnCode) -> Seq<ActionView> {
    match c.will {
        Some(w) => if code != ReturnCode::Success {
            seq![ActionView::PrepareWill { client_id: c.client_id, will: w }]
        } else {
            Seq::empty()
        },
        None => Seq::empty(),
    }
}

/// What the end of the connection of `id` with `code` at `now` does: a session that
/// ends with its connection is dropped, and the router forgets the client; a session
/// that outlives it is kept, marked away since `now`. Either way the will is
/// published unless the client said goodbye.
pub open spec fn on_disconnected(b: BrokerView, id: Seq<char>, code: ReturnCode, now: u64) -> (
    BrokerView,
    Seq<ActionView>,
) {
    match lookup(b.clean, id) {
        Some(c) => (
            BrokerView { clean: without(b.clean, id), ..b },
            seq![ActionView::RemoveClient { client_id: c.client_id }] + will_actions(c, code),
        ),
        None => match lookup(b.store, id) {
            Some(c) => (
                BrokerView {
                    store: replaced(
                        b.store,
                        id,
                        ClientView { disconnected_tm: now, connected: false, ..c },
                    ),
                    ..b
                },
                will_actions(c, code),
            ),
            None => (b, Seq::empty()),
        },
    }
}

/// The session of `id`: the lasting one first, then the other.
pub open spec fn lookup_any(b: BrokerView, id: Seq<char>) -> Option<ClientView> {
    match lookup(b.store, id) {
        Some(c) => Some(c),
        None => lookup(b.clean, id),
    }
}

/// Whether the will of `id` is to be published now: unless the client is connected
/// (again).
pub open spec fn will_goes_out(b: BrokerView, id: Seq<char>) -> bool {
    match lookup_any(b, id) {
        None => true,
        Some(c) => !c.connected,
    }
}

/// Whether a queue of kept messages for `id` is there.
pub open spec fn qhas(q: Seq<(Seq<char>, Seq<ClientCommandView>)>, id: Seq<char>) -> bool {
    exists|k: int| 0 <= k < q.len() && (#[trigger] q[k]).0 == id
}

/// Where the queue of `id` stands.
pub open spec fn qindex(q: Seq<(Seq<char>, Seq<ClientCommandView>)>, id: Seq<char>) -> int {
    choose|k: int| 0 <= k < q.len() && (#[trigger] q[k]).0 == id
}

/// The kept messages with `m` kept for `id` too, at most `max` for a client: the
/// oldest goes when the queue is full.
pub open spec fn queued(
    q: Seq<(Seq<char>, Seq<ClientCommandView>)>,
    id: Seq<char>,
    m: ClientCommandView,
    max: usize,
) -> Seq<(Seq<char>, Seq<ClientCommandView>)> {
    if qhas(q, id) {
        let old = q[qindex(q, id)].1;
        let kept = if old.len() >= max {
            old.drop_first()
        } else {
            old
        };
        q.update(qindex(q, id), (id, kept.push(m)))
    } else {
        q.push((id, seq![m]))
    }
}

/// The kept messages without those of `id`.
pub open spec fn qdrop(q: Seq<(Seq<char>, Seq<ClientCommandView>)>, id: Seq<char>) -> Seq<
    (Seq<char>, Seq<ClientCommandView>),
> {
    if qhas(q, id) {
        q.remove(qindex(q, id))
    } else {
        q
    }
}

/// The messages kept for `id`.
pub open spec fn qget(q: Seq<(Seq<char>, Seq<ClientCommandView>)>, id: Seq<char>) -> Seq<
    ClientCommandView,
> {
    if qhas(q, id) {
        q[qindex(q, id)].1
    } else {
        Seq::empty()
    }
}

/// What a message for `id` from the router does: it goes to a connected client of a
/// lasting session; for one that is away, with an expiry, it is kept (at most `max`).
/// Clients of sessions that end with their connection get nothing here.
pub open spec fn on_store_msg(
    b: BrokerView,
    id: Seq<char>,
    m: ClientCommandView,
    max: usize,
) -> (BrokerView, Seq<ActionView>) {
    match lookup(b.store, id) {
        None => (b, Seq::empty()),
        Some(c) => if c.connected {
            (b, seq![ActionView::Send { client_id: id, command: m }])
        } else if c.expiry > 0 {
            (BrokerView { msgs: queued(b.msgs, id, m, max), ..b }, Seq::empty())
        } else {
            (b, Seq::empty())
        },
    }
}

/// Whether messages for `id` are kept for it: its session lasts and it is away.
pub open spec fn keeps_messages(b: BrokerView, id: Seq<char>) -> bool {
    lookup(b.store, id) matches Some(c) && !c.connected && c.expiry > 0
}

/// Finds the queue of `id`.
fn find_queue(q: &Vec<(String, Vec<ClientCommand>)>, id: &str) -> (r: Option<usize>)
    requires
        queue_keys(queue_views(q@)).no_duplicates(),
    ensures
        match r {
            Some(k) => k < q@.len() && qhas(queue_views(q@), id@) && k == qindex(queue_views(q@), id@),
            None => !qhas(queue_views(q@), id@),
        },
{
    let mut i: usize = 0;
    while i < q.len()
        invariant
            i <= q@.len(),
            queue_keys(queue_views(q@)).no_duplicates(),
            forall|j: int| 0 <= j < i ==> q@[j].0@ != id@,
        decreases q.len() - i,
    {
        if str_eq(q[i].0.as_str(), id) {
            proof {
                let qv = queue_views(q@);
                assert(qv[i as int].0 == id@);
                let k = qindex(qv, id@);
                assert(qv[k].0 == id@);
                assert(queue_keys(qv)[k] == queue_keys(qv)[i as int]);
            }
            return Some(i);
        }
        i = i + 1;
    }
    proof {
        let qv = queue_views(q@);
        assert forall|j: int| 0 <= j < qv.len() implies (#[trigger] qv[j]).0 != id@ by {
            assert(qv[j].0 == q@[j].0@);
        }
    }
    None
}

impl Broker {
    /// Handles the end of the connection of `client_id` with `code` at `now`, as
    /// `on_disconnected` says.
    pub fn disconnected(&mut self, client_id: &str, code: ReturnCode, now: u64) -> (r: Vec<BrokerAction>)
        requires
            broker_wf(old(self)@),
        ensures
            broker_wf(final(self)@),
            (final(self)@, action_views(r@)) == on_disconnected(old(self)@, client_id@, code, now),
    {
        let mut actions: Vec<BrokerAction> = Vec::new();
        let ghost b = self@;
        match find_client(&self.clean_clients, client_id) {
            Some(i) => {
                let c = self.clean_clients.remove(i);
                proof {
                    lemma_unique_remove(b.clean, i as int);
                    assert(client_views(self.clean_clients@) =~= b.clean.remove(i as int));
                    assert(b.clean[i as int].client_id == client_id@);
                }
                actions.push(BrokerAction::RemoveClient { client_id: c.client_id.clone() });
                push_will(&mut actions, &c, code);
                assert(action_views(actions@) =~= seq![ActionView::RemoveClient { client_id: c@.client_id }] + will_actions(c@, code));
                actions
            },
            None => {
                match find_client(&self.store_clients, client_id) {
                    Some(i) => {
                        assert(b.store[i as int].client_id == client_id@);
                        push_will(&mut actions, &self.store_clients[i], code);
                        let ghost c = b.store[i as int];
                        let mut c2 = self.store_clients.remove(i);
                        c2.disconnected_tm = now;
                        c2.connected = false;
                        self.store_clients.insert(i, c2);
                        proof {
                            assert(client_views(self.store_clients@) =~= b.store.update(
                                i as int,
                                ClientView { disconnected_tm: now, connected: false, ..c },
                            ));
                            assert forall|x: int, y: int| 0 <= x < y < self@.store.len() implies (#[trigger] self@.store[x]).client_id != (#[trigger] self@.store[y]).client_id by {
                                assert(self@.store[x].client_id == b.store[x].client_id);
                                assert(self@.store[y].client_id == b.store[y].client_id);
                            }
                            assert forall|id: Seq<char>| has_id(self@.store, id) implies has_id(b.store, id) by {
                                let k = choose|k: int| 0 <= k < self@.store.len() && (#[trigger] self@.store[k]).client_id == id;
                                assert(b.store[k].client_id == id);
                            }
                        }
                        actions
                    },
                    None => actions,
                }
            },
        }
    }

    /// Handles a will that is due for `client_id`: it is routed (as `will_goes_out`
    /// says) as a message from the client.
    pub fn will_publish(
        &self,
        client_id: String,
        retain: bool,
        qos: QoS,
        topic: String,
        payload: Vec<u8>,
        user_properties: Vec<PropertyUser>,
        options: PublishOptions,
    ) -> (r: Vec<BrokerAction>)
        requires
            broker_wf(self@),
        ensures
            action_views(r@) == if will_goes_out(self@, client_id@) {
                seq![
                    ActionView::Publish {
                        client_id: client_id@,
                        retain,
                        qos,
                        topic: topic@,
                        payload: payload@,
                        user_properties: pair_views(user_properties@),
                        options: options@,
                    },
                ]
            } else {
                Seq::empty()
            },
    {
        let connected = match find_client(&self.store_clients, client_id.as_str()) {
            Some(i) => {
                assert(self@.store[i as int].client_id == client_id@);
                self.store_clients[i].connected
            },
            None => match find_client(&self.clean_clients, client_id.as_str()) {
                Some(i) => {
                    assert(self@.clean[i as int].client_id == client_id@);
                    self.clean_clients[i].connected
                },
                None => false,
            },
        };
        let ghost goes = will_goes_out(self@, client_id@);
        assert(goes == !connected);
        let mut actions: Vec<BrokerAction> = Vec::new();
        if !connected {
            actions.push(
                BrokerAction::Publish {
                    client_id,
                    retain,
                    qos,
                    topic,
                    payload,
                    user_properties,
                    options,
                },
            );
        }
        assert(action_views(actions@) =~= if will_goes_out(self@, client_id@) {
            seq![
                ActionView::Publish {
                    client_id: client_id@,
                    retain,
                    qos,
                    topic: topic@,
                    payload: payload@,
                    user_properties: pair_views(user_properties@),
                    options: options@,
                },
            ]
        } else {
            Seq::empty()
        });
        actions
    }
}

/// Adds the actions for the will of `c` when it ends with `code`.
fn push_will(actions: &mut Vec<BrokerAction>, c: &Client, code: ReturnCode)
    ensures
        action_views(final(actions)@) == action_views(old(actions)@) + will_actions(c@, code),
{
    if let Some(will) = &c.will {
        if code != ReturnCode::Success {
            actions.push(BrokerAction::PrepareWill { client_id: c.client_id.clone(), will: will.clone() });
        }
    }
    assert(action_views(actions@) =~= action_views(old(actions)@) + will_actions(c@, code));
}

impl Broker {
    /// Handles a message from the router for `client_id`, as `on_store_msg` says, with
    /// the limit of `settings` on kept messages.
    pub fn store_msg(&mut self, client_id: String, msg: ClientCommand, settings: &MqttSettings) -> (r: Vec<BrokerAction>)
        requires
            broker_wf(old(self)@),
            settings.max_store_msgs_per_client > 0 || !keeps_messages(old(self)@, client_id@),
        ensures
            broker_wf(final(self)@),
            (final(self)@, action_views(r@)) == on_store_msg(
                old(self)@,
                client_id@,
                msg@,
                settings.max_store_msgs_per_client,
            ),
    {
        let ghost b = self@;
        let ghost m = msg@;
        let mut actions: Vec<BrokerAction> = Vec::new();
        match find_client(&self.store_clients, client_id.as_str()) {
            None => {
                assert(action_views(actions@) =~= Seq::<ActionView>::empty());
                actions
            },
            Some(i) => {
                assert(b.store[i as int].client_id == client_id@);
                if self.store_clients[i].connected {
                    actions.push(BrokerAction::Send { client_id, command: msg });
                    assert(action_views(actions@) =~= seq![ActionView::Send { client_id: b.store[i as int].client_id, command: m }]);
                    actions
                } else if self.store_clients[i].expiry > 0 {
                    let max = settings.max_store_msgs_per_client;
                    match find_queue(&self.store_msgs, client_id.as_str()) {
                        Some(k) => {
                            let (key, mut q) = self.store_msgs.remove(k);
                            let ghost oldq = cmd_views(q@);
                            if q.len() >= max {
                                q.remove(0);
                            }
                            q.push(msg);
                            self.store_msgs.insert(k, (key, q));
                            proof {
                                let kept = if oldq.len() >= max { oldq.drop_first() } else { oldq };
                                assert(cmd_views(q@) =~= kept.push(m));
                                assert(queue_views(self.store_msgs@) =~= b.msgs.update(k as int, (client_id@, kept.push(m))));
                                assert(queue_keys(self@.msgs) =~= queue_keys(b.msgs));
                            }
                        },
                        None => {
                            let mut q: Vec<ClientCommand> = Vec::new();
                            q.push(msg);
                            self.store_msgs.push((client_id, q));
                            proof {
                                assert(cmd_views(q@) =~= seq![m]);
                                assert(queue_views(self.store_msgs@) =~= b.msgs.push((client_id@, seq![m])));
                                assert(queue_keys(self@.msgs) =~= queue_keys(b.msgs).push(client_id@));
                                assert forall|x: int| 0 <= x < queue_keys(b.msgs).len() implies queue_keys(b.msgs)[x] != client_id@ by {
                                    assert(b.msgs[x].0 == queue_keys(b.msgs)[x]);
                                }
                            }
                        },
                    }
                    assert(action_views(actions@) =~= Seq::<ActionView>::empty());
                    actions
                } else {
                    assert(action_views(actions@) =~= Seq::<ActionView>::empty());
                    actions
                }
            },
        }
    }
}

/// The share group and the topic filter that a subscription to `topic` has in the
/// router: "$share/{group}/{filter}" is `filter` in `group`; anything else is itself,
/// in no group.
pub open spec fn share_split(topic: Seq<char>) -> (Option<Seq<char>>, Seq<char>) {
    match shared_parts(topic) {
        Some((g, t)) => (Some(g), t),
        None => (None, topic),
    }
}

/// The share group and topic filter of `topic`, as `share_split` says.
fn split_share(topic: &str) -> (r: (Option<String>, String))
    ensures
        (opt_str(r.0), r.1@) == share_split(topic@),
{
    match parse_shared_subscription(topic) {
        Ok((g, t)) => (Some(g.to_owned()), t.to_owned()),
        Err(_) => (None, topic.to_owned()),
    }
}

/// Whether `subs` holds a subscription to `topic`.
pub open spec fn subscribed(subs: Seq<(Seq<char>, SubscribeOption)>, topic: Seq<char>) -> bool {
    exists|i: int| 0 <= i < subs.len() && (#[trigger] subs[i]).0 == topic
}

/// Whether a topic filter is accepted: valid, and when it names a shared
/// subscription, one with a group and a filter.
pub open spec fn filter_accepted(topic: Seq<char>, max_len: usize) -> bool {
    sub_topic_ok(topic, max_len) && (shared_parts(topic) is Some || !is_shared(topic))
}

/// One topic filter of a SUBSCRIBE: an accepted filter not yet subscribed to is
/// added, and the router subscribes the client; an accepted filter answers success,
/// another `TopicFilterInvalid`.
pub open spec fn sub_step(
    acc: (Seq<(Seq<char>, SubscribeOption)>, Seq<ReturnCode>, Seq<ActionView>),
    id: Seq<char>,
    persist: bool,
    e: (Seq<char>, SubscribeOption),
    max_len: usize,
) -> (Seq<(Seq<char>, SubscribeOption)>, Seq<ReturnCode>, Seq<ActionView>) {
    let (subs, codes, acts) = acc;
    if filter_accepted(e.0, max_len) {
        if !subscribed(subs, e.0) {
            (
                subs.push(e),
                codes.push(ReturnCode::Success),
                acts.push(
                    ActionView::Subscribe {
                        client_id: id,
                        share_group: share_split(e.0).0,
                        topic: share_split(e.0).1,
                        qos: e.1.qos,
                        no_local: e.1.no_local,
                        persist,
                    },
                ),
            )
        } else {
            (subs, codes.push(ReturnCode::Success), acts)
        }
    } else {
        (subs, codes.push(ReturnCode::TopicFilterInvalid), acts)
    }
}

/// The topic filters `ts` of a SUBSCRIBE, one after the other.
pub open spec fn sub_fold(
    ts: Seq<(Seq<char>, SubscribeOption)>,
    acc: (Seq<(Seq<char>, SubscribeOption)>, Seq<ReturnCode>, Seq<ActionView>),
    id: Seq<char>,
    persist: bool,
    max_len: usize,
) -> (Seq<(Seq<char>, SubscribeOption)>, Seq<ReturnCode>, Seq<ActionView>)
    decreases ts.len(),
{
    if ts.len() == 0 {
        acc
    } else {
        sub_step(sub_fold(ts.drop_last(), acc, id, persist, max_len), id, persist, ts.last(), max_len)
    }
}

/// What a SUBSCRIBE from `id` does: for a client with a session, each filter as
/// `sub_step` says (the router keeps subscriptions of lasting sessions); for an
/// unknown client, every filter answers `UnspecifiedError`.
pub open spec fn on_subscribe(b: BrokerView, id: Seq<char>, sv: SubscribeView, max_len: usize) -> (
    BrokerView,
    Seq<ReturnCode>,
    Seq<ActionView>,
) {
    match lookup(b.store, id) {
        Some(c) => {
            let (subs, codes, acts) = sub_fold(
                sv.topics,
                (c.subscribes, Seq::empty(), Seq::empty()),
                id,
                c.expiry > 0,
                max_len,
            );
            (
                BrokerView { store: replaced(b.store, id, ClientView { subscribes: subs, ..c }), ..b },
                codes,
                acts,
            )
        },
        None => match lookup(b.clean, id) {
            Some(c) => {
                let (subs, codes, acts) = sub_fold(
                    sv.topics,
                    (c.subscribes, Seq::empty(), Seq::empty()),
                    id,
                    c.expiry > 0,
                    max_len,
                );
                (
                    BrokerView {
                        clean: replaced(b.clean, id, ClientView { subscribes: subs, ..c }),
                        ..b
                    },
                    codes,
                    acts,
                )
            },
            None => (
                b,
                Seq::new(sv.topics.len(), |i: int| ReturnCode::UnspecifiedError),
                Seq::empty(),
            ),
        },
    }
}

/// Whether `subs` holds a subscription to `topic`.
fn has_sub(subs: &Vec<(String, SubscribeOption)>, topic: &str) -> (r: bool)
    ensures
        r == subscribed(sub_views(subs@), topic@),
{
    let mut i: usize = 0;
    while i < subs.len()
        invariant
            i <= subs@.len(),
            forall|j: int| 0 <= j < i ==> subs@[j].0@ != topic@,
        decreases subs.len() - i,
    {
        if str_eq(subs[i].0.as_str(), topic) {
            assert(sub_views(subs@)[i as int].0 == topic@);
            return true;
        }
        i = i + 1;
    }
    assert forall|j: int| 0 <= j < sub_views(subs@).len() implies (#[trigger] sub_views(subs@)[j]).0 != topic@ by {
        assert(sub_views(subs@)[j].0 == subs@[j].0@);
    }
    false
}

/// Applies the topic filters of a SUBSCRIBE to the subscriptions of `client`, as
/// `sub_fold` says.
fn apply_subscribe(
    client: &mut Client,
    topics: Vec<(String, SubscribeOption)>,
    codes: &mut Vec<ReturnCode>,
    actions: &mut Vec<BrokerAction>,
    max_len: usize,
)
    ensures
        (sub_views(final(client).subscribes@), final(codes)@, action_views(final(actions)@)) == sub_fold(
            sub_views(topics@),
            (sub_views(old(client).subscribes@), old(codes)@, action_views(old(actions)@)),
            old(client).client_id@,
            old(client).expiry > 0,
            max_len,
        ),
        final(client)@ == (ClientView { subscribes: final(client)@.subscribes, ..old(client)@ }),
{
    let ghost ts = sub_views(topics@);
    let ghost init = (sub_views(old(client).subscribes@), old(codes)@, action_views(old(actions)@));
    let persist = client.expiry > 0;
    let mut k: usize = 0;
    while k < topics.len()
        invariant
            k <= topics@.len(),
            ts == sub_views(topics@),
            persist == (old(client).expiry > 0),
            client@ == (ClientView { subscribes: client@.subscribes, ..old(client)@ }),
            (sub_views(client.subscribes@), codes@, action_views(actions@)) == sub_fold(
                ts.take(k as int),
                init,
                old(client).client_id@,
                persist,
                max_len,
            ),
        decreases topics.len() - k,
    {
        proof {
            assert(ts.take(k + 1).drop_last() =~= ts.take(k as int));
            assert(ts.take(k + 1).last() == ts[k as int]);
        }
        let topic = &topics[k].0;
        let options = topics[k].1;
        let valid = sub_topic_valid(topic.as_str(), max_len) && (parse_shared_subscription(
            topic.as_str(),
        ).is_ok() || !super::utils::is_shared_subscription(topic.as_str()));
        let ghost before_subs = sub_views(client.subscribes@);
        let ghost before_acts = action_views(actions@);
        if valid {
            if !has_sub(&client.subscribes, topic.as_str()) {
                let (share_group, actual) = split_share(topic.as_str());
                actions.push(
                    BrokerAction::Subscribe {
                        client_id: client.client_id.clone(),
                        share_group,
                        topic: actual,
                        qos: options.qos,
                        no_local: options.no_local,
                        persist,
                    },
                );
                client.subscribes.push((topic.clone(), options));
                assert(sub_views(client.subscribes@) =~= before_subs.push(ts[k as int]));
                assert(action_views(actions@) =~= before_acts.push(
                    ActionView::Subscribe {
                        client_id: old(client).client_id@,
                        share_group: share_split(ts[k as int].0).0,
                        topic: share_split(ts[k as int].0).1,
                        qos: ts[k as int].1.qos,
                        no_local: ts[k as int].1.no_local,
                        persist,
                    },
                ));
            }
            codes.push(ReturnCode::Success);
        } else {
            codes.push(ReturnCode::TopicFilterInvalid);
        }
        k = k + 1;
    }
    assert(ts.take(topics@.len() as int) =~= ts);
}

/// Applies `f` to the session at `i` of `v`, keeping its identifier.
proof fn lemma_replace_keeps_ids(cs: Seq<ClientView>, i: int, c: ClientView)
    requires
        ids_unique(cs),
        0 <= i < cs.len(),
        c.client_id == cs[i].client_id,
    ensures
        ids_unique(cs.update(i, c)),
        forall|id: Seq<char>| has_id(cs.update(i, c), id) == has_id(cs, id),
        replaced(cs, c.client_id, c) == cs.update(i, c),
{
    let r = cs.update(i, c);
    assert forall|a: int, b: int| 0 <= a < b < r.len() implies (#[trigger] r[a]).client_id != (#[trigger] r[b]).client_id by {
        assert(r[a].client_id == cs[a].client_id);
        assert(r[b].client_id == cs[b].client_id);
    }
    assert forall|id: Seq<char>| has_id(r, id) == has_id(cs, id) by {
        if has_id(r, id) {
            let k = choose|k: int| 0 <= k < r.len() && (#[trigger] r[k]).client_id == id;
            assert(cs[k].client_id == id);
        }
        if has_id(cs, id) {
            let k = choose|k: int| 0 <= k < cs.len() && (#[trigger] cs[k]).client_id == id;
            assert(r[k].client_id == id);
        }
    }
    assert(cs[i].client_id == c.client_id);
    let k = index_of(cs, c.client_id);
    if k != i {
        if k < i {
            assert(cs[k].client_id != cs[i].client_id);
        } else {
            assert(cs[i].client_id != cs[k].client_id);
        }
    }
}

impl Broker {
    /// Handles a SUBSCRIBE from `client_id`, as `on_subscribe` says, with the topic
    /// length limit of `settings`; the SUBACK carries the return codes.
    pub fn subscribe(&mut self, client_id: &str, subscribe: Subscribe, settings: &MqttSettings) -> (r: (SubAck, Vec<BrokerAction>))
        requires
            broker_wf(old(self)@),
        ensures
            broker_wf(final(self)@),
            (final(self)@, r.0.return_codes@, action_views(r.1@)) == on_subscribe(
                old(self)@,
                client_id@,
                subscribe@,
                settings.max_topic_length,
            ),
            r.0.packet_id == subscribe.packet_id,
    {
        let ghost b = self@;
        let ghost sv = subscribe@;
        let mut codes: Vec<ReturnCode> = Vec::new();
        let mut actions: Vec<BrokerAction> = Vec::new();
        let packet_id = subscribe.packet_id;
        assert(action_views(actions@) =~= Seq::<ActionView>::empty());
        assert(codes@ =~= Seq::<ReturnCode>::empty());
        match find_client(&self.store_clients, client_id) {
            Some(i) => {
                assert(b.store[i as int].client_id == client_id@);
                let mut c = self.store_clients.remove(i);
                apply_subscribe(&mut c, subscribe.topics, &mut codes, &mut actions, settings.max_topic_length);
                let ghost cv = c@;
                self.store_clients.insert(i, c);
                proof {
                    assert(client_views(self.store_clients@) =~= b.store.update(i as int, cv));
                    lemma_replace_keeps_ids(b.store, i as int, cv);
                }
            },
            None => match find_client(&self.clean_clients, client_id) {
                Some(i) => {
                    assert(b.clean[i as int].client_id == client_id@);
                    let mut c = self.clean_clients.remove(i);
                    apply_subscribe(&mut c, subscribe.topics, &mut codes, &mut actions, settings.max_topic_length);
                    let ghost cv = c@;
                    self.clean_clients.insert(i, c);
                    proof {
                        assert(client_views(self.clean_clients@) =~= b.clean.update(i as int, cv));
                        lemma_replace_keeps_ids(b.clean, i as int, cv);
                    }
                },
                None => {
                    let n = subscribe.topics.len();
                    let mut k: usize = 0;
                    while k < n
                        invariant
                            k <= n,
                            codes@ == Seq::new(k as nat, |j: int| ReturnCode::UnspecifiedError),
                        decreases n - k,
                    {
                        codes.push(ReturnCode::UnspecifiedError);
                        assert(codes@ =~= Seq::new((k + 1) as nat, |j: int| ReturnCode::UnspecifiedError));
                        k = k + 1;
                    }
                    assert(action_views(actions@) =~= Seq::<ActionView>::empty());
                },
            },
        }
        (SubAck::new(packet_id, codes), actions)
    }
}

/// `subs` without its subscriptions to `topic`.
pub open spec fn drop_sub(subs: Seq<(Seq<char>, SubscribeOption)>, topic: Seq<char>) -> Seq<
    (Seq<char>, SubscribeOption),
>
    decreases subs.len(),
{
    if subs.len() == 0 {
        subs
    } else {
        let r = drop_sub(subs.drop_last(), topic);
        if subs.last().0 == topic {
            r
        } else {
            r.push(subs.last())
        }
    }
}

/// One topic filter of an UNSUBSCRIBE: a filter subscribed to is dropped, and the
/// router unsubscribes the client.
pub open spec fn unsub_step(
    acc: (Seq<(Seq<char>, SubscribeOption)>, Seq<ActionView>),
    id: Seq<char>,
    topic: Seq<char>,
) -> (Seq<(Seq<char>, SubscribeOption)>, Seq<ActionView>) {
    if subscribed(acc.0, topic) {
        (
            drop_sub(acc.0, topic),
            acc.1.push(
                ActionView::Unsubscribe {
                    client_id: id,
                    share_group: share_split(topic).0,
                    topic: share_split(topic).1,
                },
            ),
        )
    } else {
        acc
    }
}

/// The topic filters `ts` of an UNSUBSCRIBE, one after the other.
pub open spec fn unsub_fold(
    ts: Seq<Seq<char>>,
    acc: (Seq<(Seq<char>, SubscribeOption)>, Seq<ActionView>),
    id: Seq<char>,
) -> (Seq<(Seq<char>, SubscribeOption)>, Seq<ActionView>)
    decreases ts.len(),
{
    if ts.len() == 0 {
        acc
    } else {
        unsub_step(unsub_fold(ts.drop_last(), acc, id), id, ts.last())
    }
}

/// What an UNSUBSCRIBE from `id` does: for a client with a session, each filter as
/// `unsub_step` says, and every filter answers success; for an unknown client, every
/// filter answers `UnspecifiedError`.
pub open spec fn on_unsubscribe(b: BrokerView, id: Seq<char>, uv: UnsubscribeView) -> (
    BrokerView,
    Seq<ReturnCode>,
    Seq<ActionView>,
) {
    match lookup(b.store, id) {
        Some(c) => {
            let (subs, acts) = unsub_fold(uv.topics, (c.subscribes, Seq::empty()), id);
            (
                BrokerView { store: replaced(b.store, id, ClientView { subscribes: subs, ..c }), ..b },
                Seq::new(uv.topics.len(), |i: int| ReturnCode::Success),
                acts,
            )
        },
        None => match lookup(b.clean, id) {
            Some(c) => {
                let (subs, acts) = unsub_fold(uv.topics, (c.subscribes, Seq::empty()), id);
                (
                    BrokerView {
                        clean: replaced(b.clean, id, ClientView { subscribes: subs, ..c }),
                        ..b
                    },
                    Seq::new(uv.topics.len(), |i: int| ReturnCode::Success),
                    acts,
                )
            },
            None => (
                b,
                Seq::new(uv.topics.len(), |i: int| ReturnCode::UnspecifiedError),
                Seq::empty(),
            ),
        },
    }
}

/// Drops the subscriptions to `topic` from `subs`.
fn remove_sub(subs: &mut Vec<(String, SubscribeOption)>, topic: &str)
    ensures
        sub_views(final(subs)@) == drop_sub(sub_views(old(subs)@), topic@),
{
    let ghost sv = sub_views(subs@);
    let mut kept: Vec<(String, SubscribeOption)> = Vec::new();
    let mut k: usize = 0;
    while k < subs.len()
        invariant
            k <= subs@.len(),
            sv == sub_views(subs@),
            subs@ == old(subs)@,
            sub_views(kept@) == drop_sub(sv.take(k as int), topic@),
        decreases subs.len() - k,
    {
        proof {
            assert(sv.take(k + 1).drop_last() =~= sv.take(k as int));
            assert(sv.take(k + 1).last() == sv[k as int]);
        }
        if !str_eq(subs[k].0.as_str(), topic) {
            let ghost before = sub_views(kept@);
            kept.push((subs[k].0.clone(), subs[k].1));
            assert(sub_views(kept@) =~= before.push(sv[k as int]));
        }
        k = k + 1;
    }
    assert(sv.take(subs@.len() as int) =~= sv);
    *subs = kept;
}

/// Applies the topic filters of an UNSUBSCRIBE to the subscriptions of `client`, as
/// `unsub_fold` says.
fn apply_unsubscribe(client: &mut Client, topics: &Vec<String>, actions: &mut Vec<BrokerAction>)
    ensures
        (sub_views(final(client).subscribes@), action_views(final(actions)@)) == unsub_fold(
            topics@.map_values(|t: String| t@),
            (sub_views(old(client).subscribes@), action_views(old(actions)@)),
            old(client).client_id@,
        ),
        final(client)@ == (ClientView { subscribes: final(client)@.subscribes, ..old(client)@ }),
{
    let ghost ts = topics@.map_values(|t: String| t@);
    let ghost init = (sub_views(old(client).subscribes@), action_views(old(actions)@));
    let mut k: usize = 0;
    while k < topics.len()
        invariant
            k <= topics@.len(),
            ts == topics@.map_values(|t: String| t@),
            client@ == (ClientView { subscribes: client@.subscribes, ..old(client)@ }),
            (sub_views(client.subscribes@), action_views(actions@)) == unsub_fold(
                ts.take(k as int),
                init,
                old(client).client_id@,
            ),
        decreases topics.len() - k,
    {
        proof {
            assert(ts.take(k + 1).drop_last() =~= ts.take(k as int));
            assert(ts.take(k + 1).last() == ts[k as int]);
        }
        let topic = topics[k].as_str();
        if has_sub(&client.subscribes, topic) {
            let ghost before_acts = action_views(actions@);
            remove_sub(&mut client.subscribes, topic);
            let (share_group, actual) = split_share(topic);
            actions.push(
                BrokerAction::Unsubscribe {
                    client_id: client.client_id.clone(),
                    share_group,
                    topic: actual,
                },
            );
            assert(action_views(actions@) =~= before_acts.push(
                ActionView::Unsubscribe {
                    client_id: old(client).client_id@,
                    share_group: share_split(ts[k as int]).0,
                    topic: share_split(ts[k as int]).1,
                },
            ));
        }
        k = k + 1;
    }
    assert(ts.take(topics@.len() as int) =~= ts);
}

impl Broker {
    /// Handles an UNSUBSCRIBE from `client_id`, as `on_unsubscribe` says; the UNSUBACK
    /// carries the return codes.
    pub fn unsubscribe(&mut self, client_id: &str, unsubscribe: Unsubscribe) -> (r: (UnsubAck, Vec<BrokerAction>))
        requires
            broker_wf(old(self)@),
        ensures
            broker_wf(final(self)@),
            (final(self)@, r.0.return_codes@, action_views(r.1@)) == on_unsubscribe(
                old(self)@,
                client_id@,
                unsubscribe@,
            ),
            r.0.packet_id == unsubscribe.packet_id,
    {
        let ghost b = self@;
        let mut actions: Vec<BrokerAction> = Vec::new();
        assert(action_views(actions@) =~= Seq::<ActionView>::empty());
        let n = unsubscribe.topics.len();
        let found = match find_client(&self.store_clients, client_id) {
            Some(i) => {
                assert(b.store[i as int].client_id == client_id@);
                let mut c = self.store_clients.remove(i);
                apply_unsubscribe(&mut c, &unsubscribe.topics, &mut actions);
                let ghost cv = c@;
                self.store_clients.insert(i, c);
                proof {
                    assert(client_views(self.store_clients@) =~= b.store.update(i as int, cv));
                    lemma_replace_keeps_ids(b.store, i as int, cv);
                }
                true
            },
            None => match find_client(&self.clean_clients, client_id) {
                Some(i) => {
                    assert(b.clean[i as int].client_id == client_id@);
                    let mut c = self.clean_clients.remove(i);
                    apply_unsubscribe(&mut c, &unsubscribe.topics, &mut actions);
                    let ghost cv = c@;
                    self.clean_clients.insert(i, c);
                    proof {
                        assert(client_views(self.clean_clients@) =~= b.clean.update(i as int, cv));
                        lemma_replace_keeps_ids(b.clean, i as int, cv);
                    }
                    true
                },
                None => false,
            },
        };
        let code = if found {
            ReturnCode::Success
        } else {
            ReturnCode::UnspecifiedError
        };
        let mut codes: Vec<ReturnCode> = Vec::new();
        let mut k: usize = 0;
        while k < n
            invariant
                k <= n,
                codes@ == Seq::new(k as nat, |j: int| code),
            decreases n - k,
        {
            codes.push(code);
            assert(codes@ =~= Seq::new((k + 1) as nat, |j: int| code));
            k = k + 1;
        }
        assert(codes@ =~= Seq::new(unsubscribe@.topics.len(), |j: int| code));
        (UnsubAck::new(unsubscribe.packet_id, codes), actions)
    }
}

/// The session a CONNECT of `id` takes over: the one that ends with its connection
/// first, then the lasting one.
pub open spec fn taken(b: BrokerView, id: Seq<char>) -> Option<ClientView> {
    match lookup(b.clean, id) {
        Some(c) => Some(c),
        None => lookup(b.store, id),
    }
}

/// What taking over session `o` does: a client still connected is disconnected
/// (`SessionTakenOver`), its will is published, and the router forgets it.
pub open spec fn takeover_actions(o: Option<ClientView>) -> Seq<ActionView> {
    match o {
        Some(c) => if c.connected {
            seq![ActionView::Disconnect { client_id: c.client_id, code: ReturnCode::SessionTakenOver }]
                + match c.will {
                Some(w) => seq![ActionView::PrepareWill { client_id: c.client_id, will: w }],
                None => Seq::empty(),
            } + seq![ActionView::RemoveClient { client_id: c.client_id }]
        } else {
            Seq::empty()
        },
        None => Seq::empty(),
    }
}

/// The router subscriptions that restore the subscriptions `subs` of `id`.
pub open spec fn resubscribe_actions(
    id: Seq<char>,
    subs: Seq<(Seq<char>, SubscribeOption)>,
    persist: bool,
) -> Seq<ActionView> {
    subs.map_values(
        |e: (Seq<char>, SubscribeOption)|
            ActionView::Subscribe {
                client_id: id,
                share_group: share_split(e.0).0,
                topic: share_split(e.0).1,
                qos: e.1.qos,
                no_local: e.1.no_local,
                persist,
            },
    )
}

/// The deliveries of the kept messages `msgs` to `id`.
pub open spec fn send_actions(id: Seq<char>, msgs: Seq<ClientCommandView>) -> Seq<ActionView> {
    msgs.map_values(|m: ClientCommandView| ActionView::Send { client_id: id, command: m })
}

/// What a CONNECT `cv` does: it takes over the session of its client identifier
/// (`takeover_actions`); the new session lasts when it asks for a session expiry;
/// unless it starts clean it keeps the old subscriptions, the router subscribes them
/// again and the kept messages are delivered; the kept messages are dropped in any
/// case; the CONNACK says whether the session lasts and gives the identifier the
/// broker made up.
pub open spec fn on_connect(b: BrokerView, cv: ConnectView) -> (BrokerView, ConnAckView, Seq<ActionView>) {
    let id = cv.client_id;
    let old = taken(b, id);
    let expiry = cv.options.session_expiry_interval;
    let subs = if cv.clean_start {
        Seq::empty()
    } else {
        match old {
            Some(o) => o.subscribes,
            None => Seq::empty(),
        }
    };
    let c = ClientView {
        client_id: id,
        version: cv.version,
        connected: true,
        disconnected_tm: 0,
        clear_start: cv.clean_start,
        expiry,
        subscribes: subs,
        will: cv.will,
    };
    let ack = ConnAckView {
        session_present: expiry > 0,
        return_code: ReturnCode::Success,
        generated_client_id: if cv.generate_client_id {
            Some(id)
        } else {
            None
        },
        options: ConnAckOptions { topic_alias_maximum: 0, session_expiry_interval: 0 },
    };
    let acts = takeover_actions(old) + seq![ActionView::RemoveClient { client_id: id }] + if cv.clean_start {
        Seq::empty()
    } else {
        resubscribe_actions(id, subs, expiry > 0) + send_actions(id, qget(b.msgs, id))
    };
    let store1 = without(b.store, id);
    let clean1 = without(b.clean, id);
    (
        BrokerView {
            store: if expiry > 0 {
                store1.push(c)
            } else {
                store1
            },
            clean: if expiry > 0 {
                clean1
            } else {
                clean1.push(c)
            },
            msgs: qdrop(b.msgs, id),
        },
        ack,
        acts,
    )
}

/// Takes the messages kept for `id` out of `q`.
fn take_queue(q: &mut Vec<(String, Vec<ClientCommand>)>, id: &str) -> (r: Vec<ClientCommand>)
    requires
        queue_keys(queue_views(old(q)@)).no_duplicates(),
    ensures
        cmd_views(r@) == qget(queue_views(old(q)@), id@),
        queue_views(final(q)@) == qdrop(queue_views(old(q)@), id@),
        queue_keys(queue_views(final(q)@)).no_duplicates(),
{
    match find_queue(q, id) {
        Some(k) => {
            let (_, msgs) = q.remove(k);
            proof {
                let qv = queue_views(old(q)@);
                assert(queue_views(q@) =~= qv.remove(k as int));
                let ks = queue_keys(qv);
                assert(queue_keys(queue_views(q@)) =~= ks.remove(k as int));
                assert forall|a: int, b: int| 0 <= a < b < ks.remove(k as int).len() implies ks.remove(k as int)[a] != ks.remove(k as int)[b] by {
                    let a2 = if a < k { a } else { a + 1 };
                    let b2 = if b < k { b } else { b + 1 };
                    assert(ks.remove(k as int)[a] == ks[a2]);
                    assert(ks.remove(k as int)[b] == ks[b2]);
                }
            }
            msgs
        },
        None => {
            let r: Vec<ClientCommand> = Vec::new();
            assert(cmd_views(r@) =~= Seq::<ClientCommandView>::empty());
            r
        },
    }
}

impl Broker {
    /// Handles a CONNECT, as `on_connect` says.
    pub fn connect(&mut self, connect: Connect) -> (r: (ConnAck, Vec<BrokerAction>))
        requires
            broker_wf(old(self)@),
        ensures
            broker_wf(final(self)@),
            (final(self)@, r.0@, action_views(r.1@)) == on_connect(old(self)@, connect@),
    {
        let ghost b = self@;
        let ghost cv = connect@;
        let id = connect.client_id.clone();
        let old_clean = take_client(&mut self.clean_clients, id.as_str());
        proof {
            if has_id(b.clean, id@) {
                lemma_unique_remove(b.clean, index_of(b.clean, id@));
            }
        }
        let old_store = take_client(&mut self.store_clients, id.as_str());
        proof {
            if has_id(b.store, id@) {
                lemma_unique_remove(b.store, index_of(b.store, id@));
                assert(!has_id(b.clean, id@));
            }
        }
        let old_client = match old_clean {
            Some(c) => Some(c),
            None => old_store,
        };
        assert(opt_client(old_client) == taken(b, id@));
        let mut actions: Vec<BrokerAction> = Vec::new();
        assert(action_views(actions@) =~= Seq::<ActionView>::empty());
        push_takeover(&mut actions, &old_client);
        assert(action_views(actions@) =~= takeover_actions(taken(b, id@)));
        let expiry = connect.options.session_expiry_interval;
        let subscribes = if connect.clean_start {
            Vec::new()
        } else {
            match old_client {
                Some(o) => o.subscribes,
                None => Vec::new(),
            }
        };
        assert(sub_views(subscribes@) =~= if cv.clean_start {
            Seq::empty()
        } else {
            match taken(b, id@) {
                Some(o) => o.subscribes,
                None => Seq::empty(),
            }
        });
        let generated = if connect.generate_client_id {
            Some(id.clone())
        } else {
            None
        };
        let ack = ConnAck::new(expiry > 0, ReturnCode::Success, generated);
        actions.push(BrokerAction::RemoveClient { client_id: id.clone() });
        let ghost after_remove = action_views(actions@);
        let queued = take_queue(&mut self.store_msgs, id.as_str());
        if !connect.clean_start {
            push_resubscribes(&mut actions, &id, &subscribes, expiry > 0);
            push_sends(&mut actions, &id, queued);
        }
        assert(action_views(actions@) =~= on_connect(b, cv).2);
        let client = Client {
            client_id: id,
            version: connect.version,
            connected: true,
            disconnected_tm: 0,
            clear_start: connect.clean_start,
            expiry,
            subscribes,
            will: connect.will,
        };
        let ghost c = client@;
        proof {
            lemma_without(b.store, id@);
            lemma_without(b.clean, id@);
        }
        if expiry > 0 {
            self.store_clients.push(client);
            proof {
                assert(client_views(self.store_clients@) =~= without(b.store, id@).push(c));
                lemma_unique_push(without(b.store, id@), c);
            }
        } else {
            self.clean_clients.push(client);
            proof {
                assert(client_views(self.clean_clients@) =~= without(b.clean, id@).push(c));
                lemma_unique_push(without(b.clean, id@), c);
            }
        }
        proof {
            assert forall|x: Seq<char>| !(has_id(self@.store, x) && has_id(self@.clean, x)) by {
                if has_id(self@.store, x) && has_id(self@.clean, x) {
                    if x != id@ {
                        assert(has_id(b.store, x));
                        assert(has_id(b.clean, x));
                    }
                }
            }
        }
        (ack, actions)
    }
}

/// Adds the actions of taking over session `old`.
fn push_takeover(actions: &mut Vec<BrokerAction>, prior: &Option<Client>)
    ensures
        action_views(final(actions)@) == action_views(old(actions)@) + takeover_actions(opt_client(*prior)),
{
    if let Some(o) = prior {
        if o.connected {
            actions.push(
                BrokerAction::Disconnect { client_id: o.client_id.clone(), code: ReturnCode::SessionTakenOver },
            );
            if let Some(will) = &o.will {
                actions.push(BrokerAction::PrepareWill { client_id: o.client_id.clone(), will: will.clone() });
            }
            actions.push(BrokerAction::RemoveClient { client_id: o.client_id.clone() });
        }
    }
    assert(action_views(actions@) =~= action_views(old(actions)@) + takeover_actions(opt_client(*prior)));
}

/// Adds the router subscriptions that restore `subs` for `id`.
fn push_resubscribes(
    actions: &mut Vec<BrokerAction>,
    id: &String,
    subs: &Vec<(String, SubscribeOption)>,
    persist: bool,
)
    ensures
        action_views(final(actions)@) == action_views(old(actions)@) + resubscribe_actions(
            id@,
            sub_views(subs@),
            persist,
        ),
{
    let ghost all = resubscribe_actions(id@, sub_views(subs@), persist);
    let mut k: usize = 0;
    while k < subs.len()
        invariant
            k <= subs@.len(),
            all == resubscribe_actions(id@, sub_views(subs@), persist),
            action_views(actions@) == action_views(old(actions)@) + all.take(k as int),
        decreases subs.len() - k,
    {
        let (share_group, actual) = split_share(subs[k].0.as_str());
        let ghost before = action_views(actions@);
        actions.push(
            BrokerAction::Subscribe {
                client_id: id.clone(),
                share_group,
                topic: actual,
                qos: subs[k].1.qos,
                no_local: subs[k].1.no_local,
                persist,
            },
        );
        assert(action_views(actions@) =~= before.push(all[k as int]));
        assert(all.take(k + 1) =~= all.take(k as int).push(all[k as int]));
        k = k + 1;
    }
    assert(all.take(subs@.len() as int) =~= all);
}

/// Adds the deliveries of `queued` to `id`, in order.
fn push_sends(actions: &mut Vec<BrokerAction>, id: &String, queued: Vec<ClientCommand>)
    ensures
        action_views(final(actions)@) == action_views(old(actions)@) + send_actions(
            id@,
            cmd_views(queued@),
        ),
{
    let mut queued = queued;
    let ghost qv = cmd_views(queued@);
    let ghost total = queued@.len();
    assert(qv.skip(0) =~= qv);
    assert(qv.take(0) =~= Seq::<ClientCommandView>::empty());
    assert(send_actions(id@, Seq::<ClientCommandView>::empty()) =~= Seq::<ActionView>::empty());
    while queued.len() > 0
        invariant
            queued@.len() <= total,
            qv.len() == total,
            cmd_views(queued@) == qv.skip(total - queued@.len()),
            action_views(actions@) == action_views(old(actions)@) + send_actions(
                id@,
                qv.take(total - queued@.len()),
            ),
        decreases queued.len(),
    {
        let ghost done = total - queued@.len();
        let ghost before = queued@;
        assert(before[0]@ == qv.skip(done)[0]);
        let m = queued.remove(0);
        let ghost acts = action_views(actions@);
        actions.push(BrokerAction::Send { client_id: id.clone(), command: m });
        assert(qv.take(done + 1) =~= qv.take(done).push(qv[done]));
        assert(send_actions(id@, qv.take(done + 1)) =~= send_actions(id@, qv.take(done)).push(
            ActionView::Send { client_id: id@, command: qv[done] },
        ));
        assert(action_views(actions@) =~= acts.push(ActionView::Send { client_id: id@, command: qv[done] }));
        assert forall|i: int| 0 <= i < queued@.len() implies #[trigger] cmd_views(queued@)[i] == qv.skip(done + 1)[i] by {
            assert(queued@[i] == before[i + 1]);
            assert(cmd_views(before)[i + 1] == qv.skip(done)[i + 1]);
        }
        assert(cmd_views(queued@) =~= qv.skip(done + 1));
    }
    assert(qv.take(total as int) =~= qv);
}

/// The view of an optional session.
pub open spec fn opt_client(c: Option<Client>) -> Option<ClientView> {
    match c {
        Some(x) => Some(x@),
        None => None,
    }
}

/// Whether session `c` is still kept at `now`: while connected, or, for one with an
/// expiry, until `expiry` seconds after the client went away. Both times are wall
/// clock seconds since the Unix epoch, so a session does expire once its interval has
/// passed, as MQTT 5 says of the session expiry interval.
pub open spec fn keeps(c: ClientView, now: u64) -> bool {
    c.connected || (c.expiry != 0 && now - c.disconnected_tm < c.expiry)
}

/// The sessions among `cs` still kept at `now`, in order.
pub open spec fn kept_sessions(cs: Seq<ClientView>, now: u64) -> Seq<ClientView>
    decreases cs.len(),
{
    if cs.len() == 0 {
        cs
    } else {
        let r = kept_sessions(cs.drop_last(), now);
        if keeps(cs.last(), now) {
            r.push(cs.last())
        } else {
            r
        }
    }
}

/// The client identifiers of the sessions among `cs` that expire at `now`, in order.
pub open spec fn expired_ids(cs: Seq<ClientView>, now: u64) -> Seq<Seq<char>>
    decreases cs.len(),
{
    if cs.len() == 0 {
        Seq::empty()
    } else {
        let r = expired_ids(cs.drop_last(), now);
        if keeps(cs.last(), now) {
            r
        } else {
            r.push(cs.last().client_id)
        }
    }
}

/// The kept messages without those of `ids`.
pub open spec fn qdrop_all(q: Seq<(Seq<char>, Seq<ClientCommandView>)>, ids: Seq<Seq<char>>) -> Seq<
    (Seq<char>, Seq<ClientCommandView>),
>
    decreases ids.len(),
{
    if ids.len() == 0 {
        q
    } else {
        qdrop(qdrop_all(q, ids.drop_last()), ids.last())
    }
}

/// What the periodic clean-up at `now` does: lasting sessions of clients that are
/// away past their expiry (or have none) are dropped, with their kept messages, and the
/// router forgets those clients; then expired retained messages are purged.
pub open spec fn on_tick(b: BrokerView, now: u64) -> (BrokerView, Seq<ActionView>) {
    let gone = expired_ids(b.store, now);
    (
        BrokerView { store: kept_sessions(b.store, now), msgs: qdrop_all(b.msgs, gone), ..b },
        remove_actions(gone) + seq![ActionView::PurgeExpiry],
    )
}

/// The router forgetting each of `ids`.
pub open spec fn remove_actions(ids: Seq<Seq<char>>) -> Seq<ActionView> {
    ids.map_values(|id: Seq<char>| ActionView::RemoveClient { client_id: id })
}

/// Whether `now` is no earlier than the time any away session went away.
pub open spec fn tick_ready(b: BrokerView, now: u64) -> bool {
    forall|i: int|
        0 <= i < b.store.len() ==> (#[trigger] b.store[i]).connected || b.store[i].expiry == 0
            || b.store[i].disconnected_tm <= now
}

/// The sessions kept are among those there were, and their ids stay distinct.
proof fn lemma_kept(cs: Seq<ClientView>, now: u64)
    requires
        ids_unique(cs),
    ensures
        ids_unique(kept_sessions(cs, now)),
        forall|x: Seq<char>| has_id(kept_sessions(cs, now), x) ==> has_id(cs, x),
    decreases cs.len(),
{
    if cs.len() > 0 {
        let d = cs.drop_last();
        assert(ids_unique(d)) by {
            assert forall|a: int, b: int| 0 <= a < b < d.len() implies (#[trigger] d[a]).client_id != (#[trigger] d[b]).client_id by {
                assert(d[a] == cs[a]);
                assert(d[b] == cs[b]);
            }
        }
        lemma_kept(d, now);
        assert forall|x: Seq<char>| has_id(d, x) implies has_id(cs, x) by {
            let k = choose|k: int| 0 <= k < d.len() && (#[trigger] d[k]).client_id == x;
            assert(cs[k] == d[k]);
        }
        if keeps(cs.last(), now) {
            let r = kept_sessions(d, now);
            assert(!has_id(r, cs.last().client_id)) by {
                if has_id(r, cs.last().client_id) {
                    assert(has_id(d, cs.last().client_id));
                    let k = choose|k: int| 0 <= k < d.len() && (#[trigger] d[k]).client_id == cs.last().client_id;
                    assert(cs[k].client_id != cs[cs.len() - 1].client_id);
                }
            }
            lemma_unique_push(r, cs.last());
            assert(has_id(cs, cs.last().client_id)) by {
                assert(cs[cs.len() - 1].client_id == cs.last().client_id);
            }
        }
    }
}

impl Broker {
    /// Whether the periodic clean-up can run at `now`: no session that may expire
    /// went away later than `now`.
    pub fn can_tick(&self, now: u64) -> (r: bool)
        ensures
            r == tick_ready(self@, now),
    {
        let ghost cs = client_views(self.store_clients@);
        let mut i: usize = 0;
        while i < self.store_clients.len()
            invariant
                cs == client_views(self.store_clients@),
                i <= cs.len(),
                forall|j: int|
                    0 <= j < i ==> (#[trigger] cs[j]).connected || cs[j].expiry == 0
                        || cs[j].disconnected_tm <= now,
            decreases cs.len() - i,
        {
            let c = &self.store_clients[i];
            if !(c.connected || c.expiry == 0 || c.disconnected_tm <= now) {
                assert(!(cs[i as int].connected || cs[i as int].expiry == 0
                    || cs[i as int].disconnected_tm <= now));
                return false;
            }
            i = i + 1;
        }
        true
    }

    /// Whether messages for `client_id` are kept for it, as `keeps_messages` says.
    pub fn keeps_messages(&self, client_id: &str) -> (r: bool)
        requires
            broker_wf(self@),
        ensures
            r == keeps_messages(self@, client_id@),
    {
        match find_client(&self.store_clients, client_id) {
            None => false,
            Some(i) => {
                assert(self@.store[i as int] == self.store_clients@[i as int]@);
                let c = &self.store_clients[i];
                !c.connected && c.expiry > 0
            },
        }
    }

    /// The periodic clean-up at `now` (seconds since the Unix epoch), as `on_tick`
    /// says: lasting sessions whose expiry interval has passed since their client
    /// went away are dropped, as `keeps` says.
    pub fn tick(&mut self, now: u64) -> (r: Vec<BrokerAction>)
        requires
            broker_wf(old(self)@),
            tick_ready(old(self)@, now),
        ensures
            broker_wf(final(self)@),
            (final(self)@, action_views(r@)) == on_tick(old(self)@, now),
    {
        let ghost b = self@;
        let mut rest: Vec<Client> = Vec::new();
        std::mem::swap(&mut rest, &mut self.store_clients);
        let ghost all = client_views(rest@);
        let ghost total = rest@.len();
        let mut gone: Vec<String> = Vec::new();
        assert(all.take(0) =~= Seq::<ClientView>::empty());
        assert(all.skip(0) =~= all);
        while rest.len() > 0
            invariant
                rest@.len() <= total,
                all.len() == total,
                all == b.store,
                tick_ready(b, now),
                client_views(rest@) == all.skip(total - rest@.len()),
                client_views(self.store_clients@) == kept_sessions(all.take(total - rest@.len()), now),
                gone@.map_values(|g: String| g@) == expired_ids(all.take(total - rest@.len()), now),
                self.clean_clients == old(self).clean_clients,
                self.store_msgs == old(self).store_msgs,
            decreases rest.len(),
        {
            let ghost done = total - rest@.len();
            let ghost before = rest@;
            assert(client_views(before)[0] == all.skip(done)[0]);
            assert(before[0]@ == all[done]);
            let c = rest.remove(0);
            assert(all.take(done + 1).drop_last() =~= all.take(done));
            assert(all.take(done + 1).last() == all[done]);
            assert(client_views(rest@) =~= all.skip(done + 1)) by {
                assert forall|i: int| 0 <= i < rest@.len() implies #[trigger] client_views(rest@)[i] == all.skip(done + 1)[i] by {
                    assert(rest@[i] == before[i + 1]);
                    assert(client_views(before)[i + 1] == all.skip(done)[i + 1]);
                }
            }
            let keep = if c.connected {
                true
            } else if c.expiry == 0 {
                false
            } else {
                now - c.disconnected_tm < c.expiry as u64
            };
            if keep {
                let ghost kb = client_views(self.store_clients@);
                self.store_clients.push(c);
                assert(client_views(self.store_clients@) =~= kb.push(all[done]));
            } else {
                let ghost gb = gone@.map_values(|g: String| g@);
                gone.push(c.client_id);
                assert(gone@.map_values(|g: String| g@) =~= gb.push(all[done].client_id));
            }
        }
        assert(all.take(total as int) =~= all);
        assert(client_views(self.store_clients@) == kept_sessions(b.store, now));
        let mut actions: Vec<BrokerAction> = Vec::new();
        let ghost ids = gone@.map_values(|g: String| g@);
        let mut k: usize = 0;
        assert(ids.take(0) =~= Seq::<Seq<char>>::empty());
        while k < gone.len()
            invariant
                k <= gone@.len(),
                ids == gone@.map_values(|g: String| g@),
                queue_keys(queue_views(self.store_msgs@)).no_duplicates(),
                queue_views(self.store_msgs@) == qdrop_all(b.msgs, ids.take(k as int)),
                client_views(self.store_clients@) == kept_sessions(b.store, now),
                self.clean_clients == old(self).clean_clients,
                action_views(actions@) == remove_actions(ids.take(k as int)),
            decreases gone.len() - k,
        {
            let _ = take_queue(&mut self.store_msgs, gone[k].as_str());
            let ghost ab = action_views(actions@);
            actions.push(BrokerAction::RemoveClient { client_id: gone[k].clone() });
            assert(ids.take(k + 1).drop_last() =~= ids.take(k as int));
            assert(ids.take(k + 1).last() == ids[k as int]);
            assert(remove_actions(ids.take(k + 1)) =~= remove_actions(ids.take(k as int)).push(
                ActionView::RemoveClient { client_id: ids[k as int] },
            ));
            assert(action_views(actions@) =~= ab.push(ActionView::RemoveClient { client_id: ids[k as int] }));
            k = k + 1;
        }
        assert(ids.take(gone@.len() as int) =~= ids);
        actions.push(BrokerAction::PurgeExpiry);
        assert(self@.store == kept_sessions(b.store, now));
        proof {
            lemma_kept(b.store, now);
            assert forall|x: Seq<char>| !(has_id(self@.store, x) && has_id(self@.clean, x)) by {
                if has_id(self@.store, x) {
                    assert(has_id(b.store, x));
                }
            }
            assert(action_views(actions@) =~= on_tick(b, now).1);
        }
        actions
    }
}

/// A command to the broker, from a client's connection or from the router.
pub enum BrokerCommand {
    Connect { connect: Connect },
    Subscribe { client_id: String, subscribe: Subscribe },
    Unsubscribe { client_id: String, unsubscribe: Unsubscribe },
    Disconnected(String, ReturnCode),
    WillPublish {
        client_id: String,
        retain: bool,
        qos: QoS,
        topic: String,
        payload: Vec<u8>,
        user_properties: Vec<PropertyUser>,
        options: PublishOptions,
    },
    StoreMsg { client_id: String, msg: ClientCommand },
}

/// The broker's answer to a connection.
pub enum BrokerAck {
    ConnAck(ConnAck),
    SubAck(SubAck),
    UnsubAck(UnsubAck),
}

impl Broker {
    /// Handles a command at `now` under `settings`: each kind as its own handler
    /// says.
    pub fn handle_message(&mut self, cmd: BrokerCommand, settings: &MqttSettings, now: u64) -> (r: (
        Option<BrokerAck>,
        Vec<BrokerAction>,
    ))
        requires
            broker_wf(old(self)@),
            cmd matches BrokerCommand::StoreMsg { client_id, .. } ==> (settings.max_store_msgs_per_client
                > 0 || !keeps_messages(old(self)@, client_id@)),
        ensures
            broker_wf(final(self)@),
            match cmd {
                BrokerCommand::Connect { connect } => r.0 matches Some(BrokerAck::ConnAck(a)) && (
                final(self)@, a@, action_views(r.1@)) == on_connect(old(self)@, connect@),
                BrokerCommand::Subscribe { client_id, subscribe } => r.0 matches Some(
                    BrokerAck::SubAck(a),
                ) && a.packet_id == subscribe.packet_id && (
                final(self)@, a.return_codes@, action_views(r.1@)) == on_subscribe(
                    old(self)@,
                    client_id@,
                    subscribe@,
                    settings.max_topic_length,
                ),
                BrokerCommand::Unsubscribe { client_id, unsubscribe } => r.0 matches Some(
                    BrokerAck::UnsubAck(a),
                ) && a.packet_id == unsubscribe.packet_id && (
                final(self)@, a.return_codes@, action_views(r.1@)) == on_unsubscribe(
                    old(self)@,
                    client_id@,
                    unsubscribe@,
                ),
                BrokerCommand::Disconnected(client_id, code) => r.0 is None && (
                final(self)@, action_views(r.1@)) == on_disconnected(
                    old(self)@,
                    client_id@,
                    code,
                    now,
                ),
                BrokerCommand::WillPublish {
                    client_id,
                    retain,
                    qos,
                    topic,
                    payload,
                    user_properties,
                    options,
                } => r.0 is None && final(self)@ == old(self)@ && action_views(r.1@) == if will_goes_out(
                    old(self)@,
                    client_id@,
                ) {
                    seq![
                        ActionView::Publish {
                            client_id: client_id@,
                            retain,
                            qos,
                            topic: topic@,
                            payload: payload@,
                            user_properties: pair_views(user_properties@),
                            options: options@,
                        },
                    ]
                } else {
                    Seq::empty()
                },
                BrokerCommand::StoreMsg { client_id, msg } => r.0 is None && (
                final(self)@, action_views(r.1@)) == on_store_msg(
                    old(self)@,
                    client_id@,
                    msg@,
                    settings.max_store_msgs_per_client,
                ),
            },
    {
        match cmd {
            BrokerCommand::Connect { connect } => {
                let (ack, actions) = self.connect(connect);
                (Some(BrokerAck::ConnAck(ack)), actions)
            },
            BrokerCommand::Subscribe { client_id, subscribe } => {
                let (ack, actions) = self.subscribe(client_id.as_str(), subscribe, settings);
                (Some(BrokerAck::SubAck(ack)), actions)
            },
            BrokerCommand::Unsubscribe { client_id, unsubscribe } => {
                let (ack, actions) = self.unsubscribe(client_id.as_str(), unsubscribe);
                (Some(BrokerAck::UnsubAck(ack)), actions)
            },
            BrokerCommand::Disconnected(client_id, code) => {
                let actions = self.disconnected(client_id.as_str(), code, now);
                (None, actions)
            },
            BrokerCommand::WillPublish {
                client_id,
                retain,
                qos,
                topic,
                payload,
                user_properties,
                options,
            } => {
                let actions = self.will_publish(
                    client_id,
                    retain,
                    qos,
                    topic,
                    payload,
                    user_properties,
                    options,
                );
                (None, actions)
            },
            BrokerCommand::StoreMsg { client_id, msg } => {
                let actions = self.store_msg(client_id, msg, settings);
                (None, actions)
            },
        }
    }
}

/// In sessions with distinct ids, the session of `cs[i]`'s id is `cs[i]`.
proof fn lemma_lookup_at(cs: Seq<ClientView>, i: int)
    requires
        ids_unique(cs),
        0 <= i < cs.len(),
    ensures
        lookup(cs, cs[i].client_id) == Some(cs[i]),
{
    let id = cs[i].client_id;
    assert(has_id(cs, id));
    let j = index_of(cs, id);
    if j != i {
        if j < i {
            assert(cs[j].client_id != cs[i].client_id);
        } else {
            assert(cs[i].client_id != cs[j].client_id);
        }
    }
}

/// After a CONNECT, the client has a connected session with the expiry it asked for;
/// the session lasts (is kept when the client goes away) exactly when that expiry is
/// above 0.
pub proof fn lemma_connect_makes_session(b: BrokerView, cv: ConnectView)
    requires
        broker_wf(b),
    ensures
        lookup_any(on_connect(b, cv).0, cv.client_id) matches Some(c) && c.connected && c.expiry
            == cv.options.session_expiry_interval && c.client_id == cv.client_id,
        has_id(on_connect(b, cv).0.store, cv.client_id) == (cv.options.session_expiry_interval > 0),
{
    let id = cv.client_id;
    let nb = on_connect(b, cv).0;
    lemma_without(b.store, id);
    lemma_without(b.clean, id);
    let store1 = without(b.store, id);
    let clean1 = without(b.clean, id);
    if cv.options.session_expiry_interval > 0 {
        let c = nb.store.last();
        lemma_unique_push(store1, c);
        lemma_lookup_at(nb.store, store1.len() as int);
    } else {
        let c = nb.clean.last();
        lemma_unique_push(clean1, c);
        lemma_lookup_at(nb.clean, clean1.len() as int);
        assert(!has_id(nb.store, id));
    }
}

/// When a client goes away, a session that was not to last is gone, a lasting one
/// stays, marked as not connected since `now`, and a client without a session
/// changes nothing.
pub proof fn lemma_disconnect_session(b: BrokerView, id: Seq<char>, code: ReturnCode, now: u64)
    requires
        broker_wf(b),
    ensures
        match lookup_any(b, id) {
            None => on_disconnected(b, id, code, now).0 == b,
            Some(c) => if has_id(b.clean, id) {
                lookup_any(on_disconnected(b, id, code, now).0, id) is None
            } else {
                lookup_any(on_disconnected(b, id, code, now).0, id) == Some(
                    ClientView { disconnected_tm: now, connected: false, ..c },
                )
            },
        },
{
    let nb = on_disconnected(b, id, code, now).0;
    if has_id(b.clean, id) {
        lemma_without(b.clean, id);
        assert(!has_id(b.store, id));
    } else if has_id(b.store, id) {
        let i = index_of(b.store, id);
        let c = b.store[i];
        let c2 = ClientView { disconnected_tm: now, connected: false, ..c };
        lemma_replace_keeps_ids(b.store, i, c2);
        lemma_lookup_at(nb.store, i);
    }
}

} // verus!
