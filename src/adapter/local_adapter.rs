use crate::app::AppConfig;
use crate::utils::SocketIdIssuer;
use crate::message::{copy_text, copy_texts, frame_of, AnyValue, PusherApiMessage};
use crate::namespace::{
    self, fresh, joined, left, purged, registered, texts, Broadcast, BroadcastMessage, Channel, Namespace,
};
use vstd::prelude::*;

verus! {

/// The one hard error at the adapter boundary.
#[derive(Debug, PartialEq, Eq, Structural)]
pub enum AdapterError {
    /// No namespace is configured for the named application.
    AppNotFound,
    /// Every socket id this adapter can hand out has been handed out.
    SocketIdsExhausted,
}

/// Routes each application id to that application's namespace.
pub struct LocalAdapter<H> {
    namespaces: Vec<Namespace<H>>,
    ids: SocketIdIssuer,
}

/// Registers a socket in an application's namespace.
pub struct AddSocket<H> {
    pub app_id: String,
    pub socket_id: String,
    pub socket_addr: H,
}

/// Publishes a message to an application.
pub struct SendMessage {
    pub app_id: String,
    pub message: PusherApiMessage,
}

/// Asks for an application's namespace.
pub struct GetNamespace {
    pub app_id: String,
}

/// Joins a socket to a channel of an application.
pub struct AddToChannel {
    pub app_id: String,
    pub channel: String,
    pub socket_id: String,
}

/// Takes a socket out of a channel of an application.
pub struct RemoveFromChannel {
    pub app_id: String,
    pub channel: String,
    pub socket_id: String,
}

/// Removes a socket from an application's namespace.
pub struct RemoveSocket<H> {
    pub app_id: String,
    pub socket_id: String,
    pub socket_addr: H,
}

/// The channels a publish request targets: its `channels` list, or else its
/// single `channel`, or else none.
pub open spec fn targets(msg: PusherApiMessage) -> Seq<Seq<char>> {
    match msg.channels {
        Some(v) => texts(v@),
        None => match msg.channel {
            Some(c) => seq![c@],
            None => Seq::empty(),
        },
    }
}

/// Whether `b` is the delivery of publish request `msg` on channel `ch` in a
/// namespace whose registered sockets are `sockets`: the frame carries the
/// request's name as its event, `ch` as its channel and the request's data,
/// and it goes to every registered socket but the one the request excludes.
pub open spec fn delivery_of(b: Broadcast, msg: PusherApiMessage, ch: Seq<char>, sockets: Set<Seq<char>>) -> bool {
    &&& b.frame.event == msg.name
    &&& b.frame.channel matches Some(c) && c@ == ch
    &&& match msg.data {
        Some(d) => b.frame.data == Some(AnyValue::String(d)),
        None => b.frame.data is None,
    }
    &&& texts(b.recipients@).no_duplicates()
    &&& texts(b.recipients@).to_set() == match msg.socket_id {
        Some(x) => sockets.remove(x@),
        None => sockets,
    }
}

impl<H> LocalAdapter<H> {
    /// Application ids are unique, and each namespace is well formed.
    pub closed spec fn wf(&self) -> bool {
        &&& forall|i: int, j: int|
            0 <= i < j < self.namespaces@.len() ==> #[trigger] self.namespaces@[i].app()
                != #[trigger] self.namespaces@[j].app()
        &&& forall|i: int| 0 <= i < self.namespaces@.len() ==> #[trigger] self.namespaces@[i].wf()
        &&& self.ids.wf()
    }

    /// The socket ids handed out so far.
    pub closed spec fn issued_ids(&self) -> Set<Seq<char>> {
        self.ids.issued()
    }

    /// Whether no further socket id can be handed out.
    pub closed spec fn ids_exhausted(&self) -> bool {
        self.ids.exhausted()
    }

    /// The namespace of a configured application belongs to that application.
    pub proof fn lemma_namespace_app(&self, a: Seq<char>)
        requires
            self.apps().contains(a),
        ensures
            self.namespace(a).app() == a,
    {
    }

    /// The configured application ids.
    pub closed spec fn apps(&self) -> Set<Seq<char>> {
        Set::new(
            |a: Seq<char>| exists|i: int| 0 <= i < self.namespaces@.len() && #[trigger] self.namespaces@[i].app() == a,
        )
    }

    /// The namespace of application `a`, where `a` is configured.
    pub closed spec fn namespace(&self, a: Seq<char>) -> Namespace<H> {
        self.namespaces@[choose|i: int| 0 <= i < self.namespaces@.len() && #[trigger] self.namespaces@[i].app() == a]
    }

    /// An adapter with no application configured.
    pub fn new() -> (r: Self)
        ensures
            r.wf(),
            r.apps() == Set::<Seq<char>>::empty(),
            r.issued_ids() == Set::<Seq<char>>::empty(),
            !r.ids_exhausted(),
    {
        let r = LocalAdapter { namespaces: Vec::new(), ids: SocketIdIssuer::new() };
        assert(r.apps() =~= Set::<Seq<char>>::empty());
        r
    }

    /// Position of application `app_id`, if configured.
    fn find_app(&self, app_id: &String) -> (r: Option<usize>)
        requires
            self.wf(),
        ensures
            match r {
                Some(i) => i < self.namespaces@.len() && self.namespaces@[i as int].app() == app_id@
                    && self.namespace(app_id@) == self.namespaces@[i as int]
                    && self.apps().contains(app_id@),
                None => !self.apps().contains(app_id@),
            },
    {
        let mut i: usize = 0;
        while i < self.namespaces.len()
            invariant
                i <= self.namespaces@.len(),
                self.wf(),
                forall|j: int| 0 <= j < i ==> self.namespaces@[j].app() != app_id@,
            decreases self.namespaces@.len() - i,
        {
            if *self.namespaces[i].app_id() == *app_id {
                proof {
                    let j = choose|j: int| 0 <= j < self.namespaces@.len() && #[trigger] self.namespaces@[j].app() == app_id@;
                    assert(self.namespaces@[i as int].app() == app_id@);
                    if j != i as int {
                        if j < i {
                            assert(self.namespaces@[j].app() != self.namespaces@[i as int].app());
                        } else {
                            assert(self.namespaces@[i as int].app() != self.namespaces@[j].app());
                        }
                    }
                }
                return Some(i);
            }
            i = i + 1;
        }
        None
    }

    proof fn lemma_replaced(pre: Self, post: Self, i: int, n: Namespace<H>)
        requires
            pre.wf(),
            0 <= i < pre.namespaces@.len(),
            post.namespaces@ == pre.namespaces@.update(i, n),
            post.ids == pre.ids,
            n.app() == pre.namespaces@[i].app(),
            n.wf(),
        ensures
            post.wf(),
            post.apps() == pre.apps(),
            post.namespace(n.app()) == n,
            forall|a: Seq<char>|
                pre.apps().contains(a) && a != n.app() ==> #[trigger] post.namespace(a) == pre.namespace(a),
    {
        assert forall|j: int, k: int|
            0 <= j < k < post.namespaces@.len() implies #[trigger] post.namespaces@[j].app()
            != #[trigger] post.namespaces@[k].app() by {
            assert(pre.namespaces@[j].app() != pre.namespaces@[k].app());
        }
        assert forall|a: Seq<char>| post.apps().contains(a) == pre.apps().contains(a) by {
            if post.apps().contains(a) {
                let j = choose|j: int| 0 <= j < post.namespaces@.len() && #[trigger] post.namespaces@[j].app() == a;
                assert(pre.namespaces@[j].app() == a);
            }
            if pre.apps().contains(a) {
                let j = choose|j: int| 0 <= j < pre.namespaces@.len() && #[trigger] pre.namespaces@[j].app() == a;
                assert(post.namespaces@[j].app() == a);
            }
        }
        assert(post.apps() =~= pre.apps());
        assert(post.namespaces@[i].app() == n.app());
        let ji = choose|j: int| 0 <= j < post.namespaces@.len() && #[trigger] post.namespaces@[j].app() == n.app();
        if ji != i {
            if ji < i {
                assert(post.namespaces@[ji].app() != post.namespaces@[i].app());
            } else {
                assert(post.namespaces@[i].app() != post.namespaces@[ji].app());
            }
        }
        assert forall|a: Seq<char>|
            pre.apps().contains(a) && a != n.app() implies #[trigger] post.namespace(a) == pre.namespace(a) by {
            let jp = choose|j: int| 0 <= j < pre.namespaces@.len() && #[trigger] pre.namespaces@[j].app() == a;
            assert(post.namespaces@[jp].app() == a);
            let jq = choose|j: int| 0 <= j < post.namespaces@.len() && #[trigger] post.namespaces@[j].app() == a;
            if jq != jp {
                if jq < jp {
                    assert(post.namespaces@[jq].app() != post.namespaces@[jp].app());
                } else {
                    assert(post.namespaces@[jp].app() != post.namespaces@[jq].app());
                }
            }
        }
    }

    /// Adds an empty namespace for `app_id`, unless one is configured already.
    pub fn add_app(&mut self, app_id: String)
        requires
            old(self).wf(),
        ensures
            final(self).wf(),
            final(self).apps() == old(self).apps().insert(app_id@),
            forall|a: Seq<char>| #[trigger] old(self).apps().contains(a) ==> final(self).namespace(a) == old(self).namespace(a),
            !old(self).apps().contains(app_id@) ==> fresh(final(self).namespace(app_id@), app_id@),
            final(self).issued_ids() == old(self).issued_ids(),
            final(self).ids_exhausted() == old(self).ids_exhausted(),
    {
        let ghost pre = *self;
        match self.find_app(&app_id) {
            Some(_) => {
                assert(pre.apps().insert(app_id@) =~= pre.apps());
            },
            None => {
                let ghost a = app_id@;
                let n = Namespace::new(app_id);
                let ghost nv = n;
                self.namespaces.push(n);
                proof {
                    let last = pre.namespaces@.len() as int;
                    assert(self.namespaces@[last] == nv);
                    assert forall|j: int, k: int|
                        0 <= j < k < self.namespaces@.len() implies #[trigger] self.namespaces@[j].app()
                        != #[trigger] self.namespaces@[k].app() by {
                        if k == last {
                            assert(pre.namespaces@[j].app() != a);
                        } else {
                            assert(pre.namespaces@[j].app() != pre.namespaces@[k].app());
                        }
                    }
                    assert forall|j: int| 0 <= j < self.namespaces@.len() implies #[trigger] self.namespaces@[j].wf() by {
                        if j < last {
                            assert(self.namespaces@[j] == pre.namespaces@[j]);
                        }
                    }
                    assert forall|x: Seq<char>| #[trigger] self.apps().contains(x) == pre.apps().insert(a).contains(x) by {
                        if self.apps().contains(x) && x != a {
                            let j = choose|j: int| 0 <= j < self.namespaces@.len() && #[trigger] self.namespaces@[j].app() == x;
                            assert(pre.namespaces@[j].app() == x);
                        }
                        if pre.apps().contains(x) {
                            let j = choose|j: int| 0 <= j < pre.namespaces@.len() && #[trigger] pre.namespaces@[j].app() == x;
                            assert(self.namespaces@[j].app() == x);
                        }
                    }
                    assert(self.apps() =~= pre.apps().insert(a));
                    let jn = choose|j: int| 0 <= j < self.namespaces@.len() && #[trigger] self.namespaces@[j].app() == a;
                    if jn != last {
                        assert(pre.namespaces@[jn].app() == a);
                    }
                    assert(nv.registry() =~= Map::<Seq<char>, H>::empty());
                    assert forall|x: Seq<char>| #[trigger] pre.apps().contains(x) implies self.namespace(x) == pre.namespace(x) by {
                        let jp = choose|j: int| 0 <= j < pre.namespaces@.len() && #[trigger] pre.namespaces@[j].app() == x;
                        assert(self.namespaces@[jp].app() == x);
                        let jq = choose|j: int| 0 <= j < self.namespaces@.len() && #[trigger] self.namespaces@[j].app() == x;
                        if jq != jp {
                            if jq == last {
                            } else if jq < jp {
                                assert(self.namespaces@[jq].app() != self.namespaces@[jp].app());
                            } else {
                                assert(self.namespaces@[jp].app() != self.namespaces@[jq].app());
                            }
                        }
                    }
                }
            },
        }
    }

    /// Registers a socket in its application's namespace.
    pub fn register_connection(&mut self, msg: AddSocket<H>) -> (r: Result<(), AdapterError>)
        requires
            old(self).wf(),
        ensures
            final(self).wf(),
            final(self).apps() == old(self).apps(),
            final(self).issued_ids() == old(self).issued_ids(),
            final(self).ids_exhausted() == old(self).ids_exhausted(),
            r is Ok <==> old(self).apps().contains(msg.app_id@),
            r is Err ==> r == Err::<(), AdapterError>(AdapterError::AppNotFound) && *final(self) == *old(self),
            forall|a: Seq<char>|
                old(self).apps().contains(a) && a != msg.app_id@ ==> #[trigger] final(self).namespace(a)
                    == old(self).namespace(a),
            r matches Ok(n) ==> registered(old(self).namespace(msg.app_id@), final(self).namespace(msg.app_id@), msg.socket_id@, msg.socket_addr),
    {
        match self.find_app(&msg.app_id) {
            None => Err(AdapterError::AppNotFound),
            Some(i) => {
                let ghost pre = *self;
                let mut ns = self.namespaces.remove(i);
                assert(ns.wf());
                let n = ns.add_socket(namespace::AddSocket { socket_id: msg.socket_id, socket_addr: msg.socket_addr });
                let ghost nv = ns;
                self.namespaces.insert(i, ns);
                proof {
                    assert(self.namespaces@ == pre.namespaces@.update(i as int, nv));
                    Self::lemma_replaced(pre, *self, i as int, nv);
                }
                Ok(n)
            },
        }
    }

    /// Removes a socket from its application's namespace and from every channel
    /// there; returns the number of sockets left in that namespace.
    pub fn unregister_connection(&mut self, msg: RemoveSocket<H>) -> (r: Result<usize, AdapterError>)
        requires
            old(self).wf(),
        ensures
            final(self).wf(),
            final(self).apps() == old(self).apps(),
            final(self).issued_ids() == old(self).issued_ids(),
            final(self).ids_exhausted() == old(self).ids_exhausted(),
            r is Ok <==> old(self).apps().contains(msg.app_id@),
            r is Err ==> r == Err::<usize, AdapterError>(AdapterError::AppNotFound) && *final(self) == *old(self),
            forall|a: Seq<char>|
                old(self).apps().contains(a) && a != msg.app_id@ ==> #[trigger] final(self).namespace(a)
                    == old(self).namespace(a),
            r matches Ok(n) ==> purged(old(self).namespace(msg.app_id@), final(self).namespace(msg.app_id@), msg.socket_id@)
                && n == final(self).namespace(msg.app_id@).registry().len(),
    {
        match self.find_app(&msg.app_id) {
            None => Err(AdapterError::AppNotFound),
            Some(i) => {
                let ghost pre = *self;
                let mut ns = self.namespaces.remove(i);
                assert(ns.wf());
                let n = ns.remove_socket(namespace::RemoveSocket { socket_id: msg.socket_id, socket_addr: msg.socket_addr });
                let ghost nv = ns;
                self.namespaces.insert(i, ns);
                proof {
                    assert(self.namespaces@ == pre.namespaces@.update(i as int, nv));
                    Self::lemma_replaced(pre, *self, i as int, nv);
                }
                Ok(n)
            },
        }
    }

    /// Joins a socket to a channel of its application; returns the channel's
    /// member count.
    pub fn join_channel(&mut self, msg: AddToChannel) -> (r: Result<usize, AdapterError>)
        requires
            old(self).wf(),
        ensures
            final(self).wf(),
            final(self).apps() == old(self).apps(),
            final(self).issued_ids() == old(self).issued_ids(),
            final(self).ids_exhausted() == old(self).ids_exhausted(),
            r is Ok <==> old(self).apps().contains(msg.app_id@),
            r is Err ==> r == Err::<usize, AdapterError>(AdapterError::AppNotFound) && *final(self) == *old(self),
            forall|a: Seq<char>|
                old(self).apps().contains(a) && a != msg.app_id@ ==> #[trigger] final(self).namespace(a)
                    == old(self).namespace(a),
            r matches Ok(n) ==> joined(old(self).namespace(msg.app_id@), final(self).namespace(msg.app_id@), msg.channel@, msg.socket_id@)
                && n == final(self).namespace(msg.app_id@).members(msg.channel@).len(),
    {
        match self.find_app(&msg.app_id) {
            None => Err(AdapterError::AppNotFound),
            Some(i) => {
                let ghost pre = *self;
                let mut ns = self.namespaces.remove(i);
                assert(ns.wf());
                let n = ns.add_to_channel(namespace::AddToChannel { socket_id: msg.socket_id, channel: msg.channel });
                let ghost nv = ns;
                self.namespaces.insert(i, ns);
                proof {
                    assert(self.namespaces@ == pre.namespaces@.update(i as int, nv));
                    Self::lemma_replaced(pre, *self, i as int, nv);
                }
                Ok(n)
            },
        }
    }

    /// Takes a socket out of a channel of its application; returns the
    /// channel's remaining member count.
    pub fn leave_channel(&mut self, msg: RemoveFromChannel) -> (r: Result<usize, AdapterError>)
        requires
            old(self).wf(),
        ensures
            final(self).wf(),
            final(self).apps() == old(self).apps(),
            final(self).issued_ids() == old(self).issued_ids(),
            final(self).ids_exhausted() == old(self).ids_exhausted(),
            r is Ok <==> old(self).apps().contains(msg.app_id@),
            r is Err ==> r == Err::<usize, AdapterError>(AdapterError::AppNotFound) && *final(self) == *old(self),
            forall|a: Seq<char>|
                old(self).apps().contains(a) && a != msg.app_id@ ==> #[trigger] final(self).namespace(a)
                    == old(self).namespace(a),
            r matches Ok(n) ==> left(old(self).namespace(msg.app_id@), final(self).namespace(msg.app_id@), msg.channel@, msg.socket_id@)
                && n == final(self).namespace(msg.app_id@).members(msg.channel@).len(),
    {
        match self.find_app(&msg.app_id) {
            None => Err(AdapterError::AppNotFound),
            Some(i) => {
                let ghost pre = *self;
                let mut ns = self.namespaces.remove(i);
                assert(ns.wf());
                let n = ns.remove_from_channel(namespace::RemoveFromChannel { socket_id: msg.socket_id, channel: Channel::Ch(msg.channel) });
                let ghost nv = ns;
                self.namespaces.insert(i, ns);
                proof {
                    assert(self.namespaces@ == pre.namespaces@.update(i as int, nv));
                    Self::lemma_replaced(pre, *self, i as int, nv);
                }
                Ok(n)
            },
        }
    }

    /// The channels that a publish request targets, in order.
    fn target_list(msg: &PusherApiMessage) -> (r: Vec<String>)
        ensures
            texts(r@) == targets(*msg),
    {
        match &msg.channels {
            Some(v) => copy_texts(v),
            None => match &msg.channel {
                Some(c) => {
                    let r = vec![c.clone()];
                    assert(texts(r@) =~= seq![c@]);
                    r
                },
                None => {
                    let r: Vec<String> = Vec::new();
                    assert(texts(r@) =~= Seq::<Seq<char>>::empty());
                    r
                },
            },
        }
    }

    /// Publishes a request to its application: for each target channel, a
    /// single-channel view of the request is broadcast in the application's
    /// namespace. Returns one delivery per target channel, in order.
    pub fn publish(&self, msg: SendMessage) -> (r: Result<Vec<Broadcast>, AdapterError>)
        requires
            self.wf(),
        ensures
            r is Ok <==> self.apps().contains(msg.app_id@),
            r is Err ==> r == Err::<Vec<Broadcast>, AdapterError>(AdapterError::AppNotFound),
            r matches Ok(v) ==> v@.len() == targets(msg.message).len() && forall|k: int|
                0 <= k < v@.len() ==> delivery_of(
                    #[trigger] v@[k],
                    msg.message,
                    targets(msg.message)[k],
                    self.namespace(msg.app_id@).registry().dom(),
                ),
    {
        match self.find_app(&msg.app_id) {
            None => Err(AdapterError::AppNotFound),
            Some(i) => {
                let m = &msg.message;
                let chs = Self::target_list(m);
                let mut out: Vec<Broadcast> = Vec::new();
                let mut k: usize = 0;
                while k < chs.len()
                    invariant
                        k <= chs@.len(),
                        self.wf(),
                        i < self.namespaces@.len(),
                        self.namespace(msg.app_id@) == self.namespaces@[i as int],
                        texts(chs@) == targets(*m),
                        out@.len() == k,
                        forall|j: int|
                            0 <= j < k ==> delivery_of(
                                #[trigger] out@[j],
                                *m,
                                targets(*m)[j],
                                self.namespace(msg.app_id@).registry().dom(),
                            ),
                    decreases chs@.len() - k,
                {
                    let ch = chs[k].clone();
                    let one = vec![ch.clone()];
                    let view = PusherApiMessage {
                        name: copy_text(&m.name),
                        data: copy_text(&m.data),
                        channel: Some(ch),
                        channels: Some(one),
                        socket_id: copy_text(&m.socket_id),
                        info: None,
                    };
                    let ghost vv = view;
                    assert(self.namespaces@[i as int].wf());
                    let b = self.namespaces[i].broadcast(BroadcastMessage(view));
                    assert(texts(chs@)[k as int] == chs@[k as int]@);
                    assert(frame_of(b.frame, vv));
                    out.push(b);
                    k = k + 1;
                }
                Ok(out)
            },
        }
    }

    /// The namespace of application `msg.app_id`.
    pub fn get_namespace(&self, msg: GetNamespace) -> (r: Result<&Namespace<H>, AdapterError>)
        requires
            self.wf(),
        ensures
            r is Ok <==> self.apps().contains(msg.app_id@),
            r is Err ==> r == Err::<&Namespace<H>, AdapterError>(AdapterError::AppNotFound),
            r matches Ok(n) ==> *n == self.namespace(msg.app_id@) && n.wf(),
    {
        match self.find_app(&msg.app_id) {
            None => Err(AdapterError::AppNotFound),
            Some(i) => Ok(&self.namespaces[i]),
        }
    }

    /// Configures the two applications this server hosts, `app1` and `app2`.
    pub fn started(&mut self)
        requires
            old(self).wf(),
        ensures
            final(self).wf(),
            final(self).apps() == old(self).apps().insert("app1"@).insert("app2"@),
            forall|a: Seq<char>| #[trigger] old(self).apps().contains(a) ==> final(self).namespace(a) == old(self).namespace(a),
            forall|a: Seq<char>| #[trigger] final(self).apps().contains(a) ==> final(self).namespace(a).app() == a,
            !old(self).apps().contains("app1"@) ==> fresh(final(self).namespace("app1"@), "app1"@),
            !old(self).apps().contains("app2"@) ==> fresh(final(self).namespace("app2"@), "app2"@),
            final(self).issued_ids() == old(self).issued_ids(),
            final(self).ids_exhausted() == old(self).ids_exhausted(),
    {
        let ghost pre = *self;
        self.add_app("app1".to_string());
        let ghost mid = *self;
        self.add_app("app2".to_string());
        assert forall|a: Seq<char>| #[trigger] pre.apps().contains(a) implies self.namespace(a) == pre.namespace(a) by {
            assert(mid.apps().contains(a));
        }
        proof {
            reveal_strlit("app1");
            reveal_strlit("app2");
            assert("app1"@ != "app2"@) by {
                assert("app1"@[3] != "app2"@[3]);
            }
            assert(mid.apps().contains("app1"@));
            assert forall|a: Seq<char>| #[trigger] self.apps().contains(a) implies self.namespace(a).app() == a by {
                self.lemma_namespace_app(a);
            }
        }
    }

    /// Adds a namespace for the id of each configuration record that has
    /// none yet.
    pub fn configure(&mut self, configs: &Vec<AppConfig>)
        requires
            old(self).wf(),
        ensures
            final(self).wf(),
            final(self).apps() == old(self).apps() + Set::new(
                |a: Seq<char>| exists|i: int| 0 <= i < configs@.len() && #[trigger] configs@[i].id@ == a,
            ),
            forall|a: Seq<char>| #[trigger] old(self).apps().contains(a) ==> final(self).namespace(a) == old(self).namespace(a),
            forall|a: Seq<char>| #[trigger] final(self).apps().contains(a) ==> final(self).namespace(a).app() == a,
            forall|a: Seq<char>|
                #[trigger] final(self).apps().contains(a) && !old(self).apps().contains(a) ==> fresh(
                    final(self).namespace(a),
                    a,
                ),
            final(self).issued_ids() == old(self).issued_ids(),
            final(self).ids_exhausted() == old(self).ids_exhausted(),
    {
        let ghost pre = *self;
        let mut i: usize = 0;
        while i < configs.len()
            invariant
                i <= configs@.len(),
                self.wf(),
                self.apps() == pre.apps() + Set::new(
                    |a: Seq<char>| exists|j: int| 0 <= j < i && #[trigger] configs@[j].id@ == a,
                ),
                forall|a: Seq<char>| #[trigger] pre.apps().contains(a) ==> self.namespace(a) == pre.namespace(a),
                forall|a: Seq<char>|
                    #[trigger] self.apps().contains(a) && !pre.apps().contains(a) ==> fresh(self.namespace(a), a),
                self.issued_ids() == pre.issued_ids(),
                self.ids_exhausted() == pre.ids_exhausted(),
            decreases configs@.len() - i,
        {
            let ghost mid = *self;
            self.add_app(configs[i].id.clone());
            assert forall|a: Seq<char>| #[trigger] pre.apps().contains(a) implies self.namespace(a) == pre.namespace(a) by {
                assert(mid.apps().contains(a));
            }
            assert forall|a: Seq<char>|
                #[trigger] self.apps().contains(a) && !pre.apps().contains(a) implies fresh(self.namespace(a), a) by {
                if mid.apps().contains(a) {
                    assert(fresh(mid.namespace(a), a));
                }
            }
            assert(self.apps() =~= pre.apps() + Set::new(
                |a: Seq<char>| exists|j: int| 0 <= j < i + 1 && #[trigger] configs@[j].id@ == a,
            )) by {
                assert forall|a: Seq<char>| self.apps().contains(a) == (pre.apps() + Set::new(
                    |a: Seq<char>| exists|j: int| 0 <= j < i + 1 && #[trigger] configs@[j].id@ == a,
                )).contains(a) by {
                    if (exists|j: int| 0 <= j < i + 1 && #[trigger] configs@[j].id@ == a) && a != configs@[i as int].id@ {
                        let j = choose|j: int| 0 <= j < i + 1 && #[trigger] configs@[j].id@ == a;
                        assert(j < i);
                    }
                }
            }
            i = i + 1;
        }
        assert forall|a: Seq<char>| #[trigger] self.apps().contains(a) implies self.namespace(a).app() == a by {
            self.lemma_namespace_app(a);
        }
    }

    /// Hands out a socket id for a new connection of application `app_id`:
    /// one that was never handed out before.
    pub fn issue_socket_id(&mut self, app_id: &String) -> (r: Result<String, AdapterError>)
        requires
            old(self).wf(),
        ensures
            final(self).wf(),
            final(self).apps() == old(self).apps(),
            forall|a: Seq<char>| #[trigger] old(self).apps().contains(a) ==> final(self).namespace(a) == old(self).namespace(a),
            !old(self).apps().contains(app_id@) ==> r == Err::<String, AdapterError>(AdapterError::AppNotFound)
                && *final(self) == *old(self),
            old(self).apps().contains(app_id@) && old(self).ids_exhausted() ==> r == Err::<String, AdapterError>(
                AdapterError::SocketIdsExhausted,
            ) && final(self).issued_ids() == old(self).issued_ids(),
            old(self).apps().contains(app_id@) && !old(self).ids_exhausted() ==> r is Ok,
            r matches Ok(s) ==> !old(self).issued_ids().contains(s@) && final(self).issued_ids() == old(
                self,
            ).issued_ids().insert(s@),
    {
        match self.find_app(app_id) {
            None => Err(AdapterError::AppNotFound),
            Some(_) => {
                let ghost pre = *self;
                match self.ids.generate_socket_id() {
                    Some(s) => {
                        assert(self.namespaces@ == pre.namespaces@);
                        assert(self.apps() =~= pre.apps());
                        Ok(s)
                    },
                    None => {
                        assert(self.apps() =~= pre.apps());
                        Err(AdapterError::SocketIdsExhausted)
                    },
                }
            },
        }
    }
}

} // verus!
