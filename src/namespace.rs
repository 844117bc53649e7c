use crate::message::{broadcast_frame, frame_of, PusherApiMessage, SentPusherMessage};
use vstd::prelude::*;

verus! {

/// The text of each string of `v`, in order.
pub open spec fn texts(v: Seq<String>) -> Seq<Seq<char>> {
    v.map_values(|s: String| s@)
}

/// One registry entry: a socket id and the handle used to reach the socket.
pub struct SocketEntry<H> {
    pub socket_id: String,
    pub handle: H,
}

/// One channel: its name and the ids of its members, each listed once.
pub struct ChannelEntry {
    pub name: String,
    pub members: Vec<String>,
}

/// One application's socket registry and channel membership index.
///
/// Every mutation goes through `&mut self`, so the operations on one
/// namespace are applied one at a time, in the order they are called.
pub struct Namespace<H> {
    app_id: String,
    sockets: Vec<SocketEntry<H>>,
    channels: Vec<ChannelEntry>,
}

/// Which channels a `RemoveFromChannel` names.
pub enum Channel {
    Ch(String),
    Vec(Vec<String>),
}

/// Registers a socket under its id, with its handle.
pub struct AddSocket<H> {
    pub socket_id: String,
    pub socket_addr: H,
}

/// Joins a socket to a channel.
pub struct AddToChannel {
    pub socket_id: String,
    pub channel: String,
}

/// Takes a socket out of one channel, or out of a list of channels.
pub struct RemoveFromChannel {
    pub socket_id: String,
    pub channel: Channel,
}

/// Asks for the ids of the registered sockets.
pub struct GetSockets;

/// Delivers a published message to the namespace's sockets.
pub struct BroadcastMessage(pub PusherApiMessage);

/// What a broadcast hands to the transport: one frame, and the ids of the
/// sockets it goes to.
pub struct Broadcast {
    pub frame: SentPusherMessage,
    pub recipients: Vec<String>,
}

/// Removes a socket from the registry and from every channel.
pub struct RemoveSocket<H> {
    pub socket_id: String,
    pub socket_addr: H,
}

/// Sum of the lengths of the membership lists of `cs`.
pub open spec fn sum_members(cs: Seq<ChannelEntry>) -> int
    decreases cs.len(),
{
    if cs.len() == 0 {
        0
    } else {
        sum_members(cs.drop_last()) + cs.last().members@.len()
    }
}

proof fn lemma_sum_same_lengths(a: Seq<ChannelEntry>, b: Seq<ChannelEntry>)
    requires
        a.len() == b.len(),
        forall|i: int| 0 <= i < a.len() ==> (#[trigger] a[i]).members@.len() == b[i].members@.len(),
    ensures
        sum_members(a) == sum_members(b),
    decreases a.len(),
{
    if a.len() > 0 {
        lemma_sum_same_lengths(a.drop_last(), b.drop_last());
        assert(a.last() == a[a.len() - 1]);
    }
}

/// Whether the list `v` holds a string with the text `id`.
fn list_contains(v: &Vec<String>, id: &String) -> (r: bool)
    ensures
        r == texts(v@).contains(id@),
{
    let mut i: usize = 0;
    while i < v.len()
        invariant
            i <= v@.len(),
            forall|j: int| 0 <= j < i ==> v@[j]@ != id@,
        decreases v@.len() - i,
    {
        if v[i] == *id {
            assert(texts(v@)[i as int] == id@);
            return true;
        }
        i = i + 1;
    }
    false
}

/// Adds `id` to the membership list `v` unless it is already there.
fn insert_member(v: &mut Vec<String>, id: String)
    requires
        texts(old(v)@).no_duplicates(),
    ensures
        texts(final(v)@).no_duplicates(),
        texts(final(v)@).to_set() == texts(old(v)@).to_set().insert(id@),
{
    if !list_contains(v, &id) {
        let ghost pre = texts(v@);
        v.push(id);
        assert(texts(v@) =~= pre.push(id@));
        proof { pre.lemma_push_to_set_commute(id@); }
    } else {
        assert(texts(v@).to_set() =~= texts(v@).to_set().insert(id@));
    }
}

/// Removes `id` from the membership list `v`, where it appears at most once.
fn remove_member(v: &mut Vec<String>, id: &String)
    requires
        texts(old(v)@).no_duplicates(),
    ensures
        texts(final(v)@).no_duplicates(),
        texts(final(v)@).to_set() == texts(old(v)@).to_set().remove(id@),
        !texts(old(v)@).contains(id@) ==> final(v)@ == old(v)@,
{
    let mut i: usize = 0;
    while i < v.len()
        invariant
            i <= v@.len(),
            v@ == old(v)@,
            texts(v@).no_duplicates(),
            forall|j: int| 0 <= j < i ==> v@[j]@ != id@,
        decreases v@.len() - i,
    {
        if v[i] == *id {
            let ghost pre = texts(v@);
            assert(pre[i as int] == id@);
            v.remove(i);
            let ghost post = texts(v@);
            assert(post =~= pre.remove(i as int));
            assert forall|y: Seq<char>| post.contains(y) <==> pre.contains(y) && y != id@ by {
                if post.contains(y) {
                    let k = choose|k: int| 0 <= k < post.len() && post[k] == y;
                    if k < i {
                        assert(pre[k] == y);
                        assert(y != id@);
                    } else {
                        assert(pre[k + 1] == y);
                        assert(k + 1 != i);
                        assert(y != id@);
                    }
                }
                if pre.contains(y) && y != id@ {
                    let k = choose|k: int| 0 <= k < pre.len() && pre[k] == y;
                    assert(k != i);
                    if k < i {
                        assert(post[k] == y);
                    } else {
                        assert(post[k - 1] == y);
                    }
                }
            }
            assert(post.to_set() =~= pre.to_set().remove(id@));
            assert(post.no_duplicates()) by {
                assert forall|a: int, b: int|
                    0 <= a < post.len() && 0 <= b < post.len() && a != b implies post[a]
                    != post[b] by {
                    let pa = if a < i { a } else { a + 1 };
                    let pb = if b < i { b } else { b + 1 };
                    assert(post[a] == pre[pa]);
                    assert(post[b] == pre[pb]);
                }
            }
            return;
        }
        i = i + 1;
    }
    assert(!texts(v@).contains(id@));
    assert(texts(v@).to_set() =~= texts(v@).to_set().remove(id@));
}

impl<H> Namespace<H> {
    /// Socket ids are unique in the registry, channel names are unique, and
    /// each membership list holds each socket id at most once.
    pub closed spec fn wf(&self) -> bool {
        &&& texts(self.sockets@.map_values(|e: SocketEntry<H>| e.socket_id)).no_duplicates()
        &&& texts(self.channels@.map_values(|c: ChannelEntry| c.name)).no_duplicates()
        &&& forall|c: int|
            0 <= c < self.channels@.len() ==> #[trigger] texts(
                self.channels@[c].members@,
            ).no_duplicates()
    }

    /// The application this namespace belongs to.
    pub closed spec fn app(&self) -> Seq<char> {
        self.app_id@
    }

    /// Whether `id` is registered.
    pub closed spec fn has_socket(&self, id: Seq<char>) -> bool {
        exists|i: int| 0 <= i < self.sockets@.len() && #[trigger] self.sockets@[i].socket_id@ == id
    }

    /// The registry: each registered socket id with its handle.
    pub closed spec fn registry(&self) -> Map<Seq<char>, H> {
        Map::new(
            |id: Seq<char>| self.has_socket(id),
            |id: Seq<char>|
                self.sockets@[choose|i: int|
                    0 <= i < self.sockets@.len() && #[trigger] self.sockets@[i].socket_id@ == id].handle,
        )
    }

    /// The names of the channels that have an entry.
    pub closed spec fn channel_names(&self) -> Set<Seq<char>> {
        Set::new(
            |ch: Seq<char>|
                exists|c: int| 0 <= c < self.channels@.len() && #[trigger] self.channels@[c].name@ == ch,
        )
    }

    /// The members of channel `ch`; empty for a channel without an entry.
    pub closed spec fn members(&self, ch: Seq<char>) -> Set<Seq<char>> {
        Set::new(
            |s: Seq<char>|
                exists|c: int|
                    0 <= c < self.channels@.len() && #[trigger] self.channels@[c].name@ == ch
                        && texts(self.channels@[c].members@).contains(s),
        )
    }

    /// The sum, over every channel with an entry, of its member count.
    pub closed spec fn total_members(&self) -> int {
        sum_members(self.channels@)
    }
    /// An empty namespace for application `app_id`.
    pub fn new(app_id: String) -> (r: Self)
        ensures
            r.wf(),
            r.app() == app_id@,
            r.registry() == Map::<Seq<char>, H>::empty(),
            r.channel_names() == Set::<Seq<char>>::empty(),
            forall|ch: Seq<char>| r.members(ch) == Set::<Seq<char>>::empty(),
            r.total_members() == 0,
    {
        let r = Namespace { app_id, sockets: Vec::new(), channels: Vec::new() };
        assert(r.registry() =~= Map::<Seq<char>, H>::empty());
        assert(r.channel_names() =~= Set::<Seq<char>>::empty());
        assert forall|ch: Seq<char>| r.members(ch) == Set::<Seq<char>>::empty() by {
            assert(r.members(ch) =~= Set::<Seq<char>>::empty());
        }
        r
    }

    /// The id of the application this namespace belongs to.
    pub fn app_id(&self) -> (r: &String)
        ensures
            r@ == self.app(),
    {
        &self.app_id
    }

    /// Position of `id` in the registry, if registered.
    fn find_socket(&self, id: &String) -> (r: Option<usize>)
        ensures
            match r {
                Some(i) => i < self.sockets@.len() && self.sockets@[i as int].socket_id@ == id@,
                None => !self.has_socket(id@),
            },
    {
        let mut i: usize = 0;
        while i < self.sockets.len()
            invariant
                i <= self.sockets@.len(),
                forall|j: int| 0 <= j < i ==> self.sockets@[j].socket_id@ != id@,
            decreases self.sockets@.len() - i,
        {
            if self.sockets[i].socket_id == *id {
                return Some(i);
            }
            i = i + 1;
        }
        None
    }

    /// Position of channel `name`, if it has an entry.
    fn find_channel(&self, name: &String) -> (r: Option<usize>)
        ensures
            match r {
                Some(c) => c < self.channels@.len() && self.channels@[c as int].name@ == name@,
                None => !self.channel_names().contains(name@),
            },
    {
        let mut c: usize = 0;
        while c < self.channels.len()
            invariant
                c <= self.channels@.len(),
                forall|j: int| 0 <= j < c ==> self.channels@[j].name@ != name@,
            decreases self.channels@.len() - c,
        {
            if self.channels[c].name == *name {
                return Some(c);
            }
            c = c + 1;
        }
        None
    }

    proof fn lemma_members_at(&self, c: int)
        requires
            self.wf(),
            0 <= c < self.channels@.len(),
        ensures
            self.members(self.channels@[c].name@) == texts(self.channels@[c].members@).to_set(),
            self.channel_names().contains(self.channels@[c].name@),
    {
        let names = texts(self.channels@.map_values(|e: ChannelEntry| e.name));
        assert(names[c] == self.channels@[c].name@);
        assert forall|s: Seq<char>|
            self.members(self.channels@[c].name@).contains(s) implies texts(
                self.channels@[c].members@,
            ).contains(s) by {
            let c2 = choose|c2: int|
                0 <= c2 < self.channels@.len() && #[trigger] self.channels@[c2].name@
                    == self.channels@[c].name@ && texts(self.channels@[c2].members@).contains(s);
            assert(names[c2] == self.channels@[c2].name@);
        }
        assert(self.members(self.channels@[c].name@) =~= texts(self.channels@[c].members@).to_set());
    }

    proof fn lemma_members_absent(&self, ch: Seq<char>)
        requires
            !self.channel_names().contains(ch),
        ensures
            self.members(ch) == Set::<Seq<char>>::empty(),
    {
        assert(self.members(ch) =~= Set::<Seq<char>>::empty());
    }

    /// Registers `msg.socket_id` with `msg.socket_addr`, replacing the handle
    /// of a socket already registered under that id.
    pub fn add_socket(&mut self, msg: AddSocket<H>)
        requires
            old(self).wf(),
        ensures
            registered(*old(self), *final(self), msg.socket_id@, msg.socket_addr),
    {
        let ghost pre = *self;
        let AddSocket { socket_id, socket_addr } = msg;
        let ghost id = socket_id@;
        match self.find_socket(&socket_id) {
            Some(i) => {
                self.sockets.set(i, SocketEntry { socket_id, handle: socket_addr });
                assert(texts(self.sockets@.map_values(|e: SocketEntry<H>| e.socket_id)) =~= texts(
                    pre.sockets@.map_values(|e: SocketEntry<H>| e.socket_id),
                ));
                assert forall|k: Seq<char>| #[trigger] self.has_socket(k) == pre.has_socket(k) by {
                    if pre.has_socket(k) {
                        let j = choose|j: int|
                            0 <= j < pre.sockets@.len() && #[trigger] pre.sockets@[j].socket_id@ == k;
                        assert(self.sockets@[j].socket_id@ == k);
                    }
                    if self.has_socket(k) {
                        let j = choose|j: int|
                            0 <= j < self.sockets@.len() && #[trigger] self.sockets@[j].socket_id@ == k;
                        assert(pre.sockets@[j].socket_id@ == k);
                    }
                }
                assert forall|k: Seq<char>| #[trigger] self.has_socket(k) implies self.registry()[k]
                    == pre.registry().insert(id, msg.socket_addr)[k] by {
                    let ids = texts(self.sockets@.map_values(|e: SocketEntry<H>| e.socket_id));
                    let j = choose|j: int|
                        0 <= j < self.sockets@.len() && #[trigger] self.sockets@[j].socket_id@ == k;
                    let j0 = choose|j: int|
                        0 <= j < pre.sockets@.len() && #[trigger] pre.sockets@[j].socket_id@ == k;
                    assert(ids[j] == k);
                    assert(ids[j0] == k);
                    assert(ids[i as int] == id);
                }
                assert(self.registry() =~= pre.registry().insert(id, msg.socket_addr));
            },
            None => {
                self.sockets.push(SocketEntry { socket_id, handle: socket_addr });
                let ghost n = pre.sockets@.len() as int;
                assert(texts(self.sockets@.map_values(|e: SocketEntry<H>| e.socket_id)) =~= texts(
                    pre.sockets@.map_values(|e: SocketEntry<H>| e.socket_id),
                ).push(id));
                assert(self.sockets@[n].socket_id@ == id);
                assert forall|k: Seq<char>| #[trigger] self.has_socket(k) == (pre.has_socket(k) || k == id) by {
                    if pre.has_socket(k) {
                        let j = choose|j: int|
                            0 <= j < pre.sockets@.len() && #[trigger] pre.sockets@[j].socket_id@ == k;
                        assert(self.sockets@[j].socket_id@ == k);
                    }
                    if self.has_socket(k) && k != id {
                        let j = choose|j: int|
                            0 <= j < self.sockets@.len() && #[trigger] self.sockets@[j].socket_id@ == k;
                        assert(pre.sockets@[j].socket_id@ == k);
                    }
                }
                assert forall|k: Seq<char>| #[trigger] self.has_socket(k) implies self.registry()[k]
                    == pre.registry().insert(id, msg.socket_addr)[k] by {
                    let ids = texts(self.sockets@.map_values(|e: SocketEntry<H>| e.socket_id));
                    let j = choose|j: int|
                        0 <= j < self.sockets@.len() && #[trigger] self.sockets@[j].socket_id@ == k;
                    assert(ids[j] == k);
                    assert(ids[n] == id);
                    if k != id {
                        let j0 = choose|j: int|
                            0 <= j < pre.sockets@.len() && #[trigger] pre.sockets@[j].socket_id@ == k;
                        assert(ids[j0] == k);
                    }
                }
                assert(self.registry() =~= pre.registry().insert(id, msg.socket_addr));
            },
        }
        assert forall|ch: Seq<char>| self.members(ch) == pre.members(ch) by {
            assert(self.members(ch) =~= pre.members(ch));
        }
        assert(self.channel_names() =~= pre.channel_names());
    }

    proof fn lemma_channel_replaced(pre: Self, post: Self, c: int)
        requires
            pre.wf(),
            0 <= c < pre.channels@.len(),
            post.sockets@ == pre.sockets@,
            post.channels@.len() == pre.channels@.len(),
            post.channels@[c].name@ == pre.channels@[c].name@,
            texts(post.channels@[c].members@).no_duplicates(),
            forall|j: int| 0 <= j < pre.channels@.len() && j != c ==> post.channels@[j] == pre.channels@[j],
        ensures
            post.wf(),
            post.registry() == pre.registry(),
            post.channel_names() == pre.channel_names(),
            post.members(pre.channels@[c].name@) == texts(post.channels@[c].members@).to_set(),
            forall|ch: Seq<char>| ch != pre.channels@[c].name@ ==> post.members(ch) == pre.members(ch),
    {
        let pn = texts(pre.channels@.map_values(|e: ChannelEntry| e.name));
        let qn = texts(post.channels@.map_values(|e: ChannelEntry| e.name));
        assert(qn =~= pn);
        assert forall|j: int| 0 <= j < post.channels@.len() implies #[trigger] texts(
            post.channels@[j].members@,
        ).no_duplicates() by {
            if j != c {
                assert(texts(pre.channels@[j].members@).no_duplicates());
            }
        }
        assert(post.registry() =~= pre.registry());
        assert forall|ch: Seq<char>| post.channel_names().contains(ch) == pre.channel_names().contains(ch) by {
            if post.channel_names().contains(ch) {
                let j = choose|j: int| 0 <= j < post.channels@.len() && #[trigger] post.channels@[j].name@ == ch;
                assert(pre.channels@[j].name@ == ch);
            }
            if pre.channel_names().contains(ch) {
                let j = choose|j: int| 0 <= j < pre.channels@.len() && #[trigger] pre.channels@[j].name@ == ch;
                assert(post.channels@[j].name@ == ch);
            }
        }
        assert(post.channel_names() =~= pre.channel_names());
        post.lemma_members_at(c);
        assert forall|ch: Seq<char>| ch != pre.channels@[c].name@ implies post.members(ch) == pre.members(ch) by {
            assert forall|s: Seq<char>| post.members(ch).contains(s) == pre.members(ch).contains(s) by {
                if post.members(ch).contains(s) {
                    let j = choose|j: int|
                        0 <= j < post.channels@.len() && #[trigger] post.channels@[j].name@ == ch
                            && texts(post.channels@[j].members@).contains(s);
                    assert(pre.channels@[j] == post.channels@[j]);
                }
                if pre.members(ch).contains(s) {
                    let j = choose|j: int|
                        0 <= j < pre.channels@.len() && #[trigger] pre.channels@[j].name@ == ch
                            && texts(pre.channels@[j].members@).contains(s);
                    assert(pre.channels@[j] == post.channels@[j]);
                }
            }
            assert(post.members(ch) =~= pre.members(ch));
        }
    }

    /// Joins `msg.socket_id` to `msg.channel`, creating the channel's entry if
    /// it has none, and returns the channel's member count. The socket need
    /// not be registered.
    pub fn add_to_channel(&mut self, msg: AddToChannel) -> (r: usize)
        requires
            old(self).wf(),
        ensures
            joined(*old(self), *final(self), msg.channel@, msg.socket_id@),
            r == final(self).members(msg.channel@).len(),
    {
        let ghost pre = *self;
        let AddToChannel { socket_id, channel } = msg;
        let ghost id = socket_id@;
        let ghost ch = channel@;
        match self.find_channel(&channel) {
            Some(c) => {
                proof {
                    pre.lemma_members_at(c as int);
                }
                let count;
                let mut e = self.channels.remove(c);
                assert(texts(e.members@).no_duplicates());
                insert_member(&mut e.members, socket_id);
                count = e.members.len();
                proof {
                    texts(e.members@).unique_seq_to_set();
                }
                self.channels.insert(c, e);
                proof {
                    Self::lemma_channel_replaced(pre, *self, c as int);
                    assert(self.channel_names() =~= pre.channel_names().insert(ch));
                }
                count
            },
            None => {
                let mut members: Vec<String> = Vec::new();
                assert(texts(members@) =~= Seq::<Seq<char>>::empty());
                insert_member(&mut members, socket_id);
                let count = members.len();
                proof {
                    texts(members@).unique_seq_to_set();
                }
                self.channels.push(ChannelEntry { name: channel, members });
                proof {
                    let n = pre.channels@.len() as int;
                    pre.lemma_members_absent(ch);
                    let pn = texts(pre.channels@.map_values(|e: ChannelEntry| e.name));
                    let qn = texts(self.channels@.map_values(|e: ChannelEntry| e.name));
                    assert(qn =~= pn.push(ch));
                    assert(!pn.contains(ch)) by {
                        if pn.contains(ch) {
                            let j = choose|j: int| 0 <= j < pn.len() && pn[j] == ch;
                            assert(pre.channels@[j].name@ == ch);
                        }
                    }
                    assert(qn.no_duplicates()) by {
                        assert forall|a: int, b: int|
                            0 <= a < qn.len() && 0 <= b < qn.len() && a != b implies qn[a] != qn[b] by {
                            if a == n {
                                assert(pn[b] == qn[b]);
                            } else if b == n {
                                assert(pn[a] == qn[a]);
                            }
                        }
                    }
                    assert forall|j: int| 0 <= j < self.channels@.len() implies #[trigger] texts(
                        self.channels@[j].members@,
                    ).no_duplicates() by {
                        if j < n {
                            assert(self.channels@[j] == pre.channels@[j]);
                        }
                    }
                    assert(self.registry() =~= pre.registry());
                    self.lemma_members_at(n);
                    assert(self.channel_names() =~= pre.channel_names().insert(ch)) by {
                        assert forall|x: Seq<char>| #[trigger] self.channel_names().contains(x)
                            == pre.channel_names().insert(ch).contains(x) by {
                            if self.channel_names().contains(x) && x != ch {
                                let j = choose|j: int| 0 <= j < self.channels@.len() && #[trigger] self.channels@[j].name@ == x;
                                assert(pre.channels@[j].name@ == x);
                            }
                            if pre.channel_names().contains(x) {
                                let j = choose|j: int| 0 <= j < pre.channels@.len() && #[trigger] pre.channels@[j].name@ == x;
                                assert(self.channels@[j].name@ == x);
                            }
                        }
                    }
                    assert(self.members(ch) =~= pre.members(ch).insert(id));
                    assert forall|x: Seq<char>| x != ch implies self.members(x) == pre.members(x) by {
                        assert forall|s: Seq<char>| self.members(x).contains(s) == pre.members(x).contains(s) by {
                            if self.members(x).contains(s) {
                                let j = choose|j: int|
                                    0 <= j < self.channels@.len() && #[trigger] self.channels@[j].name@ == x
                                        && texts(self.channels@[j].members@).contains(s);
                                assert(self.channels@[j] == pre.channels@[j]);
                            }
                            if pre.members(x).contains(s) {
                                let j = choose|j: int|
                                    0 <= j < pre.channels@.len() && #[trigger] pre.channels@[j].name@ == x
                                        && texts(pre.channels@[j].members@).contains(s);
                                assert(self.channels@[j] == pre.channels@[j]);
                            }
                        }
                        assert(self.members(x) =~= pre.members(x));
                    }
                }
                count
            },
        }
    }

    /// Takes `socket_id` out of `channel`, if the channel has an entry, and
    /// returns the channel's remaining member count (zero for a channel
    /// without an entry).
    fn leave_one(&mut self, socket_id: &String, channel: &String) -> (r: usize)
        requires
            old(self).wf(),
        ensures
            left(*old(self), *final(self), channel@, socket_id@),
            r == final(self).members(channel@).len(),
            !old(self).members(channel@).contains(socket_id@) ==> final(self).total_members()
                == old(self).total_members(),
            !old(self).channel_names().contains(channel@) ==> r == 0,
    {
        let ghost pre = *self;
        match self.find_channel(channel) {
            Some(c) => {
                proof {
                    pre.lemma_members_at(c as int);
                }
                let mut e = self.channels.remove(c);
                assert(texts(e.members@).no_duplicates());
                remove_member(&mut e.members, socket_id);
                let count = e.members.len();
                proof {
                    texts(e.members@).unique_seq_to_set();
                }
                self.channels.insert(c, e);
                proof {
                    Self::lemma_channel_replaced(pre, *self, c as int);
                    if !pre.members(channel@).contains(socket_id@) {
                        lemma_sum_same_lengths(self.channels@, pre.channels@);
                    }
                }
                count
            },
            None => {
                proof {
                    pre.lemma_members_absent(channel@);
                    assert(pre.members(channel@).remove(socket_id@) =~= pre.members(channel@));
                }
                0
            },
        }
    }

    /// The sum of the member counts of all channels, or `usize::MAX` where
    /// that sum does not fit in a `usize`.
    pub fn total_count(&self) -> (r: usize)
        ensures
            r == clamp_usize(self.total_members()),
    {
        let mut total: usize = 0;
        let mut c: usize = 0;
        while c < self.channels.len()
            invariant
                c <= self.channels@.len(),
                total == if sum_members(self.channels@.subrange(0, c as int)) <= usize::MAX {
                    sum_members(self.channels@.subrange(0, c as int))
                } else {
                    usize::MAX as int
                },
            decreases self.channels@.len() - c,
        {
            assert(self.channels@.subrange(0, c + 1).drop_last() =~= self.channels@.subrange(0, c as int));
            total = total.saturating_add(self.channels[c].members.len());
            c = c + 1;
        }
        assert(self.channels@.subrange(0, c as int) =~= self.channels@);
        total
    }

    /// Takes `msg.socket_id` out of the named channel or channels. For one
    /// channel, returns that channel's remaining member count; for a list,
    /// returns the sum of the member counts of all of the namespace's
    /// channels afterwards. A channel without an entry counts as empty.
    pub fn remove_from_channel(&mut self, msg: RemoveFromChannel) -> (r: usize)
        requires
            old(self).wf(),
        ensures
            removed_from(*old(self), *final(self), msg.channel, msg.socket_id@),
            (forall|ch: Seq<char>| !(#[trigger] old(self).members(ch)).contains(msg.socket_id@))
                ==> final(self).total_members() == old(self).total_members(),
            match msg.channel {
                Channel::Ch(name) => r == final(self).members(name@).len() && (!old(
                    self,
                ).channel_names().contains(name@) ==> r == 0),
                Channel::Vec(_) => r == clamp_usize(final(self).total_members()),
            },
    {
        let ghost pre = *self;
        let RemoveFromChannel { socket_id, channel } = msg;
        match channel {
            Channel::Ch(name) => {
                self.leave_one(&socket_id, &name)
            },
            Channel::Vec(names) => {
                let mut k: usize = 0;
                while k < names.len()
                    invariant
                        k <= names@.len(),
                        self.wf(),
                        self.app() == pre.app(),
                        self.registry() == pre.registry(),
                        self.channel_names() == pre.channel_names(),
                        forall|ch: Seq<char>|
                            #[trigger] self.members(ch) == if texts(names@.subrange(0, k as int)).contains(ch) {
                                pre.members(ch).remove(socket_id@)
                            } else {
                                pre.members(ch)
                            },
                        (forall|ch: Seq<char>| !(#[trigger] pre.members(ch)).contains(socket_id@))
                            ==> self.total_members() == pre.total_members(),
                    decreases names@.len() - k,
                {
                    assert((forall|ch: Seq<char>| !(#[trigger] pre.members(ch)).contains(socket_id@))
                        ==> !self.members(names@[k as int]@).contains(socket_id@));
                    self.leave_one(&socket_id, &names[k]);
                    proof {
                        let before = texts(names@.subrange(0, k as int));
                        let after = texts(names@.subrange(0, k + 1));
                        assert(after =~= before.push(names@[k as int]@));
                        assert forall|ch: Seq<char>|
                            #[trigger] self.members(ch) == if after.contains(ch) {
                                pre.members(ch).remove(socket_id@)
                            } else {
                                pre.members(ch)
                            } by {
                            if ch == names@[k as int]@ {
                                assert(after[k as int] == ch);
                                assert(pre.members(ch).remove(socket_id@).remove(socket_id@)
                                    =~= pre.members(ch).remove(socket_id@));
                            } else {
                                if before.contains(ch) {
                                    let i = choose|i: int| 0 <= i < before.len() && before[i] == ch;
                                    assert(after[i] == ch);
                                }
                                if after.contains(ch) {
                                    let i = choose|i: int| 0 <= i < after.len() && after[i] == ch;
                                    assert(before[i] == ch);
                                }
                            }
                        }
                    }
                    k = k + 1;
                }
                assert(names@.subrange(0, k as int) =~= names@);
                self.total_count()
            },
        }
    }

    /// Removes `msg.socket_id` from the registry and from every channel's
    /// membership, in one step, and returns the number of sockets left
    /// registered. An unknown id changes nothing.
    pub fn remove_socket(&mut self, msg: RemoveSocket<H>) -> (r: usize)
        requires
            old(self).wf(),
        ensures
            purged(*old(self), *final(self), msg.socket_id@),
            r == final(self).registry().len(),
    {
        let ghost pre = *self;
        let socket_id = msg.socket_id;
        let ghost id = socket_id@;
        match self.find_socket(&socket_id) {
            Some(i) => {
                self.sockets.remove(i);
                proof {
                    let pids = texts(pre.sockets@.map_values(|e: SocketEntry<H>| e.socket_id));
                    let qids = texts(self.sockets@.map_values(|e: SocketEntry<H>| e.socket_id));
                    assert(qids =~= pids.remove(i as int));
                    assert(pids[i as int] == id);
                    assert(qids.no_duplicates()) by {
                        assert forall|a: int, b: int|
                            0 <= a < qids.len() && 0 <= b < qids.len() && a != b implies qids[a]
                            != qids[b] by {
                            let pa = if a < i { a } else { a + 1 };
                            let pb = if b < i { b } else { b + 1 };
                            assert(qids[a] == pids[pa]);
                            assert(qids[b] == pids[pb]);
                        }
                    }
                    assert forall|k: Seq<char>| #[trigger] self.has_socket(k) == (pre.has_socket(k) && k != id) by {
                        if self.has_socket(k) {
                            let j = choose|j: int|
                                0 <= j < self.sockets@.len() && #[trigger] self.sockets@[j].socket_id@ == k;
                            let pj = if j < i { j } else { j + 1 };
                            assert(qids[j] == pids[pj]);
                            assert(pre.sockets@[pj].socket_id@ == k);
                        }
                        if pre.has_socket(k) && k != id {
                            let j = choose|j: int|
                                0 <= j < pre.sockets@.len() && #[trigger] pre.sockets@[j].socket_id@ == k;
                            assert(pids[j] == k);
                            assert(j != i);
                            let qj = if j < i { j } else { j - 1 };
                            assert(self.sockets@[qj].socket_id@ == k);
                        }
                    }
                    assert forall|k: Seq<char>| #[trigger] self.has_socket(k) implies self.registry()[k]
                        == pre.registry()[k] by {
                        let j = choose|j: int|
                            0 <= j < self.sockets@.len() && #[trigger] self.sockets@[j].socket_id@ == k;
                        let j0 = choose|j: int|
                            0 <= j < pre.sockets@.len() && #[trigger] pre.sockets@[j].socket_id@ == k;
                        let pj = if j < i { j } else { j + 1 };
                        assert(qids[j] == pids[pj]);
                        assert(pids[j0] == k);
                        assert(pids[pj] == k);
                    }
                    assert(self.registry() =~= pre.registry().remove(id));
                }
            },
            None => {
                assert(pre.registry() =~= pre.registry().remove(id));
            },
        }
        let ghost mid = *self;
        let mut c: usize = 0;
        while c < self.channels.len()
            invariant
                c <= self.channels@.len(),
                self.channels@.len() == mid.channels@.len(),
                self.sockets@ == mid.sockets@,
                self.app_id == mid.app_id,
                socket_id@ == id,
                mid.wf(),
                texts(self.sockets@.map_values(|e: SocketEntry<H>| e.socket_id)).no_duplicates(),
                forall|j: int| 0 <= j < self.channels@.len() ==> #[trigger] self.channels@[j].name@ == mid.channels@[j].name@,
                forall|j: int| 0 <= j < self.channels@.len() ==> texts(#[trigger] self.channels@[j].members@).no_duplicates(),
                forall|j: int| 0 <= j < c ==> texts(#[trigger] self.channels@[j].members@).to_set() == texts(mid.channels@[j].members@).to_set().remove(id),
                forall|j: int| c <= j < self.channels@.len() ==> #[trigger] self.channels@[j] == mid.channels@[j],
            decreases self.channels@.len() - c,
        {
            let ghost before = self.channels@;
            let mut e = self.channels.remove(c);
            assert(e == mid.channels@[c as int]);
            remove_member(&mut e.members, &socket_id);
            let ghost done = e;
            self.channels.insert(c, e);
            assert(self.channels@ == before.update(c as int, done));
            assert forall|j: int| 0 <= j < c + 1 implies texts(#[trigger] self.channels@[j].members@).to_set()
                == texts(mid.channels@[j].members@).to_set().remove(id) by {
                if j < c {
                    assert(self.channels@[j] == before[j]);
                }
            }
            c = c + 1;
        }
        proof {
            let pn = texts(mid.channels@.map_values(|e: ChannelEntry| e.name));
            let qn = texts(self.channels@.map_values(|e: ChannelEntry| e.name));
            assert(qn =~= pn);
            assert(self.registry() =~= mid.registry());
            assert forall|ch: Seq<char>| self.channel_names().contains(ch) == mid.channel_names().contains(ch) by {
                if self.channel_names().contains(ch) {
                    let j = choose|j: int| 0 <= j < self.channels@.len() && #[trigger] self.channels@[j].name@ == ch;
                    assert(mid.channels@[j].name@ == ch);
                }
                if mid.channel_names().contains(ch) {
                    let j = choose|j: int| 0 <= j < mid.channels@.len() && #[trigger] mid.channels@[j].name@ == ch;
                    assert(self.channels@[j].name@ == ch);
                }
            }
            assert(self.channel_names() =~= mid.channel_names());
            assert(mid.channel_names() =~= pre.channel_names());
            assert forall|ch: Seq<char>| #[trigger] self.members(ch) == pre.members(ch).remove(id) by {
                assert(mid.members(ch) =~= pre.members(ch));
                if mid.channel_names().contains(ch) {
                    let j = choose|j: int| 0 <= j < mid.channels@.len() && #[trigger] mid.channels@[j].name@ == ch;
                    mid.lemma_members_at(j);
                    self.lemma_members_at(j);
                } else {
                    mid.lemma_members_absent(ch);
                    self.lemma_members_absent(ch);
                    assert(mid.members(ch).remove(id) =~= mid.members(ch));
                }
            }
        }
        proof {
            self.lemma_registry_len();
        }
        self.sockets.len()
    }

    /// The ids of the registered sockets, each once.
    pub fn get_sockets(&self, _msg: GetSockets) -> (r: Vec<String>)
        requires
            self.wf(),
        ensures
            texts(r@).no_duplicates(),
            texts(r@).to_set() == self.registry().dom(),
            r@.len() == self.registry().len(),
    {
        let ghost ids = texts(self.sockets@.map_values(|e: SocketEntry<H>| e.socket_id));
        let mut out: Vec<String> = Vec::new();
        let mut i: usize = 0;
        while i < self.sockets.len()
            invariant
                i <= self.sockets@.len(),
                ids == texts(self.sockets@.map_values(|e: SocketEntry<H>| e.socket_id)),
                texts(out@) == ids.subrange(0, i as int),
            decreases self.sockets@.len() - i,
        {
            let ghost prev = out@;
            let id = self.sockets[i].socket_id.clone();
            out.push(id);
            assert(ids[i as int] == self.sockets@[i as int].socket_id@);
            assert(out@ == prev.push(id));
            assert(texts(out@) =~= texts(prev).push(id@));
            assert(texts(out@) =~= ids.subrange(0, i + 1));
            i = i + 1;
        }
        proof {
            assert(ids.subrange(0, i as int) =~= ids);
            self.lemma_registry_len();
        }
        out
    }

    /// The handle registered under `id`, if any.
    pub fn handle_of(&self, id: &String) -> (r: Option<&H>)
        requires
            self.wf(),
        ensures
            match r {
                Some(h) => self.registry().dom().contains(id@) && *h == self.registry()[id@],
                None => !self.registry().dom().contains(id@),
            },
    {
        match self.find_socket(id) {
            Some(i) => {
                proof {
                    let ids = texts(self.sockets@.map_values(|e: SocketEntry<H>| e.socket_id));
                    let j = choose|j: int|
                        0 <= j < self.sockets@.len() && #[trigger] self.sockets@[j].socket_id@ == id@;
                    assert(ids[j] == id@);
                    assert(ids[i as int] == id@);
                }
                Some(&self.sockets[i].handle)
            },
            None => None,
        }
    }

    /// Builds the frame for the message and addresses it to every registered
    /// socket, whatever channel the message names, except the socket that the
    /// message's `socket_id` excludes. Each socket is listed once.
    pub fn broadcast(&self, msg: BroadcastMessage) -> (r: Broadcast)
        requires
            self.wf(),
        ensures
            frame_of(r.frame, msg.0),
            texts(r.recipients@).no_duplicates(),
            texts(r.recipients@).to_set() == match msg.0.socket_id {
                Some(x) => self.registry().dom().remove(x@),
                None => self.registry().dom(),
            },
    {
        let frame = broadcast_frame(&msg.0);
        let mut recipients = self.get_sockets(GetSockets);
        match &msg.0.socket_id {
            Some(x) => remove_member(&mut recipients, x),
            None => {},
        }
        Broadcast { frame, recipients }
    }

    proof fn lemma_registry_len(&self)
        requires
            self.wf(),
        ensures
            self.registry().dom() == texts(self.sockets@.map_values(|e: SocketEntry<H>| e.socket_id)).to_set(),
            self.registry().len() == self.sockets@.len(),
    {
        let ids = texts(self.sockets@.map_values(|e: SocketEntry<H>| e.socket_id));
        assert forall|k: Seq<char>| self.registry().dom().contains(k) == ids.contains(k) by {
            if self.has_socket(k) {
                let j = choose|j: int| 0 <= j < self.sockets@.len() && #[trigger] self.sockets@[j].socket_id@ == k;
                assert(ids[j] == k);
            }
            if ids.contains(k) {
                let j = choose|j: int| 0 <= j < ids.len() && ids[j] == k;
                assert(self.sockets@[j].socket_id@ == k);
            }
        }
        assert(self.registry().dom() =~= ids.to_set());
        ids.unique_seq_to_set();
    }
}

/// `n` is a namespace of application `app` with no socket and no channel.
pub open spec fn fresh<H>(n: Namespace<H>, app: Seq<char>) -> bool {
    &&& n.app() == app
    &&& n.registry() == Map::<Seq<char>, H>::empty()
    &&& n.channel_names() == Set::<Seq<char>>::empty()
    &&& forall|ch: Seq<char>| #[trigger] n.members(ch) == Set::<Seq<char>>::empty()
}

/// `post` is `pre` with socket `id` registered under handle `h`.
pub open spec fn registered<H>(pre: Namespace<H>, post: Namespace<H>, id: Seq<char>, h: H) -> bool {
    &&& post.wf()
    &&& post.app() == pre.app()
    &&& post.registry() == pre.registry().insert(id, h)
    &&& post.channel_names() == pre.channel_names()
    &&& forall|ch: Seq<char>| #[trigger] post.members(ch) == pre.members(ch)
    &&& post.total_members() == pre.total_members()
}

/// `post` is `pre` with socket `id` joined to channel `ch`.
pub open spec fn joined<H>(pre: Namespace<H>, post: Namespace<H>, ch: Seq<char>, id: Seq<char>) -> bool {
    &&& post.wf()
    &&& post.app() == pre.app()
    &&& post.registry() == pre.registry()
    &&& post.channel_names() == pre.channel_names().insert(ch)
    &&& post.members(ch) == pre.members(ch).insert(id)
    &&& forall|c: Seq<char>| c != ch ==> #[trigger] post.members(c) == pre.members(c)
}

/// `post` is `pre` with socket `id` taken out of channel `ch`.
pub open spec fn left<H>(pre: Namespace<H>, post: Namespace<H>, ch: Seq<char>, id: Seq<char>) -> bool {
    &&& post.wf()
    &&& post.app() == pre.app()
    &&& post.registry() == pre.registry()
    &&& post.channel_names() == pre.channel_names()
    &&& post.members(ch) == pre.members(ch).remove(id)
    &&& forall|c: Seq<char>| c != ch ==> #[trigger] post.members(c) == pre.members(c)
}

/// `post` is `pre` with socket `id` gone from the registry and from every
/// channel.
pub open spec fn purged<H>(pre: Namespace<H>, post: Namespace<H>, id: Seq<char>) -> bool {
    &&& post.wf()
    &&& post.app() == pre.app()
    &&& post.registry() == pre.registry().remove(id)
    &&& post.channel_names() == pre.channel_names()
    &&& forall|ch: Seq<char>| #[trigger] post.members(ch) == pre.members(ch).remove(id)
}

/// `post` is `pre` with socket `id` taken out of each channel that `channel`
/// names.
pub open spec fn removed_from<H>(pre: Namespace<H>, post: Namespace<H>, channel: Channel, id: Seq<char>) -> bool {
    &&& post.wf()
    &&& post.app() == pre.app()
    &&& post.registry() == pre.registry()
    &&& post.channel_names() == pre.channel_names()
    &&& forall|ch: Seq<char>|
        #[trigger] post.members(ch) == if named_in(channel, ch) {
            pre.members(ch).remove(id)
        } else {
            pre.members(ch)
        }
}

/// `n` clamped to `usize::MAX`.
pub open spec fn clamp_usize(n: int) -> int {
    if n <= usize::MAX { n } else { usize::MAX as int }
}

/// One membership change on one channel: a join (`true`) or a leave
/// (`false`) of a socket.
pub open spec fn apply_change(m: Set<Seq<char>>, op: (bool, Seq<char>)) -> Set<Seq<char>> {
    if op.0 { m.insert(op.1) } else { m.remove(op.1) }
}

/// The membership of a channel after the changes `ops`, in order.
pub open spec fn apply_changes(m: Set<Seq<char>>, ops: Seq<(bool, Seq<char>)>) -> Set<Seq<char>>
    decreases ops.len(),
{
    if ops.len() == 0 {
        m
    } else {
        apply_change(apply_changes(m, ops.drop_last()), ops.last())
    }
}

/// Joins minus leaves in `ops`.
pub open spec fn net_joins(ops: Seq<(bool, Seq<char>)>) -> int
    decreases ops.len(),
{
    if ops.len() == 0 {
        0
    } else {
        net_joins(ops.drop_last()) + if ops.last().0 { 1int } else { -1int }
    }
}

/// Each change in `ops` has an effect on `m`: a join is by a socket not yet a
/// member, a leave by a socket that is one.
pub open spec fn all_effective(m: Set<Seq<char>>, ops: Seq<(bool, Seq<char>)>) -> bool {
    forall|k: int|
        0 <= k < ops.len() ==> (#[trigger] ops[k]).0 != apply_changes(m, ops.subrange(0, k)).contains(ops[k].1)
}

/// After a socket is removed from a namespace, it is neither registered nor a
/// member of any channel, whatever came before.
pub proof fn removed_socket_is_gone<H>(pre: Namespace<H>, post: Namespace<H>, id: Seq<char>)
    requires
        purged(pre, post, id),
    ensures
        !post.registry().dom().contains(id),
        forall|ch: Seq<char>| !(#[trigger] post.members(ch)).contains(id),
{
}

/// Joining a socket to a channel and then taking it out again leaves the
/// channel with the members it had, less that socket; a channel that had no
/// other member is left with none.
pub proof fn join_then_leave<H>(a: Namespace<H>, b: Namespace<H>, c: Namespace<H>, ch: Seq<char>, id: Seq<char>)
    requires
        joined(a, b, ch, id),
        left(b, c, ch, id),
    ensures
        c.members(ch) == a.members(ch).remove(id),
        a.members(ch).subset_of(set![id]) ==> c.members(ch).len() == 0,
{
    assert(c.members(ch) =~= a.members(ch).remove(id));
    if a.members(ch).subset_of(set![id]) {
        assert(c.members(ch) =~= Set::<Seq<char>>::empty());
    }
}

/// Removing a socket purges it from every channel it had joined; a list-form
/// removal of that socket afterwards changes no membership, and returns the
/// sum of the member counts of the namespace's channels as the purge left
/// them.
pub proof fn purge_then_list_removal<H>(
    pre: Namespace<H>,
    mid: Namespace<H>,
    post: Namespace<H>,
    id: Seq<char>,
    names: Vec<String>,
    r: usize,
)
    requires
        purged(pre, mid, id),
        removed_from(mid, post, Channel::Vec(names), id),
        (forall|ch: Seq<char>| !(#[trigger] mid.members(ch)).contains(id)) ==> post.total_members()
            == mid.total_members(),
        r == clamp_usize(post.total_members()),
    ensures
        forall|ch: Seq<char>| !(#[trigger] mid.members(ch)).contains(id),
        forall|ch: Seq<char>| #[trigger] post.members(ch) == pre.members(ch).remove(id),
        r == clamp_usize(mid.total_members()),
{
    assert forall|ch: Seq<char>| #[trigger] post.members(ch) == pre.members(ch).remove(id) by {
        assert(mid.members(ch).remove(id) =~= mid.members(ch));
    }
}

/// On one channel, a run of joins and leaves, each of which changes the
/// membership, leaves the member count at its first value plus the joins
/// minus the leaves.
pub proof fn net_membership_count(m: Set<Seq<char>>, ops: Seq<(bool, Seq<char>)>)
    requires
        m.finite(),
        all_effective(m, ops),
    ensures
        apply_changes(m, ops).finite(),
        apply_changes(m, ops).len() == m.len() + net_joins(ops),
    decreases ops.len(),
{
    if ops.len() > 0 {
        let init = ops.drop_last();
        assert forall|k: int| 0 <= k < init.len() implies (#[trigger] init[k]).0 != apply_changes(m, init.subrange(0, k)).contains(init[k].1) by {
            assert(init.subrange(0, k) =~= ops.subrange(0, k));
            assert(ops[k] == init[k]);
        }
        net_membership_count(m, init);
        let k = ops.len() - 1;
        assert(ops.subrange(0, k) =~= init);
        assert(ops[k] == ops.last());
    }
}

/// The membership of a channel follows `apply_changes` along a run of
/// namespace states where each step joins or leaves one socket on it.
pub proof fn membership_follows_changes<H>(states: Seq<Namespace<H>>, ch: Seq<char>, ops: Seq<(bool, Seq<char>)>)
    requires
        states.len() == ops.len() + 1,
        forall|k: int|
            0 <= k < ops.len() ==> if (#[trigger] ops[k]).0 {
                joined(states[k], states[k + 1], ch, ops[k].1)
            } else {
                left(states[k], states[k + 1], ch, ops[k].1)
            },
    ensures
        states.last().members(ch) == apply_changes(states[0].members(ch), ops),
    decreases ops.len(),
{
    if ops.len() > 0 {
        let k = ops.len() - 1;
        let init = ops.drop_last();
        let st = states.drop_last();
        assert forall|j: int| 0 <= j < init.len() implies if (#[trigger] init[j]).0 {
            joined(st[j], st[j + 1], ch, init[j].1)
        } else {
            left(st[j], st[j + 1], ch, init[j].1)
        } by {
            assert(init[j] == ops[j]);
            assert(st[j] == states[j] && st[j + 1] == states[j + 1]);
        }
        membership_follows_changes(st, ch, init);
        assert(ops[k] == ops.last());
        assert(st.last() == states[k]);
        assert(states.last() == states[k + 1]);
    }
}

/// Whether `ch` is one of the channels that `channel` names.
pub open spec fn named_in(channel: Channel, ch: Seq<char>) -> bool {
    match channel {
        Channel::Ch(name) => name@ == ch,
        Channel::Vec(names) => texts(names@).contains(ch),
    }
}

} // verus!
