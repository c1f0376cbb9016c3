//! Message passing between processes.
//!
//! A server registers an endpoint under a name; clients find it by the name and
//! send messages to it, which wait in the order of arrival until the server
//! receives them.

use vstd::prelude::*;
use vstd::string::*;
use crate::search;
use crate::task::Pid;

verus! {

/// The most bytes of data that a message carries.
pub const MAX_PAYLOAD: usize = 256;

/// How many endpoints there can be.
pub const MAX_ENDPOINTS: usize = 64;

/// The longest name of an endpoint, in bytes.
pub const MAX_NAME_LEN: usize = 32;

/// How many messages can wait at an endpoint.
pub const QUEUE_SIZE: usize = 16;

/// The kind of a message.
#[derive(Debug, Clone, Copy, PartialEq, Eq, Structural)]
pub enum MessageType {
    /// From a client to a server.
    Request,
    /// From a server to a client.
    Response,
    /// Without an answer.
    Notification,
    Error,
}

impl MessageType {
    /// The number of the kind.
    pub fn number(self) -> (r: u32)
        ensures
            r == match self {
                MessageType::Request => 1u32,
                MessageType::Response => 2,
                MessageType::Notification => 3,
                MessageType::Error => 4,
            },
    {
        match self {
            MessageType::Request => 1,
            MessageType::Response => 2,
            MessageType::Notification => 3,
            MessageType::Error => 4,
        }
    }
}

/// A message.
#[derive(Clone, Copy)]
pub struct Message {
    /// The process that sent it.
    pub sender: Pid,
    pub msg_type: MessageType,
    /// What is asked for; the endpoint defines the codes.
    pub opcode: u32,
    /// The outcome: 0 is success.
    pub status: i32,
    /// How many bytes of the payload count.
    pub payload_len: usize,
    pub payload: [u8; MAX_PAYLOAD],
}

/// Data cut to the size of a payload.
pub open spec fn cut(data: Seq<u8>) -> Seq<u8> {
    if data.len() <= MAX_PAYLOAD {
        data
    } else {
        data.subrange(0, MAX_PAYLOAD as int)
    }
}

impl Message {
    /// The data that the message carries.
    pub open spec fn data(self) -> Seq<u8> {
        self.payload@.subrange(0, self.payload_len as int)
    }

    /// The message holds `data`, with zeros behind it.
    pub open spec fn holds(self, data: Seq<u8>) -> bool {
        &&& self.payload_len == cut(data).len()
        &&& self.data() == cut(data)
        &&& forall|i: int| self.payload_len <= i < MAX_PAYLOAD ==> self.payload@[i] == 0
    }

    /// A request without data.
    pub fn empty() -> (r: Message)
        ensures
            r == (Message {
                sender: 0,
                msg_type: MessageType::Request,
                opcode: 0,
                status: 0,
                payload_len: 0,
                payload: [0u8; MAX_PAYLOAD],
            }),
    {
        Message {
            sender: 0,
            msg_type: MessageType::Request,
            opcode: 0,
            status: 0,
            payload_len: 0,
            payload: [0u8; MAX_PAYLOAD],
        }
    }

    /// Puts data into an empty payload.
    fn set_data(&mut self, data: &[u8])
        requires
            old(self).payload == [0u8; MAX_PAYLOAD],
        ensures
            final(self).holds(data@),
            *final(self) == (Message {
                payload: final(self).payload,
                payload_len: final(self).payload_len,
                ..*old(self)
            }),
    {
        let len: usize = if data.len() < MAX_PAYLOAD {
            data.len()
        } else {
            MAX_PAYLOAD
        };
        let mut i: usize = 0;
        while i < len
            invariant
                i <= len,
                len <= data.len(),
                len <= MAX_PAYLOAD,
                *self == (Message { payload: self.payload, ..*old(self) }),
                forall|j: int| 0 <= j < i ==> self.payload@[j] == data@[j],
                forall|j: int| i <= j < MAX_PAYLOAD ==> self.payload@[j] == 0,
            decreases len - i,
        {
            self.payload[i] = data[i];
            i = i + 1;
        }
        self.payload_len = len;
        assert(self.data() =~= cut(data@));
    }

    /// It is a request of the kernel with data, cut to `MAX_PAYLOAD` bytes.
    pub open spec fn is_request(self, opcode: u32, data: Seq<u8>) -> bool {
        self.is_request_of(0, opcode, data)
    }

    /// It is a request of a process with data, cut to `MAX_PAYLOAD` bytes.
    pub open spec fn is_request_of(self, sender: Pid, opcode: u32, data: Seq<u8>) -> bool {
        &&& self.holds(data)
        &&& self == (Message {
            sender,
            msg_type: MessageType::Request,
            opcode,
            status: 0,
            payload_len: self.payload_len,
            payload: self.payload,
        })
    }

    /// A request of the kernel with data, cut to `MAX_PAYLOAD` bytes.
    pub fn request(opcode: u32, data: &[u8]) -> (r: Message)
        ensures
            r.is_request(opcode, data@),
    {
        let mut msg = Message::empty();
        msg.opcode = opcode;
        msg.set_data(data);
        msg
    }

    /// A response with data, cut to `MAX_PAYLOAD` bytes.
    pub fn response(opcode: u32, status: i32, data: &[u8]) -> (r: Message)
        ensures
            r.holds(data@),
            r == (Message {
                sender: 0,
                msg_type: MessageType::Response,
                opcode,
                status,
                payload_len: r.payload_len,
                payload: r.payload,
            }),
    {
        let mut msg = Message::empty();
        msg.msg_type = MessageType::Response;
        msg.opcode = opcode;
        msg.status = status;
        msg.set_data(data);
        msg
    }
}

/// An endpoint: its name, its owner and a ring of waiting messages.
#[derive(Clone, Copy)]
pub struct Endpoint {
    pub name: [u8; MAX_NAME_LEN],
    pub name_len: usize,
    /// The process that serves it.
    pub owner: Pid,
    /// Set while it is registered.
    pub active: bool,
    pub queue: [Message; QUEUE_SIZE],
    /// Where the next message is taken from.
    pub queue_read: usize,
    /// Where the next message goes.
    pub queue_write: usize,
    pub queue_count: usize,
}

/// What an endpoint means.
#[verifier::ext_equal]
pub struct Channel {
    pub name: Seq<u8>,
    pub owner: Pid,
    pub active: bool,
    /// The waiting messages, the oldest first.
    pub waiting: Seq<Message>,
}

impl View for Endpoint {
    type V = Channel;

    open spec fn view(&self) -> Channel {
        Channel {
            name: self.name@.subrange(0, self.name_len as int),
            owner: self.owner,
            active: self.active,
            waiting: Seq::new(
                self.queue_count as nat,
                |i: int| self.queue@[(self.queue_read + i) % QUEUE_SIZE as int],
            ),
        }
    }
}

impl Endpoint {
    /// The ring is in order.
    pub open spec fn wf(&self) -> bool {
        &&& self.name_len <= MAX_NAME_LEN
        &&& self.queue_read < QUEUE_SIZE
        &&& self.queue_count <= QUEUE_SIZE
        &&& self.queue_write == (self.queue_read + self.queue_count) % QUEUE_SIZE as int
    }

    /// An endpoint that is not registered.
    pub fn empty() -> (r: Endpoint)
        ensures
            r.wf(),
            r@ == (Channel { name: Seq::empty(), owner: 0, active: false, waiting: Seq::empty() }),
    {
        let r = Endpoint {
            name: [0u8; MAX_NAME_LEN],
            name_len: 0,
            owner: 0,
            active: false,
            queue: [Message::empty(); QUEUE_SIZE],
            queue_read: 0,
            queue_write: 0,
            queue_count: 0,
        };
        assert(r@ =~= (Channel {
            name: Seq::empty(),
            owner: 0,
            active: false,
            waiting: Seq::empty(),
        }));
        r
    }

    /// Puts a message behind the waiting ones. Returns whether there was room.
    pub fn enqueue(&mut self, msg: Message) -> (r: bool)
        requires
            old(self).wf(),
        ensures
            final(self).wf(),
            r == (old(self)@.waiting.len() < QUEUE_SIZE),
            final(self)@ == (if r {
                Channel { waiting: old(self)@.waiting.push(msg), ..old(self)@ }
            } else {
                old(self)@
            }),
    {
        if self.queue_count >= QUEUE_SIZE {
            return false;
        }
        self.queue[self.queue_write] = msg;
        self.queue_write = (self.queue_write + 1) % QUEUE_SIZE;
        self.queue_count = self.queue_count + 1;
        assert(self@.waiting =~= old(self)@.waiting.push(msg));
        true
    }

    /// Takes the oldest message.
    pub fn dequeue(&mut self) -> (r: Option<Message>)
        requires
            old(self).wf(),
        ensures
            final(self).wf(),
            match r {
                Some(m) => old(self)@.waiting.len() > 0 && m == old(self)@.waiting[0]
                    && final(self)@ == (Channel {
                    waiting: old(self)@.waiting.subrange(1, old(self)@.waiting.len() as int),
                    ..old(self)@
                }),
                None => old(self)@.waiting.len() == 0 && final(self)@ == old(self)@,
            },
    {
        if self.queue_count == 0 {
            return None;
        }
        let idx: usize = self.queue_read;
        self.queue_read = (self.queue_read + 1) % QUEUE_SIZE;
        self.queue_count = self.queue_count - 1;
        assert(self@.waiting =~= old(self)@.waiting.subrange(
            1,
            old(self)@.waiting.len() as int,
        ));
        Some(self.queue[idx])
    }
}

/// The endpoints of the system.
pub struct Ipc {
    pub endpoints: Vec<Endpoint>,
}

impl View for Ipc {
    type V = Seq<Channel>;

    open spec fn view(&self) -> Seq<Channel> {
        Seq::new(self.endpoints@.len(), |i: int| self.endpoints@[i]@)
    }
}

impl Ipc {
    /// The table has its size, and every ring is in order.
    pub open spec fn wf(&self) -> bool {
        &&& self.endpoints@.len() == MAX_ENDPOINTS
        &&& forall|i: int| 0 <= i < MAX_ENDPOINTS ==> (#[trigger] self.endpoints@[i]).wf()
    }

    /// No endpoint holds more messages than it has room for.
    pub proof fn lemma_room(&self, id: int)
        requires
            self.wf(),
            0 <= id < MAX_ENDPOINTS,
        ensures
            self@[id].waiting.len() <= QUEUE_SIZE,
    {
        assert(self.endpoints@[id].wf());
    }

    /// A table without endpoints.
    pub fn new() -> (r: Ipc)
        ensures
            r.wf(),
            forall|i: int| 0 <= i < MAX_ENDPOINTS ==> !(#[trigger] r@[i]).active,
            forall|i: int| 0 <= i < MAX_ENDPOINTS ==> (#[trigger] r@[i]).waiting.len() == 0,
    {
        let mut endpoints: Vec<Endpoint> = Vec::new();
        let mut i: usize = 0;
        while i < MAX_ENDPOINTS
            invariant
                i <= MAX_ENDPOINTS,
                endpoints@.len() == i,
                forall|j: int| 0 <= j < i ==> (#[trigger] endpoints@[j]).wf(),
                forall|j: int| 0 <= j < i ==> !(#[trigger] endpoints@[j])@.active,
                forall|j: int| 0 <= j < i ==> (#[trigger] endpoints@[j])@.waiting.len() == 0,
            decreases MAX_ENDPOINTS - i,
        {
            endpoints.push(Endpoint::empty());
            i = i + 1;
        }
        Ipc { endpoints }
    }
}

/// The first endpoint that is not registered.
pub open spec fn free_endpoint(v: Seq<Channel>) -> Option<usize> {
    search::first(v.len(), |i: int| !v[i].active)
}

/// The first registered endpoint with a name.
pub open spec fn endpoint_named(v: Seq<Channel>, name: Seq<u8>) -> Option<usize> {
    search::first(v.len(), |i: int| v[i].active && v[i].name == name)
}

/// An endpoint once it is registered. Messages that wait in it stay.
pub open spec fn registered(c: Channel, name: Seq<u8>, owner: Pid) -> Channel {
    Channel { name, owner, active: true, ..c }
}

/// The endpoints once one is registered, and its number. Nothing changes if the
/// name is too long or no endpoint is free.
pub open spec fn registered_at(v: Seq<Channel>, name: Seq<u8>, owner: Pid) -> (
    Seq<Channel>,
    Option<usize>,
) {
    if name.len() > MAX_NAME_LEN {
        (v, None)
    } else {
        match free_endpoint(v) {
            Some(i) => (v.update(i as int, registered(v[i as int], name, owner)), Some(i)),
            None => (v, None),
        }
    }
}

/// Registers an endpoint, and returns its number. `None` if the name is too
/// long or no endpoint is free.
pub fn register_endpoint(ipc: &mut Ipc, name: &str, owner: Pid) -> (r: Option<usize>)
    requires
        old(ipc).wf(),
    ensures
        final(ipc).wf(),
        (final(ipc)@, r) == registered_at(old(ipc)@, name.spec_bytes(), owner),
        r matches Some(i) ==> i < MAX_ENDPOINTS,
{
    register_name(ipc, name.as_bytes(), owner)
}

/// Registers an endpoint under a name given by its bytes. See
/// `register_endpoint`.
pub fn register_name(ipc: &mut Ipc, bytes: &[u8], owner: Pid) -> (r: Option<usize>)
    requires
        old(ipc).wf(),
    ensures
        final(ipc).wf(),
        (final(ipc)@, r) == registered_at(old(ipc)@, bytes@, owner),
        r matches Some(i) ==> i < MAX_ENDPOINTS,
{
    if bytes.len() > MAX_NAME_LEN {
        return None;
    }
    let ghost v = ipc@;
    let ghost p = |i: int| !v[i].active;
    let mut i: usize = 0;
    while i < MAX_ENDPOINTS
        invariant
            i <= MAX_ENDPOINTS,
            *ipc == *old(ipc),
            ipc.wf(),
            v == ipc@,
            p == (|i: int| !v[i].active),
            bytes.len() <= MAX_NAME_LEN,
            forall|j: int| 0 <= j < i ==> !#[trigger] p(j),
        decreases MAX_ENDPOINTS - i,
    {
        if !ipc.endpoints[i].active {
            proof {
                assert(p(i as int));
                search::lemma_first_is(v.len(), p, i);
            }
            let mut e: Endpoint = ipc.endpoints[i];
            e.active = true;
            e.owner = owner;
            e.name_len = bytes.len();
            let ghost before = e;
            let mut k: usize = 0;
            while k < bytes.len()
                invariant
                    k <= bytes.len(),
                    bytes.len() <= MAX_NAME_LEN,
                    e == (Endpoint { name: e.name, ..before }),
                    forall|j: int| 0 <= j < k ==> e.name@[j] == bytes@[j],
                decreases bytes.len() - k,
            {
                e.name[k] = bytes[k];
                k = k + 1;
            }
            assert(e@.name =~= bytes@);
            assert(e@.waiting =~= v[i as int].waiting);
            assert(ipc.endpoints@[i as int].wf());
            ipc.endpoints.set(i, e);
            assert(ipc@ =~= v.update(i as int, registered(v[i as int], bytes@, owner)));
            return Some(i);
        }
        i = i + 1;
    }
    proof {
        search::lemma_first_none(v.len(), p);
    }
    None
}

/// Whether an endpoint is registered under a name.
fn is_named(e: &Endpoint, name: &[u8]) -> (r: bool)
    requires
        e.wf(),
    ensures
        r == (e@.active && e@.name == name@),
{
    if !e.active || e.name_len != name.len() {
        return false;
    }
    let mut k: usize = 0;
    while k < name.len()
        invariant
            k <= name.len(),
            name.len() == e.name_len,
            e.wf(),
            forall|j: int| 0 <= j < k ==> e.name@[j] == name@[j],
        decreases name.len() - k,
    {
        if e.name[k] != name[k] {
            assert(e@.name[k as int] != name@[k as int]);
            return false;
        }
        k = k + 1;
    }
    assert(e@.name =~= name@);
    true
}

/// Finds an endpoint by its name.
pub fn find_endpoint(ipc: &Ipc, name: &str) -> (r: Option<usize>)
    requires
        ipc.wf(),
    ensures
        r == endpoint_named(ipc@, name.spec_bytes()),
        r matches Some(i) ==> i < MAX_ENDPOINTS && ipc@[i as int].active,
{
    let bytes: &[u8] = name.as_bytes();
    let ghost v = ipc@;
    let ghost p = |i: int| v[i].active && v[i].name == bytes@;
    let mut i: usize = 0;
    while i < MAX_ENDPOINTS
        invariant
            i <= MAX_ENDPOINTS,
            ipc.wf(),
            v == ipc@,
            p == (|i: int| v[i].active && v[i].name == bytes@),
            bytes@ == name.spec_bytes(),
            forall|j: int| 0 <= j < i ==> !#[trigger] p(j),
        decreases MAX_ENDPOINTS - i,
    {
        if is_named(&ipc.endpoints[i], bytes) {
            proof {
                assert(p(i as int));
                search::lemma_first_is(v.len(), p, i);
            }
            return Some(i);
        }
        i = i + 1;
    }
    proof {
        search::lemma_first_none(v.len(), p);
    }
    None
}

/// An endpoint number is that of a registered endpoint.
pub open spec fn usable(v: Seq<Channel>, id: usize) -> bool {
    id < MAX_ENDPOINTS && v[id as int].active
}

/// Sends a message to an endpoint. It fails if the endpoint is not registered,
/// or if sixteen messages are waiting there.
pub fn send(ipc: &mut Ipc, endpoint_id: usize, msg: Message) -> (r: Result<(), &'static str>)
    requires
        old(ipc).wf(),
    ensures
        final(ipc).wf(),
        !usable(old(ipc)@, endpoint_id) ==> (r matches Err(e) && e@ == "invalid endpoint"@)
            && final(ipc)@ == old(ipc)@,
        usable(old(ipc)@, endpoint_id) && old(ipc)@[endpoint_id as int].waiting.len() >= QUEUE_SIZE
            ==> (r matches Err(e) && e@ == "queue full"@) && final(ipc)@ == old(ipc)@,
        usable(old(ipc)@, endpoint_id) && old(ipc)@[endpoint_id as int].waiting.len() < QUEUE_SIZE
            ==> r is Ok && final(ipc)@ == sent(old(ipc)@, endpoint_id as int, msg),
{
    if endpoint_id >= MAX_ENDPOINTS || !ipc.endpoints[endpoint_id].active {
        return Err("invalid endpoint");
    }
    let mut e: Endpoint = ipc.endpoints[endpoint_id];
    let ok: bool = e.enqueue(msg);
    ipc.endpoints.set(endpoint_id, e);
    if !ok {
        assert(ipc@ =~= old(ipc)@);
        return Err("queue full");
    }
    assert(ipc@ =~= sent(old(ipc)@, endpoint_id as int, msg));
    Ok(())
}

/// The endpoints after a message was sent to endpoint `id`.
pub open spec fn sent(v: Seq<Channel>, id: int, msg: Message) -> Seq<Channel> {
    v.update(id, Channel { waiting: v[id].waiting.push(msg), ..v[id] })
}

/// The endpoints after a message was received from endpoint `id`.
pub open spec fn received(v: Seq<Channel>, id: int) -> Seq<Channel> {
    v.update(
        id,
        Channel { waiting: v[id].waiting.subrange(1, v[id].waiting.len() as int), ..v[id] },
    )
}

/// Receives the oldest message of an endpoint, without waiting for one.
pub fn receive(ipc: &mut Ipc, endpoint_id: usize) -> (r: Option<Message>)
    requires
        old(ipc).wf(),
    ensures
        final(ipc).wf(),
        match r {
            Some(m) => {
                &&& usable(old(ipc)@, endpoint_id)
                &&& old(ipc)@[endpoint_id as int].waiting.len() > 0
                &&& m == old(ipc)@[endpoint_id as int].waiting[0]
                &&& final(ipc)@ == received(old(ipc)@, endpoint_id as int)
            },
            None => {
                &&& !usable(old(ipc)@, endpoint_id) || old(
                    ipc,
                )@[endpoint_id as int].waiting.len() == 0
                &&& final(ipc)@ == old(ipc)@
            },
        },
{
    if endpoint_id >= MAX_ENDPOINTS || !ipc.endpoints[endpoint_id].active {
        return None;
    }
    let mut e: Endpoint = ipc.endpoints[endpoint_id];
    let r: Option<Message> = e.dequeue();
    ipc.endpoints.set(endpoint_id, e);
    proof {
        if r is Some {
            assert(ipc@ =~= received(old(ipc)@, endpoint_id as int));
        } else {
            assert(ipc@ =~= old(ipc)@);
        }
    }
    r
}

/// Takes an endpoint out of the table.
pub fn unregister_endpoint(ipc: &mut Ipc, endpoint_id: usize)
    requires
        old(ipc).wf(),
    ensures
        final(ipc).wf(),
        final(ipc)@ == (if endpoint_id < MAX_ENDPOINTS {
            old(ipc)@.update(
                endpoint_id as int,
                Channel { active: false, ..old(ipc)@[endpoint_id as int] },
            )
        } else {
            old(ipc)@
        }),
{
    if endpoint_id < MAX_ENDPOINTS {
        let mut e: Endpoint = ipc.endpoints[endpoint_id];
        e.active = false;
        assert(ipc.endpoints@[endpoint_id as int].wf());
        ipc.endpoints.set(endpoint_id, e);
        assert(ipc@ =~= old(ipc)@.update(
            endpoint_id as int,
            Channel { active: false, ..old(ipc)@[endpoint_id as int] },
        ));
    }
}

/// Messages come out in the order in which they went in: what was sent is
/// received once everything that was waiting before it has been received.
pub proof fn law_messages_keep_their_order(v: Seq<Channel>, id: int, msg: Message)
    requires
        0 <= id < v.len(),
    ensures
        v[id].waiting.len() == 0 ==> sent(v, id, msg)[id].waiting[0] == msg,
        v[id].waiting.len() == 0 ==> received(sent(v, id, msg), id) == v,
        v[id].waiting.len() > 0 ==> sent(v, id, msg)[id].waiting[0] == v[id].waiting[0],
        v[id].waiting.len() > 0 ==> received(sent(v, id, msg), id) == sent(
            received(v, id),
            id,
            msg,
        ),
{
    let w = received(sent(v, id, msg), id);
    if v[id].waiting.len() == 0 {
        assert(w[id].waiting =~= v[id].waiting);
        assert(w =~= v);
    } else {
        let x = sent(received(v, id), id, msg);
        assert(w[id].waiting =~= x[id].waiting);
        assert(w =~= x);
    }
}

/// Sending to one endpoint and receiving from it leave the others alone.
pub proof fn law_endpoints_do_not_share_messages(v: Seq<Channel>, id: int, other: int, msg: Message)
    requires
        0 <= id < v.len(),
        0 <= other < v.len(),
        id != other,
    ensures
        sent(v, id, msg)[other] == v[other],
        received(v, id)[other] == v[other],
{
}

/// A registered endpoint is found by its name, as the one just registered or
/// one of the same name in front of it; every other name leads where it did.
pub proof fn law_registered_endpoint_is_found(
    v: Seq<Channel>,
    name: Seq<u8>,
    owner: Pid,
    other: Seq<u8>,
)
    requires
        v.len() == MAX_ENDPOINTS,
        free_endpoint(v) is Some,
    ensures
        ({
            let i = free_endpoint(v)->0;
            let w = v.update(i as int, registered(v[i as int], name, owner));
            &&& endpoint_named(v, name) is None ==> endpoint_named(w, name) == Some(i)
            &&& endpoint_named(w, name) matches Some(k) && k <= i && w[k as int].name == name
            &&& other != name ==> endpoint_named(w, other) == endpoint_named(v, other)
        }),
{
    let i = free_endpoint(v)->0;
    search::lemma_first(v.len(), |i: int| !v[i].active);
    let w = v.update(i as int, registered(v[i as int], name, owner));
    let p = |k: int| v[k].active && v[k].name == name;
    let q = |k: int| w[k].active && w[k].name == name;
    search::lemma_first(v.len(), p);
    search::lemma_first(w.len(), q);
    assert(q(i as int));
    if endpoint_named(v, name) is None {
        assert forall|k: int| 0 <= k < i implies !#[trigger] q(k) by {
            assert(!p(k));
        }
        search::lemma_first_is(w.len(), q, i);
    }
    if other != name {
        let a = |k: int| v[k].active && v[k].name == other;
        let b = |k: int| w[k].active && w[k].name == other;
        search::lemma_first_same(v.len(), a, b);
    }
}

/// An endpoint that was taken out is not found any more.
pub proof fn law_unregistered_endpoint_is_not_found(v: Seq<Channel>, id: usize, name: Seq<u8>)
    requires
        v.len() == MAX_ENDPOINTS,
        id < MAX_ENDPOINTS,
    ensures
        ({
            let w = v.update(id as int, Channel { active: false, ..v[id as int] });
            endpoint_named(w, name) != Some(id) && !usable(w, id)
        }),
{
    let w = v.update(id as int, Channel { active: false, ..v[id as int] });
    search::lemma_first(w.len(), |k: int| w[k].active && w[k].name == name);
}

} // verus!
