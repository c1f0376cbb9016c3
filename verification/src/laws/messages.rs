//! Messages: what is sent is received, in order, by the endpoint it was sent to.

use vstd::prelude::*;
use vstd::string::*;
use crate::ipc;
use crate::ipc::{Channel, Ipc, Message, MessageType};
use crate::search;
use crate::task::Pid;

verus! {

/// `w` is `v` but for endpoint `id`.
pub open spec fn others_stay(v: Seq<Channel>, w: Seq<Channel>, id: int) -> bool {
    &&& w.len() == v.len()
    &&& forall|j: int| 0 <= j < v.len() && j != id ==> #[trigger] w[j] == v[j]
}

/// `id` is the number of an endpoint that is registered.
pub open spec fn is_registered(v: Seq<Channel>, id: int) -> bool {
    0 <= id < 64 && v[id].active
}

/// What sending a message to endpoint `id` leaves behind: the message waits behind
/// those that waited before. It fails, and nothing changes, exactly if there is no
/// such endpoint or sixteen messages wait there.
pub open spec fn posted(
    v: Seq<Channel>,
    id: int,
    msg: Message,
    w: Seq<Channel>,
    ok: bool,
) -> bool {
    &&& ok <==> is_registered(v, id) && v[id].waiting.len() < 16
    &&& ok ==> {
        let n = v[id].waiting.len() as int;
        &&& others_stay(v, w, id)
        &&& w[id].active && w[id].name == v[id].name && w[id].owner == v[id].owner
        &&& w[id].waiting.len() == n + 1
        &&& w[id].waiting[n] == msg
        &&& forall|k: int| 0 <= k < n ==> #[trigger] w[id].waiting[k] == v[id].waiting[k]
    }
    &&& !ok ==> w == v
}

/// What receiving from endpoint `id` leaves behind, and the message: the one that has
/// waited longest; the others wait on in their order. There is none, and nothing
/// changes, exactly if there is no such endpoint or none waits.
pub open spec fn fetched(v: Seq<Channel>, id: int, w: Seq<Channel>, r: Option<Message>) -> bool {
    &&& r is Some <==> is_registered(v, id) && v[id].waiting.len() > 0
    &&& r matches Some(msg) ==> {
        let n = v[id].waiting.len() as int;
        &&& msg == v[id].waiting[0]
        &&& others_stay(v, w, id)
        &&& w[id].active && w[id].name == v[id].name && w[id].owner == v[id].owner
        &&& w[id].waiting.len() == n - 1
        &&& forall|k: int| 0 <= k < n - 1 ==> #[trigger] w[id].waiting[k] == v[id].waiting[k + 1]
    }
    &&& r is None ==> w == v
}

/// What registering a name leaves behind, and the number of the endpoint: the first
/// free one, under exactly this name, with its owner. It fails, and nothing changes,
/// exactly if the name has more than 32 bytes or no endpoint is free.
pub open spec fn named_endpoint(
    v: Seq<Channel>,
    name: Seq<u8>,
    owner: Pid,
    w: Seq<Channel>,
    r: Option<usize>,
) -> bool {
    &&& r is Some <==> name.len() <= 32 && exists|i: int| 0 <= i < 64 && !(#[trigger] v[i]).active
    &&& r matches Some(i) ==> {
        &&& i < 64
        &&& !v[i as int].active
        &&& forall|j: int| 0 <= j < i ==> (#[trigger] v[j]).active
        &&& others_stay(v, w, i as int)
        &&& w[i as int].active
        &&& w[i as int].owner == owner
        &&& w[i as int].name == name
        &&& w[i as int].waiting == v[i as int].waiting
    }
    &&& r is None ==> w == v
}

/// The message is a request of a process with the data, cut to 256 bytes.
pub open spec fn carries(msg: Message, sender: Pid, opcode: u32, data: Seq<u8>) -> bool {
    &&& msg.sender == sender
    &&& msg.msg_type == MessageType::Request
    &&& msg.opcode == opcode
    &&& msg.status == 0
    &&& msg.payload_len == (if data.len() < 256 {
        data.len() as int
    } else {
        256
    })
    &&& forall|k: int| 0 <= k < msg.payload_len ==> #[trigger] msg.payload@[k] == data[k]
}

/// What the terms of messages say of a request is what a request carries.
pub proof fn lemma_carries(msg: Message, sender: Pid, opcode: u32, data: Seq<u8>)
    requires
        msg.is_request_of(sender, opcode, data),
    ensures
        carries(msg, sender, opcode, data),
{
    assert forall|k: int| 0 <= k < msg.payload_len implies #[trigger] msg.payload@[k] == data[k] by {
        assert(msg.data()[k] == ipc::cut(data)[k]);
    }
}

/// What the terms of endpoints say of registering is what registering is for.
pub proof fn lemma_named_endpoint(v: Seq<Channel>, name: Seq<u8>, owner: Pid)
    requires
        v.len() == 64,
    ensures
        named_endpoint(
            v,
            name,
            owner,
            ipc::registered_at(v, name, owner).0,
            ipc::registered_at(v, name, owner).1,
        ),
{
    let p = |i: int| !v[i].active;
    search::lemma_first(64, p);
    match ipc::free_endpoint(v) {
        Some(i) => {
            assert(p(i as int));
            assert(!v[i as int].active);
            assert forall|j: int| 0 <= j < i implies (#[trigger] v[j]).active by {
                assert(!p(j));
            }
        },
        None => {
            assert forall|j: int| 0 <= j < 64 implies (#[trigger] v[j]).active by {
                assert(!p(j));
            }
        },
    }
}

/// A message that is sent waits at its endpoint. See `posted`.
pub proof fn law_sent_message_waits(
    i: &mut Ipc,
    id: usize,
    msg: Message,
    r: Result<(), &'static str>,
)
    requires
        old(i).wf(),
        call_ensures(ipc::send, (i, id, msg), r),
    ensures
        posted(old(i)@, id as int, msg, final(i)@, r is Ok),
        !is_registered(old(i)@, id as int) ==> (r matches Err(e) && e@ == "invalid endpoint"@),
        is_registered(old(i)@, id as int) && r is Err ==> (r matches Err(e) && e@
            == "queue full"@),
{
}

/// A message that is received is the oldest of its endpoint. See `fetched`.
pub proof fn law_received_message_is_the_oldest(i: &mut Ipc, id: usize, r: Option<Message>)
    requires
        old(i).wf(),
        call_ensures(ipc::receive, (i, id), r),
    ensures
        fetched(old(i)@, id as int, final(i)@, r),
{
}

/// A name that is registered stands for the first free endpoint. See `named_endpoint`.
pub proof fn law_name_stands_for_the_endpoint(
    i: &mut Ipc,
    name: &str,
    owner: Pid,
    r: Option<usize>,
)
    requires
        old(i).wf(),
        call_ensures(ipc::register_endpoint, (i, name, owner), r),
    ensures
        named_endpoint(old(i)@, name.spec_bytes(), owner, final(i)@, r),
{
    lemma_named_endpoint(old(i)@, name.spec_bytes(), owner);
}

/// A name leads to the first endpoint that is registered under exactly this name, and
/// nowhere if none is.
pub proof fn law_endpoint_is_found_by_its_name(i: &Ipc, name: &str, r: Option<usize>)
    requires
        i.wf(),
        call_ensures(ipc::find_endpoint, (i, name), r),
    ensures
        match r {
            Some(k) => {
                &&& k < 64
                &&& i@[k as int].active
                &&& i@[k as int].name == name.spec_bytes()
                &&& forall|j: int|
                    0 <= j < k ==> !((#[trigger] i@[j]).active && i@[j].name == name.spec_bytes())
            },
            None => forall|j: int|
                0 <= j < 64 ==> !((#[trigger] i@[j]).active && i@[j].name == name.spec_bytes()),
        },
{
    let v = i@;
    let p = |k: int| v[k].active && v[k].name == name.spec_bytes();
    search::lemma_first(64, p);
    match r {
        Some(k) => {
            assert(p(k as int));
            assert forall|j: int| 0 <= j < k implies !((#[trigger] v[j]).active && v[j].name
                == name.spec_bytes()) by {
                assert(!p(j));
            }
        },
        None => {
            assert forall|j: int| 0 <= j < 64 implies !((#[trigger] v[j]).active && v[j].name
                == name.spec_bytes()) by {
                assert(!p(j));
            }
        },
    }
}

/// An endpoint that is taken out is registered no longer; the others stay.
pub proof fn law_taken_out_endpoint_is_registered_no_longer(i: &mut Ipc, id: usize)
    requires
        old(i).wf(),
        call_ensures(ipc::unregister_endpoint, (i, id), ()),
    ensures
        id < 64 ==> !final(i)@[id as int].active,
        others_stay(old(i)@, final(i)@, id as int),
{
}

/// A request carries its data, from process 0.
pub proof fn law_request_carries_its_data(opcode: u32, data: &[u8], r: Message)
    requires
        call_ensures(Message::request, (opcode, data), r),
    ensures
        carries(r, 0, opcode, data@),
{
    lemma_carries(r, 0, opcode, data@);
}

/// A response carries its data and its status.
pub proof fn law_response_carries_its_data(opcode: u32, status: i32, data: &[u8], r: Message)
    requires
        call_ensures(Message::response, (opcode, status, data), r),
    ensures
        r.msg_type == MessageType::Response,
        r.opcode == opcode,
        r.status == status,
        r.payload_len == (if data@.len() < 256 {
            data@.len() as int
        } else {
            256
        }),
        forall|k: int| 0 <= k < r.payload_len ==> #[trigger] r.payload@[k] == data@[k],
{
    assert forall|k: int| 0 <= k < r.payload_len implies #[trigger] r.payload@[k] == data@[k] by {
        assert(r.data()[k] == ipc::cut(data@)[k]);
    }
}

} // verus!
