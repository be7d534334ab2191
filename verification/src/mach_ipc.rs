//! Mach IPC emulation: an in-process port namespace with rights bookkeeping
//! and per-port message queues.
//!
//! One `PortSpace` stands for the IPC space of the task. Ports hold a
//! receive right (one holder) and ref-counted send rights. Special ports are
//! pre-allocated. Messages are delivered through in-process FIFO queues.

use vstd::prelude::*;
use std::collections::HashMap;
use std::collections::VecDeque;

verus! {

broadcast use vstd::std_specs::hash::group_hash_axioms;

pub const MACH_PORT_NULL: u32 = 0;
pub const MACH_PORT_DEAD: u32 = 0xFFFF_FFFF;

pub const MACH_PORT_RIGHT_SEND: u32 = 0;
pub const MACH_PORT_RIGHT_RECEIVE: u32 = 1;
pub const MACH_PORT_RIGHT_SEND_ONCE: u32 = 2;
pub const MACH_PORT_RIGHT_PORT_SET: u32 = 3;
pub const MACH_PORT_RIGHT_DEAD_NAME: u32 = 4;

pub const KERN_SUCCESS: i32 = 0;
pub const KERN_INVALID_ARGUMENT: i32 = 4;
pub const KERN_NO_SPACE: i32 = 3;
pub const KERN_INVALID_NAME: i32 = 15;
pub const KERN_INVALID_RIGHT: i32 = 16;
pub const KERN_FAILURE: i32 = 5;

pub const MACH_SEND_MSG: i32 = 0x0000_0001;
pub const MACH_RCV_MSG: i32 = 0x0000_0002;
pub const MACH_SEND_TIMEOUT: i32 = 0x0000_0010;
pub const MACH_RCV_TIMEOUT: i32 = 0x0000_0100;

pub const MACH_MSG_TYPE_MOVE_RECEIVE: u32 = 16;
pub const MACH_MSG_TYPE_MOVE_SEND: u32 = 17;
pub const MACH_MSG_TYPE_MOVE_SEND_ONCE: u32 = 18;
pub const MACH_MSG_TYPE_COPY_SEND: u32 = 19;
pub const MACH_MSG_TYPE_MAKE_SEND: u32 = 20;
pub const MACH_MSG_TYPE_MAKE_SEND_ONCE: u32 = 21;

pub const MACH_MSG_SUCCESS: i32 = 0;
pub const MACH_SEND_INVALID_DEST: i32 = 0x1000_0002;
pub const MACH_SEND_TIMED_OUT: i32 = 0x1000_0003;
pub const MACH_RCV_INVALID_NAME: i32 = 0x1000_0002;
pub const MACH_RCV_TIMED_OUT: i32 = 0x1000_0003;
pub const MACH_RCV_TOO_LARGE: i32 = 0x1000_0004;

pub const SPECIAL_PORT_TASK_SELF: u32 = 0x103;
pub const SPECIAL_PORT_THREAD_SELF: u32 = 0x203;
pub const SPECIAL_PORT_HOST_SELF: u32 = 0x303;
pub const SPECIAL_PORT_REPLY: u32 = 0x307;
pub const SPECIAL_PORT_BOOTSTRAP: u32 = 0x40b;

/// First name handed out to user-allocated ports.
pub const FIRST_USER_PORT: u32 = 0x1000;

/// Size in bytes of `MachMsgHeader` as laid out in memory.
pub const MACH_MSG_HEADER_SIZE: usize = 24;

pub const MACH_PORT_TYPE_SEND: u32 = 0x1_0000;
pub const MACH_PORT_TYPE_RECEIVE: u32 = 0x2_0000;
pub const MACH_PORT_TYPE_DEAD_NAME: u32 = 0x10_0000;

/// Mach message header (layout of Darwin's mach_msg_header_t).
#[derive(Clone, Copy, Debug, PartialEq, Eq, Structural)]
pub struct MachMsgHeader {
    pub msgh_bits: u32,
    pub msgh_size: u32,
    pub msgh_remote_port: u32,
    pub msgh_local_port: u32,
    pub msgh_voucher_port: u32,
    pub msgh_id: i32,
}

/// A queued message: its header and the inline body that followed it.
#[derive(Debug)]
pub struct MachMessage {
    pub header: MachMsgHeader,
    pub body: Vec<u8>,
}

/// The rights and queue held under one port name.
#[derive(Debug)]
pub struct Port {
    pub send_count: u32,
    pub has_receive: bool,
    pub is_dead: bool,
    pub queue: VecDeque<MachMessage>,
}

/// A port with a receive right only.
pub open spec fn receive_only(p: Port) -> bool {
    p.send_count == 0 && p.has_receive && !p.is_dead && p.queue@.len() == 0
}

/// A port with one send right only.
pub open spec fn send_only(p: Port) -> bool {
    p.send_count == 1 && !p.has_receive && !p.is_dead && p.queue@.len() == 0
}

/// A port with one send right and the receive right.
pub open spec fn send_receive(p: Port) -> bool {
    p.send_count == 1 && p.has_receive && !p.is_dead && p.queue@.len() == 0
}

/// A dead name carrying one send reference.
pub open spec fn dead_name(p: Port) -> bool {
    p.send_count == 1 && !p.has_receive && p.is_dead && p.queue@.len() == 0
}

/// A port keeps its name while it holds any right.
pub open spec fn holds_rights(p: Port) -> bool {
    p.send_count > 0 || p.has_receive
}

impl Port {
    fn new_with_receive() -> (p: Port)
        ensures
            receive_only(p),
    {
        Port { send_count: 0, has_receive: true, is_dead: false, queue: VecDeque::new() }
    }

    fn new_send_only() -> (p: Port)
        ensures
            send_only(p),
    {
        Port { send_count: 1, has_receive: false, is_dead: false, queue: VecDeque::new() }
    }

    fn new_with_send_receive() -> (p: Port)
        ensures
            send_receive(p),
    {
        Port { send_count: 1, has_receive: true, is_dead: false, queue: VecDeque::new() }
    }
}

/// The port-type bits that `mach_port_type` reports for a port.
pub open spec fn type_bits(p: Port) -> u32 {
    (if p.has_receive { MACH_PORT_TYPE_RECEIVE } else { 0u32 })
        | (if p.send_count > 0 { MACH_PORT_TYPE_SEND } else { 0u32 })
        | (if p.is_dead { MACH_PORT_TYPE_DEAD_NAME } else { 0u32 })
}

/// The counter of user-allocated port names, which starts at the first
/// user name and only grows.
struct NameCounter {
    next: u32,
}

impl NameCounter {
    #[verifier::type_invariant]
    closed spec fn at_least_first_user_port(&self) -> bool {
        self.next >= FIRST_USER_PORT
    }
}

/// The port namespace of one task.
pub struct PortSpace {
    ports: HashMap<u32, Port>,
    next_name: NameCounter,
}

impl PortSpace {
    /// The ports by name.
    pub closed spec fn ports(&self) -> Map<u32, Port> {
        self.ports@
    }

    /// The name the next allocation will hand out.
    pub closed spec fn next_name(&self) -> u32 {
        self.next_name.next
    }

    /// Whether an allocation can still be attempted without overflowing the name counter.
    pub open spec fn can_allocate(&self) -> bool {
        self.next_name() < u32::MAX
    }

    /// Create a space holding the five special ports, each with send and receive rights.
    pub fn new() -> (ps: PortSpace)
        ensures
            ps.next_name() == FIRST_USER_PORT,
            ps.ports().dom() =~= set![SPECIAL_PORT_TASK_SELF, SPECIAL_PORT_THREAD_SELF,
                SPECIAL_PORT_HOST_SELF, SPECIAL_PORT_REPLY, SPECIAL_PORT_BOOTSTRAP],
            forall|n: u32| ps.ports().contains_key(n) ==> send_receive(#[trigger] ps.ports()[n]),
    {
        let mut ports: HashMap<u32, Port> = HashMap::new();
        ports.insert(SPECIAL_PORT_TASK_SELF, Port::new_with_send_receive());
        ports.insert(SPECIAL_PORT_THREAD_SELF, Port::new_with_send_receive());
        ports.insert(SPECIAL_PORT_HOST_SELF, Port::new_with_send_receive());
        ports.insert(SPECIAL_PORT_REPLY, Port::new_with_send_receive());
        ports.insert(SPECIAL_PORT_BOOTSTRAP, Port::new_with_send_receive());
        PortSpace { ports, next_name: NameCounter { next: FIRST_USER_PORT } }
    }

    /// The send reference count under `name`, if the name exists.
    pub fn send_refs(&self, name: u32) -> (r: Option<u32>)
        ensures
            r == (if self.ports().contains_key(name) { Some(self.ports()[name].send_count) } else { None::<u32> }),
    {
        match self.ports.get(&name) {
            Some(p) => Some(p.send_count),
            None => None,
        }
    }

    /// Whether the name counter still has room for an allocation.
    pub fn allocation_room(&self) -> (r: bool)
        ensures
            r == self.can_allocate(),
    {
        self.next_name.next < u32::MAX
    }

    /// mach_port_allocate: consume the next name and create a port holding `right`.
    pub fn allocate(&mut self, right: u32) -> (r: Result<u32, i32>)
        requires
            old(self).can_allocate(),
        ensures
            final(self).next_name() == old(self).next_name() + 1,
            old(self).next_name() + 1 > 0xFFFF_FFFEu32 ==> r == Err::<u32, i32>(KERN_NO_SPACE)
                && final(self).ports() == old(self).ports(),
            old(self).next_name() + 1 <= 0xFFFF_FFFEu32 ==> match r {
                Ok(name) => {
                    &&& name == old(self).next_name()
                    &&& name >= FIRST_USER_PORT
                    &&& (right == MACH_PORT_RIGHT_RECEIVE || right == MACH_PORT_RIGHT_SEND
                        || right == MACH_PORT_RIGHT_PORT_SET || right == MACH_PORT_RIGHT_DEAD_NAME)
                    &&& final(self).ports().dom() == old(self).ports().dom().insert(name)
                    &&& forall|n: u32| n != name && old(self).ports().contains_key(n)
                        ==> #[trigger] final(self).ports()[n] == old(self).ports()[n]
                    &&& (right == MACH_PORT_RIGHT_RECEIVE || right == MACH_PORT_RIGHT_PORT_SET)
                        ==> receive_only(final(self).ports()[name])
                    &&& right == MACH_PORT_RIGHT_SEND ==> send_only(final(self).ports()[name])
                    &&& right == MACH_PORT_RIGHT_DEAD_NAME ==> dead_name(final(self).ports()[name])
                },
                Err(e) => {
                    &&& e == KERN_INVALID_ARGUMENT
                    &&& right != MACH_PORT_RIGHT_RECEIVE && right != MACH_PORT_RIGHT_SEND
                        && right != MACH_PORT_RIGHT_PORT_SET && right != MACH_PORT_RIGHT_DEAD_NAME
                    &&& final(self).ports() == old(self).ports()
                },
            },
    {
        proof {
            use_type_invariant(&self.next_name);
        }
        let name = self.next_name.next;
        self.next_name = NameCounter { next: name + 1 };
        if name + 1 > 0xFFFF_FFFE {
            return Err(KERN_NO_SPACE);
        }
        let port = if right == MACH_PORT_RIGHT_RECEIVE {
            Port::new_with_receive()
        } else if right == MACH_PORT_RIGHT_SEND {
            Port::new_send_only()
        } else if right == MACH_PORT_RIGHT_PORT_SET {
            Port::new_with_receive()
        } else if right == MACH_PORT_RIGHT_DEAD_NAME {
            let mut p = Port::new_send_only();
            p.is_dead = true;
            p
        } else {
            return Err(KERN_INVALID_ARGUMENT);
        };
        self.ports.insert(name, port);
        Ok(name)
    }

    /// mach_port_deallocate: drop one send reference; the name goes away once it holds no right.
    pub fn deallocate(&mut self, name: u32) -> (r: i32)
        ensures
            final(self).next_name() == old(self).next_name(),
            !old(self).ports().contains_key(name) ==> r == KERN_INVALID_NAME
                && final(self).ports() == old(self).ports(),
            old(self).ports().contains_key(name) ==> {
                let p = old(self).ports()[name];
                let q = Port { send_count: if p.send_count > 0 { (p.send_count - 1) as u32 } else { 0u32 }, ..p };
                &&& r == KERN_SUCCESS
                &&& if holds_rights(q) {
                        final(self).ports() == old(self).ports().insert(name, q)
                    } else {
                        final(self).ports() == old(self).ports().remove(name)
                    }
            },
    {
        match self.ports.remove(&name) {
            Some(port) => {
                let mut port = port;
                if port.send_count > 0 {
                    port.send_count = port.send_count - 1;
                }
                if port.send_count == 0 && !port.has_receive {
                } else {
                    self.ports.insert(name, port);
                }
                proof {
                    assert(old(self).ports().remove(name).insert(name, port) =~= old(self).ports().insert(name, port));
                }
                KERN_SUCCESS
            },
            None => {
                proof {
                    assert(self.ports@ =~= old(self).ports());
                }
                KERN_INVALID_NAME
            },
        }
    }

    /// The port after `insert_right` of `poly_type` on an existing port (None: invalid type).
    pub open spec fn spec_inserted(p: Port, poly_type: u32) -> Option<Port> {
        if poly_type == MACH_MSG_TYPE_MAKE_SEND || poly_type == MACH_MSG_TYPE_COPY_SEND
            || poly_type == MACH_MSG_TYPE_MOVE_SEND {
            Some(Port { send_count: (p.send_count + 1) as u32, ..p })
        } else if poly_type == MACH_MSG_TYPE_MOVE_RECEIVE {
            Some(Port { has_receive: true, ..p })
        } else if poly_type == MACH_MSG_TYPE_MAKE_SEND_ONCE || poly_type == MACH_MSG_TYPE_MOVE_SEND_ONCE {
            Some(p)
        } else {
            None
        }
    }

    /// Whether `insert_right` can run without overflowing a send count.
    pub open spec fn can_insert_right(&self, name: u32) -> bool {
        self.ports().contains_key(name) ==> self.ports()[name].send_count < u32::MAX
    }

    /// mach_port_insert_right: add a right of type `poly_type` under `name`,
    /// creating the entry when the name is unknown.
    pub fn insert_right(&mut self, name: u32, _poly: u32, poly_type: u32) -> (r: i32)
        requires
            old(self).can_insert_right(name),
        ensures
            final(self).next_name() == old(self).next_name(),
            !old(self).ports().contains_key(name) ==> {
                if poly_type == MACH_MSG_TYPE_MAKE_SEND || poly_type == MACH_MSG_TYPE_COPY_SEND
                    || poly_type == MACH_MSG_TYPE_MOVE_SEND {
                    &&& r == KERN_SUCCESS
                    &&& final(self).ports().dom() == old(self).ports().dom().insert(name)
                    &&& send_only(final(self).ports()[name])
                    &&& forall|n: u32| n != name && old(self).ports().contains_key(n)
                        ==> #[trigger] final(self).ports()[n] == old(self).ports()[n]
                } else if poly_type == MACH_MSG_TYPE_MOVE_RECEIVE {
                    &&& r == KERN_SUCCESS
                    &&& final(self).ports().dom() == old(self).ports().dom().insert(name)
                    &&& receive_only(final(self).ports()[name])
                    &&& forall|n: u32| n != name && old(self).ports().contains_key(n)
                        ==> #[trigger] final(self).ports()[n] == old(self).ports()[n]
                } else {
                    r == KERN_INVALID_ARGUMENT && final(self).ports() == old(self).ports()
                }
            },
            old(self).ports().contains_key(name) ==> match Self::spec_inserted(old(self).ports()[name], poly_type) {
                Some(q) => r == KERN_SUCCESS && final(self).ports() == old(self).ports().insert(name, q),
                None => r == KERN_INVALID_ARGUMENT && final(self).ports() == old(self).ports(),
            },
    {
        let is_send = poly_type == MACH_MSG_TYPE_MAKE_SEND || poly_type == MACH_MSG_TYPE_COPY_SEND
            || poly_type == MACH_MSG_TYPE_MOVE_SEND;
        if !self.ports.contains_key(&name) {
            if is_send {
                self.ports.insert(name, Port::new_send_only());
                return KERN_SUCCESS;
            } else if poly_type == MACH_MSG_TYPE_MOVE_RECEIVE {
                self.ports.insert(name, Port::new_with_receive());
                return KERN_SUCCESS;
            } else {
                return KERN_INVALID_ARGUMENT;
            }
        }
        let port = self.ports.remove(&name);
        let mut port = match port {
            Some(p) => p,
            None => { return KERN_INVALID_ARGUMENT; },
        };
        let r = if is_send {
            port.send_count = port.send_count + 1;
            KERN_SUCCESS
        } else if poly_type == MACH_MSG_TYPE_MOVE_RECEIVE {
            port.has_receive = true;
            KERN_SUCCESS
        } else if poly_type == MACH_MSG_TYPE_MAKE_SEND_ONCE || poly_type == MACH_MSG_TYPE_MOVE_SEND_ONCE {
            KERN_SUCCESS
        } else {
            KERN_INVALID_ARGUMENT
        };
        self.ports.insert(name, port);
        proof {
            assert(old(self).ports().remove(name).insert(name, port) =~= old(self).ports().insert(name, port));
            if r == KERN_INVALID_ARGUMENT {
                assert(old(self).ports().insert(name, port) =~= old(self).ports());
            }
        }
        r
    }

    /// The send count `mod_refs` computes: the old count seen as i32, plus `delta`, floored at 0.
    pub open spec fn spec_new_send_count(send_count: u32, delta: i32) -> u32 {
        let n = (send_count as i32) as int + delta as int;
        if n < 0 { 0u32 } else { n as u32 }
    }

    /// Whether `mod_refs` can run without overflowing its signed arithmetic.
    pub open spec fn can_mod_refs(&self, name: u32, right: u32, delta: i32) -> bool {
        (self.ports().contains_key(name) && right == MACH_PORT_RIGHT_SEND) ==> {
            let n = (self.ports()[name].send_count as i32) as int + delta as int;
            i32::MIN <= n <= i32::MAX
        }
    }

    /// The port after `mod_refs` on an existing port.
    pub open spec fn spec_modded(p: Port, right: u32, delta: i32) -> Port {
        if right == MACH_PORT_RIGHT_SEND {
            Port { send_count: Self::spec_new_send_count(p.send_count, delta), ..p }
        } else if right == MACH_PORT_RIGHT_RECEIVE && delta < 0 {
            Port { has_receive: false, ..p }
        } else {
            p
        }
    }

    /// mach_port_mod_refs: adjust the references of `right` under `name` by `delta`;
    /// the name goes away once it holds no right.
    pub fn mod_refs(&mut self, name: u32, right: u32, delta: i32) -> (r: i32)
        requires
            old(self).can_mod_refs(name, right, delta),
        ensures
            final(self).next_name() == old(self).next_name(),
            !old(self).ports().contains_key(name) ==> r == KERN_INVALID_NAME
                && final(self).ports() == old(self).ports(),
            old(self).ports().contains_key(name) ==> {
                let q = Self::spec_modded(old(self).ports()[name], right, delta);
                &&& r == KERN_SUCCESS
                &&& if holds_rights(q) {
                        final(self).ports() == old(self).ports().insert(name, q)
                    } else {
                        final(self).ports() == old(self).ports().remove(name)
                    }
            },
    {
        match self.ports.remove(&name) {
            Some(port) => {
                let mut port = port;
                if right == MACH_PORT_RIGHT_SEND {
                    let new_count: i32 = port.send_count as i32 + delta;
                    if new_count < 0 {
                        port.send_count = 0;
                    } else {
                        port.send_count = new_count as u32;
                    }
                } else if right == MACH_PORT_RIGHT_RECEIVE {
                    if delta < 0 {
                        port.has_receive = false;
                    }
                }
                if port.send_count == 0 && !port.has_receive {
                } else {
                    self.ports.insert(name, port);
                }
                proof {
                    assert(old(self).ports().remove(name).insert(name, port) =~= old(self).ports().insert(name, port));
                }
                KERN_SUCCESS
            },
            None => {
                proof {
                    assert(self.ports@ =~= old(self).ports());
                }
                KERN_INVALID_NAME
            },
        }
    }

    /// Queue `msg` on `dest` unless the name is unknown or dead.
    pub fn send_msg(&mut self, dest: u32, msg: MachMessage) -> (r: i32)
        ensures
            final(self).next_name() == old(self).next_name(),
            (old(self).ports().contains_key(dest) && !old(self).ports()[dest].is_dead) ==> {
                let p = old(self).ports()[dest];
                &&& r == MACH_MSG_SUCCESS
                &&& final(self).ports() == old(self).ports().insert(dest,
                        Port { queue: final(self).ports()[dest].queue, ..p })
                &&& final(self).ports()[dest].queue@ == p.queue@.push(msg)
            },
            !(old(self).ports().contains_key(dest) && !old(self).ports()[dest].is_dead) ==>
                r == MACH_SEND_INVALID_DEST && final(self).ports() == old(self).ports(),
    {
        match self.ports.remove(&dest) {
            Some(port) => {
                let mut port = port;
                if port.is_dead {
                    self.ports.insert(dest, port);
                    proof {
                        assert(self.ports@ =~= old(self).ports());
                    }
                    MACH_SEND_INVALID_DEST
                } else {
                    port.queue.push_back(msg);
                    self.ports.insert(dest, port);
                    proof {
                        assert(old(self).ports().remove(dest).insert(dest, port) =~= old(self).ports().insert(dest, port));
                    }
                    MACH_MSG_SUCCESS
                }
            },
            None => {
                proof {
                    assert(self.ports@ =~= old(self).ports());
                }
                MACH_SEND_INVALID_DEST
            },
        }
    }

    /// Take the oldest message queued on `port_name`, if any.
    pub fn recv_msg(&mut self, port_name: u32) -> (r: Option<MachMessage>)
        ensures
            final(self).next_name() == old(self).next_name(),
            (!old(self).ports().contains_key(port_name) || old(self).ports()[port_name].queue@.len() == 0) ==>
                r is None && final(self).ports() == old(self).ports(),
            (old(self).ports().contains_key(port_name) && old(self).ports()[port_name].queue@.len() > 0) ==> {
                let p = old(self).ports()[port_name];
                &&& r == Some(p.queue@[0])
                &&& final(self).ports() == old(self).ports().insert(port_name,
                        Port { queue: final(self).ports()[port_name].queue, ..p })
                &&& final(self).ports()[port_name].queue@ == p.queue@.drop_first()
            },
    {
        match self.ports.remove(&port_name) {
            Some(port) => {
                let mut port = port;
                if port.queue.len() == 0 {
                    self.ports.insert(port_name, port);
                    proof {
                        assert(self.ports@ =~= old(self).ports());
                    }
                    return None;
                }
                let m = port.queue.pop_front();
                self.ports.insert(port_name, port);
                proof {
                    assert(old(self).ports().remove(port_name).insert(port_name, port) =~= old(self).ports().insert(port_name, port));
                }
                m
            },
            None => {
                proof {
                    assert(self.ports@ =~= old(self).ports());
                }
                None
            },
        }
    }

    /// Whether `name` is a port that is not dead.
    pub fn is_live(&self, name: u32) -> (r: bool)
        ensures
            r == (self.ports().contains_key(name) && !self.ports()[name].is_dead),
    {
        match self.ports.get(&name) {
            Some(p) => !p.is_dead,
            None => false,
        }
    }

    /// The number of messages queued on `name` (0 when the name is unknown).
    pub fn queue_len(&self, name: u32) -> (r: usize)
        ensures
            r == (if self.ports().contains_key(name) { self.ports()[name].queue@.len() } else { 0 }),
    {
        match self.ports.get(&name) {
            Some(p) => p.queue.len(),
            None => 0,
        }
    }

    /// The type bits of `name` (0 when the name is unknown).
    pub fn port_type(&self, name: u32) -> (r: u32)
        ensures
            r == (if self.ports().contains_key(name) { type_bits(self.ports()[name]) } else { 0u32 }),
    {
        match self.ports.get(&name) {
            Some(port) => {
                (if port.has_receive { MACH_PORT_TYPE_RECEIVE } else { 0u32 })
                    | (if port.send_count > 0 { MACH_PORT_TYPE_SEND } else { 0u32 })
                    | (if port.is_dead { MACH_PORT_TYPE_DEAD_NAME } else { 0u32 })
            },
            None => 0,
        }
    }
}


/// The bytes of the inline body that a send of `send_size` bytes carries.
pub open spec fn send_body_len(send_size: u32) -> nat {
    if send_size >= MACH_MSG_HEADER_SIZE { (send_size - MACH_MSG_HEADER_SIZE) as nat } else { 0 }
}

/// Whether the send phase of `mach_msg` reaches a live destination.
pub open spec fn dest_is_live(ports: Map<u32, Port>, header: MachMsgHeader) -> bool {
    ports.contains_key(header.msgh_remote_port) && !ports[header.msgh_remote_port].is_dead
}

/// The port `mach_msg` receives on.
pub open spec fn receive_port(header: MachMsgHeader, option: i32, rcv_name: u32) -> u32 {
    if option & MACH_SEND_MSG != 0 { header.msgh_local_port } else { rcv_name }
}

/// A queue's messages as plain values: each one's header and body.
pub open spec fn msgs_view(q: Seq<MachMessage>) -> Seq<(MachMsgHeader, Seq<u8>)> {
    q.map_values(|m: MachMessage| (m.header, m.body@))
}

/// Appending a message appends its plain value.
pub proof fn lemma_msgs_view_push(q: Seq<MachMessage>, m: MachMessage)
    ensures
        msgs_view(q.push(m)) == msgs_view(q).push((m.header, m.body@)),
{
    assert(msgs_view(q.push(m)) =~= msgs_view(q).push((m.header, m.body@)));
}

/// Taking off the front message takes off the front plain value.
pub proof fn lemma_msgs_view_drop_first(q: Seq<MachMessage>)
    requires
        q.len() > 0,
    ensures
        msgs_view(q.drop_first()) == msgs_view(q).drop_first(),
        msgs_view(q)[0] == (q[0].header, q[0].body@),
{
    assert(msgs_view(q.drop_first()) =~= msgs_view(q).drop_first());
}

/// The messages queued under `n` after the send phase of `mach_msg`: the
/// sent message appended at the back of the destination's queue.
pub open spec fn queue_after_send(ports: Map<u32, Port>, header: MachMsgHeader, body: Seq<u8>, option: i32, n: u32)
    -> Seq<(MachMsgHeader, Seq<u8>)>
{
    let q = msgs_view(ports[n].queue@);
    if option & MACH_SEND_MSG != 0 && dest_is_live(ports, header) && n == header.msgh_remote_port {
        q.push((header, body))
    } else {
        q
    }
}

/// The messages queued under `n` after `mach_msg`: the send phase's queue,
/// with the front taken off the receive port when a message is received.
pub open spec fn queue_after(ports: Map<u32, Port>, header: MachMsgHeader, body: Seq<u8>, option: i32, rcv_name: u32, n: u32)
    -> Seq<(MachMsgHeader, Seq<u8>)>
{
    let q = queue_after_send(ports, header, body, option, n);
    if front_after_send(ports, header, body, option, rcv_name) is Some && n == receive_port(header, option, rcv_name) {
        q.drop_first()
    } else {
        q
    }
}

/// The message `mach_msg` dequeues, when it dequeues one: the oldest message
/// on the receive port once the send phase has queued its own.
pub open spec fn front_after_send(
    ports: Map<u32, Port>, header: MachMsgHeader, body: Seq<u8>, option: i32, rcv_name: u32,
) -> Option<(MachMsgHeader, Seq<u8>)> {
    let send = option & MACH_SEND_MSG != 0;
    let rport = receive_port(header, option, rcv_name);
    if option & MACH_RCV_MSG == 0 || (send && !dest_is_live(ports, header)) {
        None
    } else if ports.contains_key(rport) && ports[rport].queue@.len() > 0 {
        let m = ports[rport].queue@[0];
        Some((m.header, m.body@))
    } else if send && header.msgh_remote_port == rport {
        Some((header, body))
    } else {
        None
    }
}

/// mach_msg: send and/or receive one message through the port space.
///
/// `header` is the message header in the caller's buffer and `body` the
/// inline body that follows it: on send, `body` holds the bytes that
/// `send_size` covers past the header; on a receive, `header` and `body`
/// are replaced by the dequeued message, its body cut to what `rcv_size`
/// leaves room for.
pub fn mach_msg(
    space: &mut PortSpace,
    header: &mut MachMsgHeader,
    body: &mut Vec<u8>,
    option: i32,
    send_size: u32,
    rcv_size: u32,
    rcv_name: u32,
    _timeout: u32,
    _notify: u32,
) -> (r: i32)
    requires
        (option & MACH_SEND_MSG != 0) ==> old(body)@.len() == send_body_len(send_size),
        front_after_send(old(space).ports(), *old(header), old(body)@, option, rcv_name) is Some
            ==> rcv_size >= MACH_MSG_HEADER_SIZE,
    ensures
        final(space).next_name() == old(space).next_name(),
        final(space).ports().dom() == old(space).ports().dom(),
        forall|n: u32| #[trigger] final(space).ports().contains_key(n) ==> {
            &&& Port { queue: old(space).ports()[n].queue, ..final(space).ports()[n] } == old(space).ports()[n]
            &&& msgs_view(final(space).ports()[n].queue@)
                == queue_after(old(space).ports(), *old(header), old(body)@, option, rcv_name, n)
        },
        (option & MACH_SEND_MSG != 0 && !dest_is_live(old(space).ports(), *old(header))) ==> {
            &&& r == MACH_SEND_INVALID_DEST
            &&& final(space).ports() == old(space).ports()
            &&& *final(header) == *old(header)
            &&& final(body)@ == old(body)@
        },
        !(option & MACH_SEND_MSG != 0 && !dest_is_live(old(space).ports(), *old(header))) ==>
            match front_after_send(old(space).ports(), *old(header), old(body)@, option, rcv_name) {
                Some((h, b)) => {
                    let copy = if b.len() <= rcv_size - MACH_MSG_HEADER_SIZE { b.len() } else { (rcv_size - MACH_MSG_HEADER_SIZE) as nat };
                    &&& r == MACH_MSG_SUCCESS
                    &&& final(body)@ == b.take(copy as int)
                    &&& *final(header) == MachMsgHeader { msgh_size: (MACH_MSG_HEADER_SIZE + copy) as u32, ..h }
                },
                None => {
                    &&& (option & MACH_RCV_MSG != 0 ==> r == MACH_RCV_TIMED_OUT)
                    &&& (option & MACH_RCV_MSG == 0 ==> r == MACH_MSG_SUCCESS)
                },
            },
{
    let ghost ports0 = space.ports();
    let send = option & MACH_SEND_MSG != 0;
    if send {
        let sent_body = body.clone();
        let msg = MachMessage { header: *header, body: sent_body };
        let ret = space.send_msg(header.msgh_remote_port, msg);
        if ret != MACH_MSG_SUCCESS {
            return ret;
        }
        proof {
            assert(space.ports().dom() =~= ports0.dom());
            lemma_msgs_view_push(ports0[header.msgh_remote_port].queue@, msg);
        }
    }
    let ghost ports1 = space.ports();
    assert forall|n: u32| #[trigger] ports1.contains_key(n) implies {
        &&& Port { queue: ports0[n].queue, ..ports1[n] } == ports0[n]
        &&& msgs_view(ports1[n].queue@) == queue_after_send(ports0, *old(header), old(body)@, option, n)
    } by {
        if send && n == old(header).msgh_remote_port {
        }
    }
    if option & MACH_RCV_MSG != 0 {
        let port = if send { header.msgh_local_port } else { rcv_name };
        match space.recv_msg(port) {
            Some(m) => {
                proof {
                    assert(space.ports().dom() =~= ports0.dom());
                    lemma_msgs_view_drop_first(ports1[port].queue@);
                }
                let max_body = rcv_size as usize - MACH_MSG_HEADER_SIZE;
                let copy_len = if m.body.len() <= max_body { m.body.len() } else { max_body };
                let mut out: Vec<u8> = Vec::new();
                let mut i: usize = 0;
                while i < copy_len
                    invariant
                        i <= copy_len <= m.body@.len(),
                        out@ == m.body@.take(i as int),
                    decreases copy_len - i,
                {
                    out.push(m.body[i]);
                    i = i + 1;
                    proof {
                        assert(out@ =~= m.body@.take(i as int));
                    }
                }
                *body = out;
                *header = MachMsgHeader { msgh_size: (MACH_MSG_HEADER_SIZE + copy_len) as u32, ..m.header };
                return MACH_MSG_SUCCESS;
            },
            None => {
                return MACH_RCV_TIMED_OUT;
            },
        }
    }
    MACH_MSG_SUCCESS
}

/// Whether `mach_msg` with these arguments dequeues a message (and so
/// needs a receive buffer of at least a header).
pub fn receives_message(space: &PortSpace, header: &MachMsgHeader, body: &Vec<u8>, option: i32, rcv_name: u32) -> (r: bool)
    ensures
        r == (front_after_send(space.ports(), *header, body@, option, rcv_name) is Some),
{
    let send = option & MACH_SEND_MSG != 0;
    if option & MACH_RCV_MSG == 0 {
        return false;
    }
    if send && !space.is_live(header.msgh_remote_port) {
        return false;
    }
    let rport = if send { header.msgh_local_port } else { rcv_name };
    if space.queue_len(rport) > 0 {
        return true;
    }
    send && header.msgh_remote_port == rport
}

/// mach_port_allocate(task, right, &name).
pub fn port_allocate(space: &mut PortSpace, right: u32) -> (r: Result<u32, i32>)
    requires
        old(space).can_allocate(),
    ensures
        final(space).next_name() == old(space).next_name() + 1,
        old(space).next_name() + 1 > 0xFFFF_FFFEu32 ==> r == Err::<u32, i32>(KERN_NO_SPACE)
            && final(space).ports() == old(space).ports(),
        old(space).next_name() + 1 <= 0xFFFF_FFFEu32 ==> match r {
            Ok(name) => {
                &&& name == old(space).next_name()
                &&& name >= FIRST_USER_PORT
                &&& (right == MACH_PORT_RIGHT_RECEIVE || right == MACH_PORT_RIGHT_SEND
                    || right == MACH_PORT_RIGHT_PORT_SET || right == MACH_PORT_RIGHT_DEAD_NAME)
                &&& final(space).ports().dom() == old(space).ports().dom().insert(name)
                &&& forall|n: u32| n != name && old(space).ports().contains_key(n)
                    ==> #[trigger] final(space).ports()[n] == old(space).ports()[n]
                &&& (right == MACH_PORT_RIGHT_RECEIVE || right == MACH_PORT_RIGHT_PORT_SET)
                    ==> receive_only(final(space).ports()[name])
                &&& right == MACH_PORT_RIGHT_SEND ==> send_only(final(space).ports()[name])
                &&& right == MACH_PORT_RIGHT_DEAD_NAME ==> dead_name(final(space).ports()[name])
            },
            Err(e) => {
                &&& e == KERN_INVALID_ARGUMENT
                &&& right != MACH_PORT_RIGHT_RECEIVE && right != MACH_PORT_RIGHT_SEND
                    && right != MACH_PORT_RIGHT_PORT_SET && right != MACH_PORT_RIGHT_DEAD_NAME
                &&& final(space).ports() == old(space).ports()
            },
        },
{
    space.allocate(right)
}

/// mach_port_deallocate(task, name).
pub fn port_deallocate(space: &mut PortSpace, name: u32) -> (r: i32)
    ensures
        final(space).next_name() == old(space).next_name(),
        r == (if old(space).ports().contains_key(name) { KERN_SUCCESS } else { KERN_INVALID_NAME }),
        !old(space).ports().contains_key(name) ==> final(space).ports() == old(space).ports(),
        old(space).ports().contains_key(name) ==> {
            let p = old(space).ports()[name];
            let q = Port { send_count: if p.send_count > 0 { (p.send_count - 1) as u32 } else { 0u32 }, ..p };
            if holds_rights(q) {
                final(space).ports() == old(space).ports().insert(name, q)
            } else {
                final(space).ports() == old(space).ports().remove(name)
            }
        },
{
    space.deallocate(name)
}

/// mach_port_insert_right(task, name, poly, polyPoly).
pub fn port_insert_right(space: &mut PortSpace, name: u32, poly: u32, poly_type: u32) -> (r: i32)
    requires
        old(space).can_insert_right(name),
    ensures
        final(space).next_name() == old(space).next_name(),
        old(space).ports().contains_key(name) ==> match PortSpace::spec_inserted(old(space).ports()[name], poly_type) {
            Some(q) => r == KERN_SUCCESS && final(space).ports() == old(space).ports().insert(name, q),
            None => r == KERN_INVALID_ARGUMENT && final(space).ports() == old(space).ports(),
        },
        !old(space).ports().contains_key(name) ==> {
            if poly_type == MACH_MSG_TYPE_MAKE_SEND || poly_type == MACH_MSG_TYPE_COPY_SEND
                || poly_type == MACH_MSG_TYPE_MOVE_SEND {
                r == KERN_SUCCESS && send_only(final(space).ports()[name])
                    && final(space).ports().dom() == old(space).ports().dom().insert(name)
            } else if poly_type == MACH_MSG_TYPE_MOVE_RECEIVE {
                r == KERN_SUCCESS && receive_only(final(space).ports()[name])
                    && final(space).ports().dom() == old(space).ports().dom().insert(name)
            } else {
                r == KERN_INVALID_ARGUMENT && final(space).ports() == old(space).ports()
            }
        },
{
    space.insert_right(name, poly, poly_type)
}

/// mach_port_mod_refs(task, name, right, delta).
pub fn port_mod_refs(space: &mut PortSpace, name: u32, right: u32, delta: i32) -> (r: i32)
    requires
        old(space).can_mod_refs(name, right, delta),
    ensures
        final(space).next_name() == old(space).next_name(),
        r == (if old(space).ports().contains_key(name) { KERN_SUCCESS } else { KERN_INVALID_NAME }),
        !old(space).ports().contains_key(name) ==> final(space).ports() == old(space).ports(),
        old(space).ports().contains_key(name) ==> {
            let q = PortSpace::spec_modded(old(space).ports()[name], right, delta);
            if holds_rights(q) {
                final(space).ports() == old(space).ports().insert(name, q)
            } else {
                final(space).ports() == old(space).ports().remove(name)
            }
        },
{
    space.mod_refs(name, right, delta)
}

/// mach_port_type(task, name, &ptype): KERN_INVALID_NAME when the name carries no type bits.
pub fn port_type(space: &PortSpace, name: u32) -> (r: (i32, u32))
    ensures
        ({
            let bits = if space.ports().contains_key(name) { type_bits(space.ports()[name]) } else { 0u32 };
            r == (if bits == 0 { (KERN_INVALID_NAME, 0u32) } else { (KERN_SUCCESS, bits) })
        }),
{
    let ptype = space.port_type(name);
    if ptype == 0 { (KERN_INVALID_NAME, 0) } else { (KERN_SUCCESS, ptype) }
}

/// The task's own port name.
pub fn task_self_port() -> (r: u32)
    ensures r == SPECIAL_PORT_TASK_SELF,
{ SPECIAL_PORT_TASK_SELF }

/// The current thread's port name.
pub fn thread_self_port() -> (r: u32)
    ensures r == SPECIAL_PORT_THREAD_SELF,
{ SPECIAL_PORT_THREAD_SELF }

/// The host port name.
pub fn host_self_port() -> (r: u32)
    ensures r == SPECIAL_PORT_HOST_SELF,
{ SPECIAL_PORT_HOST_SELF }

/// The reply port name.
pub fn reply_port() -> (r: u32)
    ensures r == SPECIAL_PORT_REPLY,
{ SPECIAL_PORT_REPLY }

/// The bootstrap port name.
pub fn bootstrap_port() -> (r: u32)
    ensures r == SPECIAL_PORT_BOOTSTRAP,
{ SPECIAL_PORT_BOOTSTRAP }

/// Making a send right and then releasing one send reference leaves the
/// port as it was.
pub proof fn lemma_make_send_then_release(p: Port)
    requires
        p.send_count < i32::MAX,
    ensures
        PortSpace::spec_inserted(p, MACH_MSG_TYPE_MAKE_SEND) matches Some(q)
            && PortSpace::spec_modded(q, MACH_PORT_RIGHT_SEND, -1i32) == p,
{
    let q = Port { send_count: (p.send_count + 1) as u32, ..p };
    assert(PortSpace::spec_inserted(p, MACH_MSG_TYPE_MAKE_SEND) == Some(q));
    assert(PortSpace::spec_new_send_count(q.send_count, -1i32) == p.send_count);
    assert(PortSpace::spec_modded(q, MACH_PORT_RIGHT_SEND, -1i32) =~= p);
}

/// A port's queue is first in, first out: a message sent to an empty
/// queue is the next one received, and sending after the head leaves the
/// head in front.
pub proof fn lemma_queue_fifo(q: Seq<MachMessage>, m: MachMessage)
    ensures
        q.push(m)[0] == (if q.len() == 0 { m } else { q[0] }),
        q.len() > 0 ==> q.push(m).drop_first() == q.drop_first().push(m),
        q.len() == 0 ==> q.push(m).drop_first() == q,
{
    if q.len() > 0 {
        assert(q.push(m).drop_first() =~= q.drop_first().push(m));
    } else {
        assert(q.push(m).drop_first() =~= q);
    }
}

/// A receive after a send is first in, first out: once `mach_msg` has sent
/// `(h, b)` to a live port, a receive on that port takes the message that
/// was oldest there before the send, or `(h, b)` itself when the queue was
/// empty, whatever the receiving call's own header and body hold.
pub proof fn law_mach_msg_receive_after_send(
    ports: Map<u32, Port>,
    after: Map<u32, Port>,
    h: MachMsgHeader,
    b: Seq<u8>,
    rh: MachMsgHeader,
    rb: Seq<u8>,
)
    requires
        dest_is_live(ports, h),
        after.dom() == ports.dom(),
        forall|n: u32| #[trigger] after.contains_key(n) ==> {
            &&& Port { queue: ports[n].queue, ..after[n] } == ports[n]
            &&& msgs_view(after[n].queue@) == queue_after(ports, h, b, MACH_SEND_MSG, 0, n)
        },
    ensures
        front_after_send(after, rh, rb, MACH_RCV_MSG, h.msgh_remote_port) == (
            if ports[h.msgh_remote_port].queue@.len() == 0 {
                Some((h, b))
            } else {
                Some(msgs_view(ports[h.msgh_remote_port].queue@)[0])
            }),
{
    let d = h.msgh_remote_port;
    assert(MACH_SEND_MSG & MACH_SEND_MSG != 0 && MACH_SEND_MSG & MACH_RCV_MSG == 0
        && MACH_RCV_MSG & MACH_RCV_MSG != 0 && MACH_RCV_MSG & MACH_SEND_MSG == 0) by (bit_vector);
    assert(after.contains_key(d));
    let q = ports[d].queue@;
    let qa = after[d].queue@;
    assert(msgs_view(qa) == msgs_view(q).push((h, b)));
    assert(msgs_view(qa).len() == qa.len());
    assert(qa.len() > 0);
    assert(msgs_view(qa)[0] == (qa[0].header, qa[0].body@));
    if q.len() > 0 {
        assert(msgs_view(q)[0] == msgs_view(q).push((h, b))[0]);
    }
}

/// The type bits a port reports are Darwin's MACH_PORT_TYPE values: a
/// receive right alone 0x20000, a send right alone 0x10000, both 0x30000,
/// and a dead name with its send reference 0x110000.
pub proof fn law_port_type_bits(p: Port)
    ensures
        receive_only(p) ==> type_bits(p) == 131072,
        send_only(p) ==> type_bits(p) == 65536,
        send_receive(p) ==> type_bits(p) == 196608,
        dead_name(p) ==> type_bits(p) == 1114112,
{
    assert((131072u32 | 0u32 | 0u32) == 131072u32 && (0u32 | 65536u32 | 0u32) == 65536u32
        && (131072u32 | 65536u32 | 0u32) == 196608u32 && (0u32 | 65536u32 | 1048576u32) == 1114112u32) by (bit_vector);
}

} // verus!
