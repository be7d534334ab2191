use grafted::mach_ipc::{
    bootstrap_port, host_self_port, mach_msg, port_allocate, port_deallocate, port_insert_right, port_mod_refs,
    port_type, reply_port, task_self_port, thread_self_port, MachMessage, MachMsgHeader, PortSpace,
    KERN_INVALID_ARGUMENT, KERN_INVALID_NAME, KERN_SUCCESS, MACH_MSG_SUCCESS, MACH_MSG_TYPE_MAKE_SEND,
    MACH_PORT_RIGHT_RECEIVE, MACH_PORT_RIGHT_SEND, MACH_PORT_TYPE_RECEIVE, MACH_PORT_TYPE_SEND, MACH_RCV_MSG,
    MACH_RCV_TIMED_OUT, MACH_SEND_INVALID_DEST, MACH_SEND_MSG,
};

fn header(remote: u32, local: u32, id: i32) -> MachMsgHeader {
    MachMsgHeader { msgh_bits: 0, msgh_size: 24, msgh_remote_port: remote, msgh_local_port: local,
        msgh_voucher_port: 0, msgh_id: id }
}

#[test]
fn special_ports() {
    assert_eq!(task_self_port(), 0x103);
    assert_eq!(thread_self_port(), 0x203);
    assert_eq!(host_self_port(), 0x303);
    assert_eq!(reply_port(), 0x307);
    assert_eq!(bootstrap_port(), 0x40b);
    let space = PortSpace::new();
    assert_eq!(port_type(&space, 0x103), (KERN_SUCCESS, MACH_PORT_TYPE_RECEIVE | MACH_PORT_TYPE_SEND));
}

#[test]
fn allocate_names_in_order() {
    let mut space = PortSpace::new();
    assert_eq!(port_allocate(&mut space, MACH_PORT_RIGHT_RECEIVE), Ok(0x1000));
    assert_eq!(port_allocate(&mut space, MACH_PORT_RIGHT_SEND), Ok(0x1001));
    assert_eq!(port_allocate(&mut space, 99), Err(KERN_INVALID_ARGUMENT));
    assert_eq!(port_type(&space, 0x1000), (KERN_SUCCESS, MACH_PORT_TYPE_RECEIVE));
    assert_eq!(port_type(&space, 0x1001), (KERN_SUCCESS, MACH_PORT_TYPE_SEND));
}

#[test]
fn make_send_then_release_restores() {
    let mut space = PortSpace::new();
    let p = port_allocate(&mut space, MACH_PORT_RIGHT_RECEIVE).unwrap();
    assert_eq!(port_insert_right(&mut space, p, p, MACH_MSG_TYPE_MAKE_SEND), KERN_SUCCESS);
    assert_eq!(space.send_refs(p), Some(1));
    assert_eq!(port_mod_refs(&mut space, p, MACH_PORT_RIGHT_SEND, -1), KERN_SUCCESS);
    assert_eq!(space.send_refs(p), Some(0));
    assert_eq!(port_type(&space, p), (KERN_SUCCESS, MACH_PORT_TYPE_RECEIVE));
    // dropping the receive right too frees the name
    assert_eq!(port_mod_refs(&mut space, p, MACH_PORT_RIGHT_RECEIVE, -1), KERN_SUCCESS);
    assert_eq!(port_type(&space, p).0, KERN_INVALID_NAME);
}

#[test]
fn deallocate_unknown_name() {
    let mut space = PortSpace::new();
    assert_eq!(port_deallocate(&mut space, 0x9999), KERN_INVALID_NAME);
}

#[test]
fn messages_come_back_in_order() {
    let mut space = PortSpace::new();
    let p = port_allocate(&mut space, MACH_PORT_RIGHT_RECEIVE).unwrap();
    assert_eq!(space.send_msg(p, MachMessage { header: header(p, 0, 1), body: vec![1] }), MACH_MSG_SUCCESS);
    assert_eq!(space.send_msg(p, MachMessage { header: header(p, 0, 2), body: vec![2, 2] }), MACH_MSG_SUCCESS);
    let a = space.recv_msg(p).unwrap();
    let b = space.recv_msg(p).unwrap();
    assert_eq!(a.header.msgh_id, 1);
    assert_eq!(a.body, vec![1]);
    assert_eq!(b.header.msgh_id, 2);
    assert!(space.recv_msg(p).is_none());
    assert_eq!(space.send_msg(0x7777, MachMessage { header: header(0x7777, 0, 3), body: vec![] }), MACH_SEND_INVALID_DEST);
}

#[test]
fn mach_msg_round_trip() {
    let mut space = PortSpace::new();
    let p = port_allocate(&mut space, MACH_PORT_RIGHT_RECEIVE).unwrap();
    // send then receive on the same port: the message comes back
    let mut h = header(p, p, 42);
    let mut body = vec![9, 8, 7, 6];
    let r = mach_msg(&mut space, &mut h, &mut body, MACH_SEND_MSG | MACH_RCV_MSG, 28, 64, 0, 0, 0);
    assert_eq!(r, MACH_MSG_SUCCESS);
    assert_eq!(h.msgh_id, 42);
    assert_eq!(h.msgh_size, 28);
    assert_eq!(body, vec![9, 8, 7, 6]);
    // a small receive buffer cuts the body
    let mut h2 = header(p, p, 43);
    let mut body2 = vec![1, 2, 3, 4];
    let r2 = mach_msg(&mut space, &mut h2, &mut body2, MACH_SEND_MSG | MACH_RCV_MSG, 28, 26, 0, 0, 0);
    assert_eq!(r2, MACH_MSG_SUCCESS);
    assert_eq!(body2, vec![1, 2]);
    assert_eq!(h2.msgh_size, 26);
    // nothing queued: the receive times out
    let mut h3 = header(0, 0, 0);
    let mut body3 = vec![];
    assert_eq!(mach_msg(&mut space, &mut h3, &mut body3, MACH_RCV_MSG, 0, 64, p, 0, 0), MACH_RCV_TIMED_OUT);
    // sending to an unknown port fails
    let mut h4 = header(0x5555, 0, 0);
    let mut body4 = vec![];
    assert_eq!(mach_msg(&mut space, &mut h4, &mut body4, MACH_SEND_MSG, 24, 0, 0, 0, 0), MACH_SEND_INVALID_DEST);
}

#[test]
fn mach_msg_sends_are_received_in_order() {
    let mut space = PortSpace::new();
    let p = port_allocate(&mut space, MACH_PORT_RIGHT_RECEIVE).unwrap();
    let mut h1 = header(p, 0, 1);
    let mut b1 = vec![1];
    assert_eq!(mach_msg(&mut space, &mut h1, &mut b1, MACH_SEND_MSG, 25, 0, 0, 0, 0), MACH_MSG_SUCCESS);
    let mut h2 = header(p, 0, 2);
    let mut b2 = vec![2, 2];
    assert_eq!(mach_msg(&mut space, &mut h2, &mut b2, MACH_SEND_MSG, 26, 0, 0, 0, 0), MACH_MSG_SUCCESS);
    assert_eq!(space.queue_len(p), 2);
    let mut rh = header(0, 0, 0);
    let mut rb = vec![];
    assert_eq!(mach_msg(&mut space, &mut rh, &mut rb, MACH_RCV_MSG, 0, 64, p, 0, 0), MACH_MSG_SUCCESS);
    assert_eq!(rh.msgh_id, 1);
    assert_eq!(rb, vec![1]);
    assert_eq!(mach_msg(&mut space, &mut rh, &mut rb, MACH_RCV_MSG, 0, 64, p, 0, 0), MACH_MSG_SUCCESS);
    assert_eq!(rh.msgh_id, 2);
    assert_eq!(rb, vec![2, 2]);
    assert_eq!(space.queue_len(p), 0);
}

#[test]
fn mach_msg_timed_out_receive_consumes_nothing() {
    let mut space = PortSpace::new();
    let p = port_allocate(&mut space, MACH_PORT_RIGHT_RECEIVE).unwrap();
    let q = port_allocate(&mut space, MACH_PORT_RIGHT_RECEIVE).unwrap();
    let mut h = header(p, 0, 5);
    let mut b = vec![5];
    assert_eq!(mach_msg(&mut space, &mut h, &mut b, MACH_SEND_MSG, 25, 0, 0, 0, 0), MACH_MSG_SUCCESS);
    let mut rh = header(0, 0, 0);
    let mut rb = vec![];
    assert_eq!(mach_msg(&mut space, &mut rh, &mut rb, MACH_RCV_MSG, 0, 64, q, 0, 0), MACH_RCV_TIMED_OUT);
    assert_eq!(space.queue_len(p), 1);
    assert_eq!(space.queue_len(q), 0);
}

#[test]
fn port_allocate_then_deallocate_twice() {
    let mut space = PortSpace::new();
    let n = port_allocate(&mut space, MACH_PORT_RIGHT_SEND).unwrap();
    assert_eq!(port_deallocate(&mut space, n), KERN_SUCCESS);
    assert_eq!(port_type(&space, n), (KERN_INVALID_NAME, 0));
    assert_eq!(port_deallocate(&mut space, n), KERN_INVALID_NAME);
}
