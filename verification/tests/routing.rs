use zhttpsocket::packet::hash;
use zhttpsocket::registry::{
    Addr, Prefix, RecvScratch, ReqHandles, ServerReqHandles, ServerStreamHandles, StreamHandles,
};

fn ids(list: &[&[u8]]) -> Vec<Vec<u8>> {
    list.iter().map(|s| s.to_vec()).collect()
}

/// Two values whose hashes land on different sides of a modulus of two.
fn uniquely_hashable_pair() -> (Vec<u8>, Vec<u8>) {
    let mut even = None;
    let mut odd = None;
    for x in 0..=0xffffu32 {
        let s = format!("{:04x}", x).into_bytes();
        if hash(&s) % 2 == 0 {
            if even.is_none() {
                even = Some(s);
            }
        } else if odd.is_none() {
            odd = Some(s);
        }
        if even.is_some() && odd.is_some() {
            break;
        }
    }
    (even.unwrap(), odd.unwrap())
}

#[test]
fn prefix_fanout_selects_matching_handles() {
    let mut reg = ReqHandles::new(16);
    let ka = reg.add(Prefix::try_new(b"a-").unwrap());
    let kb = reg.add(Prefix::try_new(b"b-").unwrap());
    assert_eq!(reg.len(), 2);
    assert_eq!(reg.dispatch(&ids(&[b"a-1"])), vec![ka]);
    assert_eq!(reg.dispatch(&ids(&[b"b-7"])), vec![kb]);
    assert_eq!(reg.dispatch(&ids(&[b"a-1", b"b-7"])), vec![ka, kb]);
    assert_eq!(reg.dispatch(&ids(&[b"c-1"])), Vec::<u64>::new());
    assert_eq!(reg.dispatch(&ids(&[])), Vec::<u64>::new());
}

#[test]
fn empty_prefix_matches_every_identifier() {
    let mut reg = StreamHandles::new(16);
    let k = reg.add(Prefix::try_new(b"").unwrap());
    assert_eq!(reg.dispatch(&ids(&[b"anything"])), vec![k]);
}

#[test]
fn prefix_and_addr_bounds() {
    assert!(Prefix::try_new(b"12345678").is_some());
    assert!(Prefix::try_new(b"123456789").is_none());
    let long = vec![7u8; 64];
    assert!(Addr::try_new(&long).is_some());
    let too_long = vec![7u8; 65];
    assert!(Addr::try_new(&too_long).is_none());
}

#[test]
fn invalid_handle_does_not_disturb_others() {
    let mut reg = ReqHandles::new(16);
    let ka = reg.add(Prefix::try_new(b"a-").unwrap());
    let kb = reg.add(Prefix::try_new(b"b-").unwrap());
    reg.mark_invalid(kb);
    assert!(reg.need_cleanup());
    assert_eq!(reg.dispatch(&ids(&[b"a-1", b"b-7"])), vec![ka]);
    assert_eq!(reg.dispatch(&ids(&[b"b-7"])), Vec::<u64>::new());
}

#[test]
fn cleanup_drops_invalid_entries_in_order() {
    let mut reg = ReqHandles::new(16);
    let k1 = reg.add(Prefix::try_new(b"a-").unwrap());
    let k2 = reg.add(Prefix::try_new(b"b-").unwrap());
    let k3 = reg.add(Prefix::try_new(b"c-").unwrap());
    reg.mark_invalid(k2);
    let removed = reg.cleanup();
    assert_eq!(removed, vec![k2]);
    assert_eq!(reg.len(), 2);
    assert!(!reg.need_cleanup());
    assert_eq!(reg.dispatch(&ids(&[b"a-0", b"c-0"])), vec![k1, k3]);
}

#[test]
fn scatter_tasks_follow_validity() {
    let mut reg = ReqHandles::new(8);
    let k1 = reg.add(Prefix::try_new(b"a-").unwrap());
    let k2 = reg.add(Prefix::try_new(b"b-").unwrap());
    let mut scratch = RecvScratch::new(8);
    reg.arm_recv(&mut scratch);
    assert_eq!(scratch.tasks, vec![k1, k2]);
    // the peer behind the first task turned out to be closed
    let gone = scratch.remove_task(0);
    assert_eq!(gone, k1);
    reg.mark_invalid(gone);
    assert_eq!(scratch.tasks, vec![k2]);
    reg.arm_recv(&mut scratch);
    assert_eq!(scratch.tasks, vec![k2]);
}

#[test]
fn round_robin_alternates() {
    let mut reg = ServerReqHandles::new(8);
    let k1 = reg.add();
    let k2 = reg.add();
    assert_eq!(reg.dispatch(), Some(k1));
    assert_eq!(reg.dispatch(), Some(k2));
    assert_eq!(reg.dispatch(), Some(k1));
    assert_eq!(reg.dispatch(), Some(k2));
}

#[test]
fn round_robin_shares_evenly() {
    // five dispatches over two valid entries: one gets three, one gets two
    let mut reg = ServerReqHandles::new(8);
    let k1 = reg.add();
    let k2 = reg.add();
    let mut count1 = 0;
    let mut count2 = 0;
    for _ in 0..5 {
        match reg.dispatch() {
            Some(k) if k == k1 => count1 += 1,
            Some(k) if k == k2 => count2 += 1,
            other => panic!("unexpected pick: {:?}", other),
        }
    }
    assert_eq!(count1, 3);
    assert_eq!(count2, 2);
}

#[test]
fn round_robin_falls_back_to_latest_valid() {
    let mut reg = ServerReqHandles::new(8);
    let k1 = reg.add();
    let k2 = reg.add();
    let k3 = reg.add();
    reg.mark_invalid(k2);
    assert_eq!(reg.dispatch(), Some(k1));
    // the slot in rotation is invalid: the most recent valid entry wins
    assert_eq!(reg.dispatch(), Some(k1));
    assert_eq!(reg.dispatch(), Some(k3));
}

#[test]
fn round_robin_empty_drops() {
    let mut reg = ServerReqHandles::new(8);
    assert_eq!(reg.dispatch(), None);
}

#[test]
fn hash_dispatch_routes_by_identifier() {
    let (x, y) = uniquely_hashable_pair();
    let mut reg = ServerStreamHandles::new(8);
    let k0 = reg.add();
    let k1 = reg.add();
    assert_eq!(reg.dispatch(&vec![x.clone()]), vec![k0]);
    assert_eq!(reg.dispatch(&vec![y.clone()]), vec![k1]);
    // the same identifier keeps routing to the same handle
    assert_eq!(reg.dispatch(&vec![x.clone()]), vec![k0]);
    // a packet carrying several identifiers fans out once per identifier
    assert_eq!(reg.dispatch(&vec![x.clone(), y.clone()]), vec![k0, k1]);
    assert_eq!(reg.dispatch(&vec![x.clone(), x.clone()]), vec![k0, k0]);
}

#[test]
fn hash_dispatch_skips_invalid_and_empty() {
    let (x, _) = uniquely_hashable_pair();
    let mut reg = ServerStreamHandles::new(8);
    let k0 = reg.add();
    let _k1 = reg.add();
    reg.mark_invalid(k0);
    assert_eq!(reg.dispatch(&vec![x.clone()]), Vec::<u64>::new());

    let empty = ServerStreamHandles::new(8);
    assert_eq!(empty.dispatch(&vec![x]), Vec::<u64>::new());
}
