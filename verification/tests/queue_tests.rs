use megadrive_rt::dma::DMACommand;
use megadrive_rt::queue::DmaQueue;
use megadrive_rt::vdp::VRAMAddress;

fn cmd(tag: u8) -> DMACommand {
    DMACommand::new_fill(VRAMAddress::from_word_addr(tag as u16), 0x10, tag, None)
}

#[test]
fn ring_boundary_full_and_reopen() {
    // Capacity N: after N successful pushes the ring is full, the next push
    // fails handing back the exact value, and one pop reopens it.
    let n: u8 = 4;
    let mut q = DmaQueue::new(n);
    assert!(q.is_empty());
    for i in 0..n {
        assert!(q.push_back(cmd(i)).is_ok());
    }
    assert!(q.is_full());
    let extra = cmd(99);
    let rejected = q.push_back(extra);
    assert_eq!(rejected, Err(extra));
    assert_eq!(q.pop_front(), Some(cmd(0)));
    assert!(!q.is_full());
    assert!(q.push_back(extra).is_ok());
    assert!(q.is_full());
}

#[test]
fn ring_wraparound_indices() {
    // Push/pop across the index wrap at capacity - 1 and 0.
    let mut q = DmaQueue::new(3);
    assert!(q.push_back(cmd(1)).is_ok());
    assert!(q.push_back(cmd(2)).is_ok());
    assert_eq!(q.pop_front(), Some(cmd(1)));
    assert!(q.push_back(cmd(3)).is_ok());
    assert!(q.push_back(cmd(4)).is_ok());
    assert!(q.is_full());
    assert_eq!(q.pop_front(), Some(cmd(2)));
    assert_eq!(q.pop_front(), Some(cmd(3)));
    assert_eq!(q.pop_front(), Some(cmd(4)));
    assert_eq!(q.pop_front(), None);
    assert!(q.is_empty());
}

#[test]
fn fifo_order_front_pops() {
    // Pushing A, B, C at the back then popping the front yields A, B, C.
    let (a, b, c) = (cmd(10), cmd(20), cmd(30));
    let mut q = DmaQueue::new(8);
    assert!(q.push_back(a).is_ok());
    assert!(q.push_back(b).is_ok());
    assert!(q.push_back(c).is_ok());
    assert_eq!(q.pop_front(), Some(a));
    assert_eq!(q.pop_front(), Some(b));
    assert_eq!(q.pop_front(), Some(c));
    assert_eq!(q.pop_front(), None);
}

#[test]
fn lifo_order_back_pops() {
    // Popping the back instead yields C, B, A.
    let (a, b, c) = (cmd(10), cmd(20), cmd(30));
    let mut q = DmaQueue::new(8);
    assert!(q.push_back(a).is_ok());
    assert!(q.push_back(b).is_ok());
    assert!(q.push_back(c).is_ok());
    assert_eq!(q.pop_back(), Some(c));
    assert_eq!(q.pop_back(), Some(b));
    assert_eq!(q.pop_back(), Some(a));
    assert_eq!(q.pop_back(), None);
}

#[test]
fn push_front_precedes() {
    let (a, b) = (cmd(1), cmd(2));
    let mut q = DmaQueue::new(4);
    assert!(q.push_back(a).is_ok());
    assert!(q.push_front(b).is_ok());
    assert_eq!(q.pop_front(), Some(b));
    assert_eq!(q.pop_front(), Some(a));
}

#[test]
fn push_front_full_rejects() {
    let mut q = DmaQueue::new(1);
    assert!(q.push_front(cmd(1)).is_ok());
    let v = cmd(2);
    assert_eq!(q.push_front(v), Err(v));
    assert_eq!(q.capacity(), 1);
}

#[test]
fn unchecked_ops_match_checked() {
    let mut q = DmaQueue::new(2);
    q.push_back_unchecked(cmd(5));
    q.push_front_unchecked(cmd(6));
    assert!(q.is_full());
    assert_eq!(q.pop_front_unchecked(), cmd(6));
    assert_eq!(q.pop_back_unchecked(), cmd(5));
    assert!(q.is_empty());
}
