use os_sim::cq::{MessageQueue, Mq};
use os_sim::process::{Process, State};
use os_sim::sem::{Sem, Semaphore};

#[test]
fn test_process_states() {
    let mut p = Process::new("init".to_owned(), 1);
    assert_eq!(p.name, "init");
    assert_eq!(p.pid, 1);
    assert_eq!(p.state, State::Ready);
    assert!(p.is_ready());
    p.run();
    assert_eq!(p.state, State::Running);
    assert!(!p.is_ready());
    p.block();
    assert_eq!(p.state, State::Blocked);
    p.terminate();
    assert_eq!(p.state, State::Terminated);
    assert_eq!(p.pid, 1);
    assert_eq!(p.name, "init");
}

#[test]
fn test_sem_counts() {
    let mut s = Sem::<3>::new();
    assert_eq!(s.status(), 1);
    s.wait();
    assert_eq!(s.status(), 0);
    s.signal();
    s.signal();
    assert_eq!(s.status(), 2);
    assert!(s.is_turn(2));
    assert!(!s.is_turn(1));
    assert_eq!(s.as_idx(), 1);
    s.set(-4);
    assert_eq!(s.status(), -4);
    let t = Sem::<3>::from(3);
    assert_eq!(t.status(), 3);
    assert_eq!(t.as_idx(), 2);
}

#[test]
fn test_sem_goes_round_the_turns() {
    let mut s = Sem::<3>::new();
    s.next();
    assert_eq!(s.status(), 2);
    s.next();
    assert_eq!(s.status(), 3);
    s.next();
    assert_eq!(s.status(), 1);
    s.set(7);
    s.next();
    assert_eq!(s.status(), 8);
}

#[test]
fn test_semaphore_says_when_to_block_and_to_wake() {
    let mut s = Semaphore::<2>::new();
    assert_eq!(s.status(), 2);
    assert!(!s.wait());
    assert!(!s.wait());
    assert_eq!(s.status(), 0);
    assert!(s.wait());
    assert!(s.wait());
    assert_eq!(s.status(), -2);
    assert!(s.signal());
    assert!(s.signal());
    assert_eq!(s.status(), 0);
    assert!(!s.signal());
    assert_eq!(s.status(), 1);
}

#[test]
fn test_message_queue_has_three_places() {
    let mut q = Mq::new();
    assert!(q.is_empty());
    assert_eq!(q.recv(), None);
    assert!(q.send('a'));
    assert!(!q.is_empty());
    assert!(q.send('b'));
    assert!(q.send('c'));
    assert!(!q.send('d'));
    assert_eq!(q.recv(), Some('a'));
    assert!(q.send('e'));
    assert_eq!(q.recv(), Some('b'));
    assert_eq!(q.recv(), Some('c'));
    assert_eq!(q.recv(), Some('e'));
    assert_eq!(q.recv(), None);
    assert!(q.is_empty());
}
