use gilboost::tasks::TaskManager;

#[test]
fn spawn_tracks_distinct_handles() {
    let mut m: TaskManager<&str> = TaskManager::new();
    let a = m.spawn("a");
    let b = m.spawn("b");
    assert_ne!(a, b);
    assert_eq!(m.len(), 2);
    assert!(m.is_tracked(&a));
    assert!(m.is_tracked(&b));
}

#[test]
fn cancel_hands_back_the_signal_once() {
    let mut m: TaskManager<u32> = TaskManager::new();
    let a = m.spawn(11);
    assert_eq!(m.cancel(&a), Some(11));
    assert_eq!(m.cancel(&a), None);
    assert!(!m.is_tracked(&a));
    assert_eq!(m.len(), 0);
}

#[test]
fn restart_after_cancel_gives_a_new_handle() {
    let mut m: TaskManager<u32> = TaskManager::new();
    let first = m.spawn(1);
    assert_eq!(m.cancel(&first), Some(1));
    let (second, previous) = m.restart(&first, 2);
    assert_eq!(previous, None);
    assert_ne!(second, first);
    assert!(m.is_tracked(&second));
    assert!(!m.is_tracked(&first));
}

#[test]
fn restart_of_a_running_unit_cancels_it() {
    let mut m: TaskManager<u32> = TaskManager::new();
    let first = m.spawn(1);
    let (second, previous) = m.restart(&first, 2);
    assert_eq!(previous, Some(1));
    assert_ne!(second, first);
    assert_eq!(m.len(), 1);
    assert_eq!(m.cancel(&second), Some(2));
}

#[test]
fn handles_are_never_handed_out_twice() {
    let mut m: TaskManager<u32> = TaskManager::new();
    let mut seen: Vec<u128> = Vec::new();
    for i in 0..50u32 {
        let h = m.spawn(i);
        assert!(!seen.contains(&h));
        seen.push(h);
        assert_eq!(m.cancel(&h), Some(i));
    }
    assert_eq!(m.len(), 0);
}
