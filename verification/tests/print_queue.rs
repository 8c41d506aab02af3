use blog_os_fb::task::print_queue::{add_print_job, PollAction, PrintQueueStream, PRINT_QUEUE_CAPACITY};

#[test]
fn jobs_come_out_in_order() {
    let mut q = PrintQueueStream::new();
    assert!(add_print_job(&mut q, "Hello from the print queue!\n"));
    assert!(add_print_job(&mut q, "async number: 42"));
    assert!(matches!(q.poll_next(false), PollAction::Ready("Hello from the print queue!\n")));
    assert!(matches!(q.poll_next(false), PollAction::Ready("async number: 42")));
    assert!(matches!(q.poll_next(false), PollAction::RegisterWaker));
}

#[test]
fn empty_queue_waits_after_registering() {
    let mut q = PrintQueueStream::new();
    assert!(matches!(q.poll_next(false), PollAction::RegisterWaker));
    assert!(matches!(q.poll_next(true), PollAction::Pending));
    assert!(add_print_job(&mut q, "late"));
    assert!(matches!(q.poll_next(true), PollAction::ReadyTakeWaker("late")));
}

#[test]
fn full_queue_drops_jobs() {
    let mut q = PrintQueueStream::new();
    let names: Vec<&'static str> =
        (0..PRINT_QUEUE_CAPACITY).map(|i| &*Box::leak(format!("job {}", i).into_boxed_str())).collect();
    for s in &names {
        assert!(add_print_job(&mut q, s));
    }
    assert_eq!(PRINT_QUEUE_CAPACITY, 128);
    assert!(!add_print_job(&mut q, "dropped"));
    for s in &names {
        match q.poll_next(false) {
            PollAction::Ready(t) => assert_eq!(t, *s),
            other => panic!("unexpected {:?}", other),
        }
    }
    assert!(matches!(q.poll_next(false), PollAction::RegisterWaker));
    assert!(add_print_job(&mut q, "room again"));
}
