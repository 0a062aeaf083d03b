use lilith_kernel::error::KernelError;
use lilith_kernel::interrupt::{
    interrupt_init, pic_init_writes, DispatchAction, InterruptDispatcher, SYSCALL_VECTOR, TIMER_VECTOR,
};

#[test]
fn install_overwrites_and_dispatch_routes() {
    let mut d = InterruptDispatcher::new();
    d.install(SYSCALL_VECTOR, 4);
    d.install(SYSCALL_VECTOR, 5);
    assert_eq!(d.handler(SYSCALL_VECTOR), Some(5));
    assert_eq!(d.dispatch(SYSCALL_VECTOR), DispatchAction::Handle(5));
    d.end_dispatch();
}

#[test]
fn unregistered_vectors_use_default_handler() {
    let mut d = interrupt_init().unwrap();
    assert_eq!(d.dispatch(14), DispatchAction::Fatal(14));
    d.end_dispatch();
    assert_eq!(d.dispatch(200), DispatchAction::Unhandled(200));
    d.end_dispatch();
}

#[test]
fn masked_lines_are_suppressed() {
    let mut d = InterruptDispatcher::new();
    d.install(TIMER_VECTOR, 0);
    assert!(d.is_masked(0));
    assert_eq!(d.dispatch(TIMER_VECTOR), DispatchAction::Suppressed);
    assert_eq!(d.enable_line(0), Ok(()));
    assert!(!d.is_masked(0));
    assert_eq!(d.dispatch(TIMER_VECTOR), DispatchAction::Handle(0));
    d.end_dispatch();
    assert_eq!(d.disable_line(0), Ok(()));
    assert_eq!(d.dispatch(TIMER_VECTOR), DispatchAction::Suppressed);
    assert_eq!(d.enable_line(16), Err(KernelError::InvalidArgument));
    assert_eq!(d.disable_line(200), Err(KernelError::InvalidArgument));
}

#[test]
fn dispatch_does_not_nest() {
    let mut d = InterruptDispatcher::new();
    d.install(SYSCALL_VECTOR, 1);
    d.install(3, 2);
    assert_eq!(d.dispatch(SYSCALL_VECTOR), DispatchAction::Handle(1));
    assert_eq!(d.dispatch(3), DispatchAction::Suppressed);
    d.end_dispatch();
    assert_eq!(d.dispatch(3), DispatchAction::Handle(2));
}

#[test]
fn pic_remap_and_masks() {
    assert_eq!(
        pic_init_writes(),
        vec![(0x20, 0x11), (0xA0, 0x11), (0x21, 0x20), (0xA1, 0x28), (0x21, 0x04), (0xA1, 0x02), (0x21, 0x01), (0xA1, 0x01)]
    );
    let mut d = InterruptDispatcher::new();
    assert_eq!(d.pic_masks(), (0xff, 0xff));
    d.enable_line(0).unwrap();
    d.enable_line(1).unwrap();
    d.enable_line(12).unwrap();
    assert_eq!(d.pic_masks(), (0xfc, 0xef));
}
