use crash_capture::error::Error;
use crash_capture::handler::{
    allows_dump, exception_signals, exit_plan, existing_stack_adequate, signal_entry_action,
    AttachGuard, EntryAction, ExceptionHandler, HandlerRegistry, RegistryAction, SIGABRT, SIGSEGV,
};

#[test]
fn only_one_handler_attaches() {
    let mut guard = AttachGuard::new();
    assert_eq!(guard.attach(), Ok(()));
    assert_eq!(guard.attach(), Err(Error::HandlerAlreadyRegistered));
    guard.detach();
    assert_eq!(guard.attach(), Ok(()));
}

#[test]
fn registry_installs_first_and_restores_last() {
    let mut reg = HandlerRegistry::new();
    assert_eq!(reg.attach(1), RegistryAction::Install);
    assert_eq!(reg.attach(2), RegistryAction::Nothing);
    assert_eq!(reg.detach(3), RegistryAction::Nothing);
    assert_eq!(reg.detach(1), RegistryAction::Nothing);
    assert_eq!(reg.len(), 1);
    assert_eq!(reg.detach(2), RegistryAction::Restore);
    assert_eq!(reg.len(), 0);
}

#[test]
fn signals_and_rethrow_policy() {
    assert_eq!(exception_signals(), vec![11, 6, 8, 4, 7, 5]);
    let fault = exit_plan(true, SIGSEGV, 1);
    assert!(fault.restore_default && !fault.reraise);
    let killed = exit_plan(false, SIGSEGV, 0);
    assert!(!killed.restore_default && killed.reraise);
    assert!(exit_plan(true, SIGABRT, 3).reraise);
    assert_eq!(signal_entry_action(true, false), EntryAction::Reinstall);
    assert_eq!(signal_entry_action(true, true), EntryAction::Dispatch);
    assert_eq!(signal_entry_action(false, false), EntryAction::Dispatch);
}

#[test]
fn alternate_stack_and_dump_permission() {
    assert!(existing_stack_adequate(false, 16384));
    assert!(!existing_stack_adequate(false, 16383));
    assert!(!existing_stack_adequate(true, 1 << 20));
    assert!(allows_dump(1, 0, 5));
    assert!(allows_dump(0, 5, 5));
    assert!(allows_dump(-6, 5, 5));
    assert!(!allows_dump(0, 4, 5));
    assert!(!allows_dump(-1, 5, 5));
}

#[test]
fn handlers_attach_and_detach_in_any_order() {
    let mut reg = HandlerRegistry::new();
    let (a, first) = ExceptionHandler::attach(&mut reg, 10);
    let (b, second) = ExceptionHandler::attach(&mut reg, 11);
    assert_eq!(first, RegistryAction::Install);
    assert_eq!(second, RegistryAction::Nothing);
    assert_eq!(a.detach(&mut reg), RegistryAction::Nothing);
    assert_eq!(b.detach(&mut reg), RegistryAction::Restore);
}
