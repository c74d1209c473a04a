use text_hook::fetch::{
    fetch_step, finish_fetch, initial_capacity, needs_text_conversion, report_class_name,
    report_truncating, report_window_text, report_with_required, FetchError, FetchResult,
    FetchStep,
};
use text_hook::interner::Interner;
use text_hook::registration::{finish_uninstall, InstallStep, Registration, RegistrationError};
use text_hook::worker::{worker_next, LoopAction, WorkerNext};

#[test]
fn fetch_steps() {
    assert_eq!(initial_capacity(), 512);
    assert_eq!(fetch_step(512, FetchResult::Success(10)), FetchStep::Done(10));
    assert_eq!(fetch_step(512, FetchResult::Required(1024)), FetchStep::Grow(1024));
    assert_eq!(fetch_step(512, FetchResult::Retry), FetchStep::Grow(1024));
    assert_eq!(fetch_step(usize::MAX, FetchResult::Retry), FetchStep::Fail(FetchError::Overflow));
    assert_eq!(fetch_step(512, FetchResult::Error(5)), FetchStep::Fail(FetchError::Failed(5)));
}

#[test]
fn fetch_reports() {
    assert_eq!(report_with_required(0, 512, 3), FetchResult::Error(3));
    assert_eq!(report_with_required(600, 512, 0), FetchResult::Required(600));
    assert_eq!(report_with_required(12, 512, 0), FetchResult::Success(12));
    assert_eq!(report_truncating(512, 512, 0), FetchResult::Retry);
    assert_eq!(report_truncating(511, 512, 0), FetchResult::Success(511));
    assert_eq!(report_window_text(0, 512, 0), FetchResult::Success(0));
    assert_eq!(report_window_text(0, 512, 6), FetchResult::Error(6));
    assert_eq!(report_window_text(511, 512, 0), FetchResult::Retry);
    assert_eq!(report_class_name(0, 512, 0), FetchResult::Error(0));
    assert_eq!(report_class_name(10, 512, 0), FetchResult::Success(10));
}

#[test]
fn fetched_strings_trimmed() {
    assert_eq!(finish_fetch(&[1u16, 2, 0, 0], 4, false, 0), vec![1, 2]);
    assert_eq!(finish_fetch(&[1u16, 2, 0, 0], 2, true, 0), vec![1, 2, 0]);
    assert_eq!(finish_fetch(&[1u16, 0], 2, true, 0), vec![1, 0]);
    assert_eq!(finish_fetch(&[0u8, 0], 2, false, 0), Vec::<u8>::new());
    assert_eq!(finish_fetch(&[5u8], 0, true, 0), vec![0]);
}

#[test]
fn text_messages() {
    assert!(needs_text_conversion(0x0143));
    assert!(needs_text_conversion(0x0189));
    assert!(needs_text_conversion(0x01A2));
    assert!(!needs_text_conversion(0x0100));
    assert!(!needs_text_conversion(0x0144));
}

#[test]
fn worker_decisions() {
    assert_eq!(LoopAction::default(), LoopAction::Continue);
    assert_eq!(worker_next(true, Some(LoopAction::Continue)), WorkerNext::Quit);
    assert_eq!(worker_next(false, Some(LoopAction::Continue)), WorkerNext::Render);
    assert_eq!(worker_next(false, Some(LoopAction::Exit)), WorkerNext::Stop);
    assert_eq!(worker_next(false, None), WorkerNext::Skip);
}

#[test]
fn interning_is_stable() {
    let mut i = Interner::new();
    assert_eq!(i.len(), 0);
    let a = i.intern(b"ab");
    let c = i.intern(b"cd");
    let a2 = i.intern(b"ab");
    assert_eq!(a, 0);
    assert_eq!(c, 1);
    assert_eq!(a2, a);
    assert_eq!(i.len(), 2);
    assert_eq!(i.get(c), b"cd");
    assert_eq!(i.intern(b""), 2);
}

#[test]
fn handler_slot_installs_once_and_uninstalls_what_it_installed() {
    let mut slot = Registration::new();
    assert_eq!(slot.begin_uninstall(), Err(RegistrationError::NotInstalled));
    assert_eq!(slot.begin_install(), InstallStep::Register);
    assert_eq!(slot.finish_install(0), Err(RegistrationError::RegisterFailed));
    assert_eq!(slot.handle, None);
    assert_eq!(slot.finish_install(0x1234), Ok(()));
    assert_eq!(slot.begin_install(), InstallStep::AlreadyInstalled);
    assert_eq!(slot.begin_uninstall(), Ok(0x1234));
    assert_eq!(slot.handle, None);
    assert_eq!(slot.begin_uninstall(), Err(RegistrationError::NotInstalled));
    assert_eq!(finish_uninstall(true), Ok(()));
    assert_eq!(finish_uninstall(false), Err(RegistrationError::UnregisterFailed));
}
