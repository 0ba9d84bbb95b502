use vstd::prelude::*;
use crate::error::Error;

verus! {

/// The smallest alternate signal stack the handler runs on.
pub const MIN_STACK_SIZE: usize = 16384;

/// The signal code of a signal sent by `kill`.
pub const SI_USER: i32 = 0;

/// The signal code of a signal sent by `tkill` or `tgkill`.
pub const SI_TKILL: i32 = -6;

pub const SIGILL: i32 = 4;
pub const SIGTRAP: i32 = 5;
pub const SIGABRT: i32 = 6;
pub const SIGBUS: i32 = 7;
pub const SIGFPE: i32 = 8;
pub const SIGSEGV: i32 = 11;

/// Which mechanisms catch faults; on this platform only signals exist, so
/// every choice but `NoHandlers` installs the signal handlers.
#[derive(Debug, Clone, Copy, PartialEq, Eq, Structural)]
pub enum InstallOptions {
    NoHandlers,
    ExceptionHandler,
    SignalHandler,
    BothHandlers,
}

/// The fault signals the handler catches.
pub open spec fn handled_signals() -> Seq<i32> {
    seq![SIGSEGV, SIGABRT, SIGFPE, SIGILL, SIGBUS, SIGTRAP]
}

/// The fault signals the handler catches: segmentation fault, abort,
/// floating-point exception, illegal instruction, bus error and trap.
pub fn exception_signals() -> (r: Vec<i32>)
    ensures
        r@ == handled_signals(),
{
    let v: Vec<i32> = vec![SIGSEGV, SIGABRT, SIGFPE, SIGILL, SIGBUS, SIGTRAP];
    assert(v@ == handled_signals());
    v
}

/// Whether the options ask for signal handlers.
pub fn installs_signal_handlers(opts: InstallOptions) -> (r: bool)
    ensures
        r == (opts != InstallOptions::NoHandlers),
{
    match opts {
        InstallOptions::NoHandlers => false,
        _ => true,
    }
}

/// Holds when the alternate signal stack already in place can be kept: it is
/// enabled and at least `MIN_STACK_SIZE` bytes.
pub fn existing_stack_adequate(disabled: bool, size: usize) -> (r: bool)
    ensures
        r == (!disabled && size >= MIN_STACK_SIZE),
{
    !disabled && size >= MIN_STACK_SIZE
}

/// What the signal entry routine does first.
#[derive(Debug, Clone, Copy, PartialEq, Eq, Structural)]
pub enum EntryAction {
    /// The handler was reinstalled through the one-argument API, so the
    /// signal information is bogus: install it again with full information
    /// and return, letting the kernel deliver the signal anew.
    Reinstall,
    /// The signal information is sound: dispatch to the attached handlers.
    Dispatch,
}

/// Decides what the signal entry routine does, from whether the handler
/// currently installed is this one and whether it was installed to receive
/// full signal information.
pub fn signal_entry_action(installed_is_ours: bool, has_siginfo_flag: bool) -> (r: EntryAction)
    ensures
        r == (if installed_is_ours && !has_siginfo_flag { EntryAction::Reinstall } else { EntryAction::Dispatch }),
{
    if installed_is_ours && !has_siginfo_flag { EntryAction::Reinstall } else { EntryAction::Dispatch }
}

/// What the signal entry routine does after dispatching.
#[derive(Debug, Clone, Copy, PartialEq, Eq, Structural)]
pub struct ExitPlan {
    /// Restore the default disposition (the dump was written); otherwise
    /// restore the dispositions saved before the handlers were installed.
    pub restore_default: bool,
    /// Send the signal again to the current thread; otherwise return and let
    /// the fault happen again.
    pub reraise: bool,
}

/// Decides how the signal is let through after dispatch: signals sent
/// explicitly (code at most zero) and aborts are sent again, hardware faults
/// retrigger by themselves.
pub fn exit_plan(handled: bool, sig: i32, si_code: i32) -> (r: ExitPlan)
    ensures
        r.restore_default == handled,
        r.reraise == (si_code <= 0 || sig == SIGABRT),
{
    ExitPlan { restore_default: handled, reraise: si_code <= 0 || sig == SIGABRT }
}

/// Holds when the process lets itself be dumped for this signal: it came
/// from the kernel, or from this very process by `kill` or `tgkill`.
pub fn allows_dump(si_code: i32, sender_pid: u32, own_pid: u32) -> (r: bool)
    ensures
        r == (si_code > 0 || ((si_code == SI_USER || si_code == SI_TKILL) && sender_pid == own_pid)),
{
    si_code > 0 || ((si_code == SI_USER || si_code == SI_TKILL) && sender_pid == own_pid)
}

/// What the process must do to its signal setup after a registry change.
#[derive(Debug, Clone, Copy, PartialEq, Eq, Structural)]
pub enum RegistryAction {
    /// Install the alternate stack and the handlers.
    Install,
    /// Restore the previous dispositions and free the alternate stack.
    Restore,
    Nothing,
}

/// The process-wide list of attached handler instances, by id, in the order
/// they were attached.
pub struct HandlerRegistry {
    handlers: Vec<u64>,
}

impl View for HandlerRegistry {
    type V = Seq<u64>;

    closed spec fn view(&self) -> Seq<u64> {
        self.handlers@
    }
}

impl HandlerRegistry {
    /// An empty registry.
    pub fn new() -> (r: Self)
        ensures
            r@ == Seq::<u64>::empty(),
    {
        HandlerRegistry { handlers: Vec::new() }
    }

    /// The number of attached handlers.
    pub fn len(&self) -> (r: usize)
        ensures
            r == self@.len(),
    {
        self.handlers.len()
    }

    /// Adds handler `id`; the signal setup is installed when it is the first.
    pub fn attach(&mut self, id: u64) -> (r: RegistryAction)
        ensures
            final(self)@ == old(self)@.push(id),
            r == (if old(self)@.len() == 0 { RegistryAction::Install } else { RegistryAction::Nothing }),
    {
        let first = self.handlers.len() == 0;
        self.handlers.push(id);
        if first { RegistryAction::Install } else { RegistryAction::Nothing }
    }

    /// Removes the first entry of handler `id`; the signal setup is restored
    /// when the registry becomes empty. Nothing happens for an id not attached.
    pub fn detach(&mut self, id: u64) -> (r: RegistryAction)
        ensures
            !old(self)@.contains(id) ==> final(self)@ == old(self)@ && r == RegistryAction::Nothing,
            old(self)@.contains(id) ==> exists|i: int|
                0 <= i < old(self)@.len() && old(self)@[i] == id && (forall|j: int| 0 <= j < i ==> old(self)@[j] != id)
                    && final(self)@ == old(self)@.remove(i),
            old(self)@.contains(id) ==> r == (if final(self)@.len() == 0 { RegistryAction::Restore } else { RegistryAction::Nothing }),
    {
        let mut i: usize = 0;
        while i < self.handlers.len()
            invariant
                i <= self.handlers@.len(),
                self.handlers@ == old(self).handlers@,
                forall|j: int| 0 <= j < i ==> self.handlers@[j] != id,
            decreases self.handlers@.len() - i,
        {
            if self.handlers[i] == id {
                self.handlers.remove(i);
                if self.handlers.len() == 0 {
                    return RegistryAction::Restore;
                }
                return RegistryAction::Nothing;
            }
            i = i + 1;
        }
        RegistryAction::Nothing
    }
}

/// The process-wide guard that lets one crash handler be attached at a time.
pub struct AttachGuard {
    attached: bool,
}

impl AttachGuard {
    pub closed spec fn is_attached(&self) -> bool {
        self.attached
    }

    /// A guard with no handler attached.
    pub fn new() -> (r: Self)
        ensures
            !r.is_attached(),
    {
        AttachGuard { attached: false }
    }

    /// Claims the guard for a new handler; fails when one is attached.
    pub fn attach(&mut self) -> (r: Result<(), Error>)
        ensures
            final(self).is_attached(),
            old(self).is_attached() <==> r == Err::<(), Error>(Error::HandlerAlreadyRegistered),
            !old(self).is_attached() <==> r is Ok,
    {
        if self.attached {
            return Err(Error::HandlerAlreadyRegistered);
        }
        self.attached = true;
        Ok(())
    }

    /// Releases the guard when the attached handler goes away.
    pub fn detach(&mut self)
        ensures
            !final(self).is_attached(),
    {
        self.attached = false;
    }
}


/// What a user of the library runs once a dump was attempted, with the path
/// of the dump file, or `None` when writing it failed.
pub trait CrashEvent {
    fn on_crash(&self, minidump_path: Option<String>);
}

/// One attached handler instance, known to the registry by its id.
pub struct ExceptionHandler {
    pub id: u64,
}

impl ExceptionHandler {
    /// Attaches a handler with id `id`; the signal setup is installed when it
    /// is the first.
    pub fn attach(registry: &mut HandlerRegistry, id: u64) -> (r: (ExceptionHandler, RegistryAction))
        ensures
            r.0.id == id,
            final(registry)@ == old(registry)@.push(id),
            r.1 == (if old(registry)@.len() == 0 { RegistryAction::Install } else { RegistryAction::Nothing }),
    {
        let action = registry.attach(id);
        (ExceptionHandler { id }, action)
    }

    /// Detaches the handler; the signal setup is restored when it was the last.
    pub fn detach(self, registry: &mut HandlerRegistry) -> (r: RegistryAction)
        ensures
            !old(registry)@.contains(self.id) ==> final(registry)@ == old(registry)@ && r == RegistryAction::Nothing,
            old(registry)@.contains(self.id) ==> exists|i: int|
                0 <= i < old(registry)@.len() && old(registry)@[i] == self.id && (forall|j: int| 0 <= j < i ==> old(registry)@[j] != self.id)
                    && final(registry)@ == old(registry)@.remove(i),
            old(registry)@.contains(self.id) ==> r == (if final(registry)@.len() == 0 { RegistryAction::Restore } else { RegistryAction::Nothing }),
    {
        registry.detach(self.id)
    }
}

} // verus!
