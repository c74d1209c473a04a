//! The slot that remembers a handler registered with the system (an
//! exception handler, an event hook): installing is done at most once, and
//! uninstalling hands back what was installed.
use vstd::prelude::*;

verus! {

/// Why installing or uninstalling a handler failed.
#[derive(Clone, Copy, Debug, PartialEq, Eq, Structural)]
pub enum RegistrationError {
    /// The system refused to register the handler (it gave a null handle).
    RegisterFailed,
    /// No handler is installed.
    NotInstalled,
    /// The system refused to remove the handler.
    UnregisterFailed,
}

/// What installing asks of the caller.
#[derive(Clone, Copy, Debug, PartialEq, Eq, Structural)]
pub enum InstallStep {
    /// A handler is installed already: nothing to do.
    AlreadyInstalled,
    /// Register the handler with the system and report the handle.
    Register,
}

/// The handle of the installed handler, if one is installed.
pub struct Registration {
    pub handle: Option<usize>,
}

/// `after` and `r` are what reporting `handle` after registering gives from
/// `before`: a null handle is refused and changes nothing; any other is
/// installed.
pub open spec fn installed(before: Registration, handle: usize, after: Registration, r: Result<(), RegistrationError>) -> bool {
    if handle == 0 {
        r == Err::<(), RegistrationError>(RegistrationError::RegisterFailed) && after == before
    } else {
        r == Ok::<(), RegistrationError>(()) && after.handle == Some(handle)
    }
}

/// `after` and `r` are what starting to uninstall gives from `before`: the
/// installed handle, to remove, with the slot emptied; or an error where
/// nothing is installed.
pub open spec fn uninstalled(before: Registration, after: Registration, r: Result<usize, RegistrationError>) -> bool {
    match before.handle {
        Some(h) => r == Ok::<usize, RegistrationError>(h) && after.handle is None,
        None => r == Err::<usize, RegistrationError>(RegistrationError::NotInstalled) && after == before,
    }
}

impl Registration {
    /// An empty slot.
    pub fn new() -> (r: Registration)
        ensures
            r.handle is None,
    {
        Registration { handle: None }
    }

    /// The first step of installing: whether a handler must be registered.
    pub fn begin_install(&self) -> (r: InstallStep)
        ensures
            r == (if self.handle is Some {
                InstallStep::AlreadyInstalled
            } else {
                InstallStep::Register
            }),
    {
        match self.handle {
            Some(_) => InstallStep::AlreadyInstalled,
            None => InstallStep::Register,
        }
    }

    /// Records the handle that registering gave.
    pub fn finish_install(&mut self, handle: usize) -> (r: Result<(), RegistrationError>)
        ensures
            installed(*old(self), handle, *final(self), r),
    {
        if handle == 0 {
            Err(RegistrationError::RegisterFailed)
        } else {
            self.handle = Some(handle);
            Ok(())
        }
    }

    /// The first step of uninstalling: takes the installed handle out of the
    /// slot, for the caller to remove.
    pub fn begin_uninstall(&mut self) -> (r: Result<usize, RegistrationError>)
        ensures
            uninstalled(*old(self), *final(self), r),
    {
        match self.handle {
            Some(h) => {
                self.handle = None;
                Ok(h)
            },
            None => Err(RegistrationError::NotInstalled),
        }
    }
}

/// The outcome of removing a handler, from whether the system removed it.
pub fn finish_uninstall(removed: bool) -> (r: Result<(), RegistrationError>)
    ensures
        r == if removed {
            Ok::<(), RegistrationError>(())
        } else {
            Err(RegistrationError::UnregisterFailed)
        },
{
    if removed {
        Ok(())
    } else {
        Err(RegistrationError::UnregisterFailed)
    }
}

/// Uninstalling after a successful install hands back the installed handle
/// and leaves the slot empty; a second uninstall then fails.
pub proof fn law_uninstall_returns_installed(
    s0: Registration,
    handle: usize,
    s1: Registration,
    s2: Registration,
    r: Result<usize, RegistrationError>,
    s3: Registration,
    r2: Result<usize, RegistrationError>,
)
    requires
        installed(s0, handle, s1, Ok(())),
        uninstalled(s1, s2, r),
        uninstalled(s2, s3, r2),
    ensures
        r == Ok::<usize, RegistrationError>(handle),
        s2.handle is None,
        r2 == Err::<usize, RegistrationError>(RegistrationError::NotInstalled),
{
}

} // verus!
