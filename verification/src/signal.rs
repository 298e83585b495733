//! Signals to the processes of running tasks.

use vstd::prelude::*;
use nix::errno::Errno;

verus! {

/// Calls `nix::sys::signal::kill` with `SIGTERM` on the process `pid`, and
/// hands back the error's errno value when it fails. Whether the system
/// delivers the signal, or refuses it, depends on the system and is not
/// stated.
#[verifier::external_body]
pub(crate) fn send_sigterm(pid: i32) -> (r: Result<(), i32>) {
    match nix::sys::signal::kill(nix::unistd::Pid::from_raw(pid), nix::sys::signal::Signal::SIGTERM) {
        Ok(()) => Ok(()),
        Err(e) => Err(e as i32),
    }
}

/// What the `Display` of nix's `Errno` writes for the error with this errno
/// value: its name, a colon, a space and a fixed description, the same for
/// the same value on the platform the library is built for.
pub uninterp spec fn errno_display(code: i32) -> Seq<char>;

/// Calls `to_string` on the `Errno` with this errno value, as
/// [`errno_display`] names it.
#[verifier::external_body]
pub(crate) fn errno_text(code: i32) -> (s: String)
    ensures
        s@ == errno_display(code),
{
    Errno::from_raw(code).to_string()
}

} // verus!
