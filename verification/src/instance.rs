//! Single-instance decisions: which kind of Wave process holds the primary
//! lock, and what to tell a second one.

use vstd::prelude::*;

use crate::text::{decimal, decimal_string, push_str};

verus! {

/// The kind of process holding the primary-instance lock.
#[derive(Clone, Copy, PartialEq, Eq, Structural, Debug)]
pub enum InstanceMode {
    Gui,
    Daemon,
}

/// What the lock file says about its holder, and whether that process is
/// still alive.
#[derive(Clone, Copy, PartialEq, Eq, Structural, Debug)]
pub struct LockHolder {
    pub pid: u32,
    pub mode: InstanceMode,
    pub alive: bool,
}

/// Whether a primary Wave instance (GUI or daemon) appears to be running.
pub fn primary_is_running(holder: Option<LockHolder>) -> (r: bool)
    ensures
        r == (holder matches Some(h) && h.alive),
{
    match holder {
        Some(h) => h.alive,
        None => false,
    }
}

/// Whether the desktop GUI instance holds the primary lock.
pub fn gui_is_running(holder: Option<LockHolder>) -> (r: bool)
    ensures
        r == (holder matches Some(h) && h.mode == InstanceMode::Gui && h.alive),
{
    match holder {
        Some(h) => h.mode == InstanceMode::Gui && h.alive,
        None => false,
    }
}

/// Whether only the CLI playback daemon holds the primary lock.
pub fn daemon_is_running(holder: Option<LockHolder>) -> (r: bool)
    ensures
        r == (holder matches Some(h) && h.mode == InstanceMode::Daemon && h.alive),
{
    match holder {
        Some(h) => h.mode == InstanceMode::Daemon && h.alive,
        None => false,
    }
}

/// How a mode is named to the user.
pub open spec fn mode_label(mode: InstanceMode) -> Seq<char> {
    match mode {
        InstanceMode::Gui => "desktop app"@,
        InstanceMode::Daemon => "CLI playback daemon"@,
    }
}

/// The message for a second instance.
pub open spec fn running_message(holder: Option<LockHolder>) -> Seq<char> {
    match holder {
        Some(h) => if h.alive {
            "Wave is already running ("@ + mode_label(h.mode) + ", pid "@ + decimal(h.pid as nat)
                + "). Quit the existing instance first."@
        } else {
            "Wave is already running. Quit the existing instance first."@
        },
        None => "Wave is already running. Quit the existing instance first."@,
    }
}

/// The message shown when the primary lock is taken: names the live holder
/// when the lock file identifies one.
pub fn already_running_message(holder: Option<LockHolder>) -> (r: String)
    ensures
        r@ == running_message(holder),
{
    if let Some(h) = holder {
        if h.alive {
            let mut out = String::from_str("Wave is already running (");
            match h.mode {
                InstanceMode::Gui => push_str(&mut out, "desktop app"),
                InstanceMode::Daemon => push_str(&mut out, "CLI playback daemon"),
            }
            push_str(&mut out, ", pid ");
            push_str(&mut out, decimal_string(h.pid as u64).as_str());
            push_str(&mut out, "). Quit the existing instance first.");
            return out;
        }
    }
    String::from_str("Wave is already running. Quit the existing instance first.")
}

} // verus!
