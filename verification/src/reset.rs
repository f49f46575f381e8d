//! The soft reset: when the game is told to reload.

use vstd::prelude::*;

verus! {

/// What is known of the reset.
#[derive(Clone, Copy, PartialEq, Eq, Structural, Debug)]
pub struct Reset {
    /// The game's functions were found.
    pub ready: bool,
    pub requested: bool,
}

/// What was found of the game at startup.
#[derive(Clone, Copy, PartialEq, Eq, Structural, Debug)]
pub struct Found {
    pub class: bool,
    pub get_instance: bool,
    pub software_reset: bool,
    /// Both functions can be called.
    pub callable: bool,
}

/// Not ready, and nothing requested.
pub fn new_reset() -> (r: Reset)
    ensures
        r == (Reset { ready: false, requested: false }),
{
    Reset { ready: false, requested: false }
}

/// Whether a reset can be made.
pub fn is_ready(s: &Reset) -> (r: bool)
    ensures
        r == s.ready,
{
    s.ready
}

/// Request a reset; it is made at the next tick.
pub fn request(s: &mut Reset)
    ensures
        *final(s) == (Reset { requested: true, ..*old(s) }),
{
    s.requested = true;
}

/// How a yes or no is written.
pub open spec fn truth(b: bool) -> Seq<char> {
    if b {
        "true"@
    } else {
        "false"@
    }
}

/// Whether everything that a reset needs was found.
pub open spec fn complete(f: Found) -> bool {
    f.class && f.get_instance && f.software_reset && f.callable
}

/// Note what was found of the game. Returns a report.
pub fn install(s: &mut Reset, f: &Found) -> (r: String)
    ensures
        r@ == (if !f.class {
            "GameSystem class missing"@
        } else if !f.get_instance || !f.software_reset {
            "methods missing (get_Instance="@ + truth(f.get_instance) + " SoftwareReset="@ + truth(
                f.software_reset,
            ) + ")"@
        } else if !f.callable {
            "method pointers null"@
        } else {
            "OK"@
        }),
        *final(s) == (if complete(*f) {
            Reset { ready: true, ..*old(s) }
        } else {
            *old(s)
        }),
{
    if !f.class {
        return "GameSystem class missing".to_owned();
    }
    if !f.get_instance || !f.software_reset {
        let mut r: String = "methods missing (get_Instance=".to_owned();
        r.append(
            if f.get_instance {
                "true"
            } else {
                "false"
            },
        );
        r.append(" SoftwareReset=");
        r.append(
            if f.software_reset {
                "true"
            } else {
                "false"
            },
        );
        r.append(")");
        return r;
    }
    if !f.callable {
        return "method pointers null".to_owned();
    }
    s.ready = true;
    "OK".to_owned()
}

/// The main-thread tick: whether a reset is made now. `instance` says whether the game system is
/// there, `executing` whether a reset already runs.
pub fn poll(s: &mut Reset, instance: bool, executing: bool) -> (r: bool)
    ensures
        r == (old(s).requested && old(s).ready && instance && !executing),
        *final(s) == (Reset { requested: false, ..*old(s) }),
{
    let asked: bool = s.requested;
    s.requested = false;
    asked && s.ready && instance && !executing
}

/// A reset needs the class, both its functions and that they can be called.
pub proof fn lemma_complete(f: Found)
    ensures
        complete(f) <==> f.callable && f.class && f.get_instance && f.software_reset,
        truth(true) == "true"@,
        truth(false) == "false"@,
{
}

} // verus!
