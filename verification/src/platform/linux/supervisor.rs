//! Children die with this process: on Linux the kernel does the job, per
//! spawn, so there is nothing to arm up front and no reaper to run.

use vstd::prelude::*;

verus! {

/// Nothing to arm up-front: the guarantee is established per spawn.
pub fn kill_children_with_us() {
}

/// Nothing to register: the child was armed before it exec'd.
pub fn watch_child(_pid: u32) {
}

/// The `--child-reaper` subprocess body: never needed on Linux.
pub fn run_reaper() {
}

/// The `--child-reaper` subprocess body, on every platform.
pub fn run_child_reaper() {
    run_reaper();
}

} // verus!
