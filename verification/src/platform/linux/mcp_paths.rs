//! Where the desktop MCP client keeps its config: it has no Linux build,
//! so there is no directory to find.

use vstd::prelude::*;

verus! {

/// The desktop client's config directory as found on disk: none here.
pub fn desktop_config_dir_on_disk() -> (r: Option<String>)
    ensures
        r is None,
{
    None
}

} // verus!
