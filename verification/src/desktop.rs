//! The desktop shell: where it looks for the graph server.
use vstd::prelude::*;

verus! {

/// The port the graph server listens on.
pub const SERVER_PORT: u16 = 9847;

/// The server binaries to try, in order: on the `PATH`, then the debug
/// builds of the workspace seen from the shell's usual working directories.
pub fn spawn_candidates() -> (r: Vec<String>)
    ensures
        r@.len() == 4,
        r@[0]@ == "graph-server"@,
        r@[1]@ == "../../target/debug/graph-server"@,
        r@[2]@ == "../../../target/debug/graph-server"@,
        r@[3]@ == "../../../../target/debug/graph-server"@,
{
    let mut r: Vec<String> = Vec::new();
    r.push("graph-server".to_owned());
    r.push("../../target/debug/graph-server".to_owned());
    r.push("../../../target/debug/graph-server".to_owned());
    r.push("../../../../target/debug/graph-server".to_owned());
    r
}

} // verus!
