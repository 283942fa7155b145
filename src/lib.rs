// A debugger for Cairo programs, driven over the debug adapter protocol.
//
// - `debug_info`: program counters, Sierra statements, source locations and breakpoint sites.
// - `call_stack`: logical call frames rebuilt from the stream of executed statements.
// - `state`: configuration and stop flags, and the breakpoints of each file.
// - `session`: the requests, their handling, and the decisions of a debugging session.
// - `labels`: readable labels for Sierra statements.
use vstd::prelude::*;

pub mod call_stack;
pub mod debug_info;
pub mod labels;
pub mod session;
pub mod state;

verus! {

} // verus!
