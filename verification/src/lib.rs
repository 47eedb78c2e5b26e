pub mod json;
pub mod merge;
pub mod text;
pub mod timeutil;
pub mod model;
pub mod codec;
pub mod oplog;
pub mod command;
pub mod engine;
pub mod anchor;
pub mod notes;
pub mod paths;
pub mod stage;
pub mod watch;
pub mod script;
pub mod mcp;
pub mod cutlist;
pub mod migrate;
pub mod cli;
pub mod state;
pub mod history;
pub mod lock;
pub mod sync;
pub mod scaffold;
pub mod dispatch;
pub mod shell;
pub mod http;
pub mod schema;

use vstd::prelude::*;

verus! {

/// An op id: `op-<n>`.
pub fn format_op_id(n: u64) -> (r: String)
    ensures
        r@ == "op-"@ + text::dec(n as nat),
{
    let mut s = "op-".to_string();
    text::push_dec(&mut s, n);
    s
}

/// A revision label: `rev-<n>`.
pub fn format_rev(n: u64) -> (r: String)
    ensures
        r@ == "rev-"@ + text::dec(n as nat),
{
    let mut s = "rev-".to_string();
    text::push_dec(&mut s, n);
    s
}

} // verus!
