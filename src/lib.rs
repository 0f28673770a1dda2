//! Weighted call-graph extraction over a compiler's control-flow IR.
//!
//! The crate resolves, for every call site of every function body, the
//! concrete callees (through copies, moves, references, casts, closures,
//! constants, statics and conditional branches) and records them in a
//! graph whose edges carry the ownership mode and weight of each argument.
use vstd::prelude::*;

pub mod args;
pub mod codec;
pub mod context;
pub mod graph;
pub mod resolver;
pub mod ir;
pub mod text;
pub mod text_mod;
pub mod visitor;
pub mod weights;

use crate::text_mod::TextMod;

verus! {

/// The options of one run.
pub struct CliArgs {
    /// Colour the log messages.
    pub color_log: bool,
    /// Analyse the unoptimised IR.
    pub use_unoptimized_mir: bool,
    /// Print the unit's syntax tree.
    pub print_crate: bool,
    /// Print the IR.
    pub print_mir: bool,
    /// Print the call graph as DOT.
    pub print_rl_graph: bool,
    /// Print the serialised call graph.
    pub print_serialized_rl_graph: bool,
    /// Analyse only the unit that holds this file.
    pub filter_with_file: Option<String>,
    /// Arguments handed on to cargo.
    pub cargo_args: Vec<String>,
}

impl CliArgs {
    /// `msg`, coloured with `text_mod` when coloured logs are on.
    pub fn modify_if_needed(&self, msg: &str, text_mod: TextMod) -> (r: String)
        ensures
            r@ == (if self.color_log { text_mod.escape() + msg@ + TextMod::Reset.escape() } else { msg@ }),
    {
        if self.color_log {
            text_mod.apply(msg)
        } else {
            String::from_str(msg)
        }
    }
}

/// The plugin: its version and the name of its compiler driver.
pub struct RustyLinks {}

impl RustyLinks {
    pub fn version(&self) -> (r: String)
        ensures
            r@ == "0.1.0"@,
    {
        String::from_str("0.1.0")
    }

    pub fn driver_name(&self) -> (r: String)
        ensures
            r@ == "rusty-links-driver"@,
    {
        String::from_str("rusty-links-driver")
    }
}

} // verus!
