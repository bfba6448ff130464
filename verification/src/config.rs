//! The options of a run and the records it hands out.
use vstd::prelude::*;

verus! {

/// The options of one run of the compiler and of the verification it
/// starts.
pub struct BuildConfig {
    pub no_rounds: usize,
    pub flag_json_sub: bool,
    pub flag_s: bool,
    pub flag_f: bool,
    pub flag_p: bool,
    pub flag_verbose: bool,
    pub flag_old_heuristics: bool,
    pub inspect_constraints: bool,
    /// The prime of the field, in decimal.
    pub prime: String,
    pub civer: bool,
    /// The time given to the solver for one obligation, in milliseconds.
    pub verification_timeout: u64,
    pub check_tags: bool,
    pub check_postconditions: bool,
    pub check_safety: bool,
    pub add_tags_info: bool,
    pub add_postconditions_info: bool,
    pub civer_file: String,
    pub initial_constraints_file: String,
    pub structure_file: String,
    pub apply_deduction_assigned: bool,
}

/// The options that the execution of a program looks at.
#[derive(Debug, Copy, Clone)]
pub struct FlagsExecution {
    pub verbose: bool,
    pub inspect: bool,
}

/// The options of the simplification of a constraint system.
pub struct SimplificationFlags {
    pub no_rounds: usize,
    pub flag_s: bool,
    pub parallel_flag: bool,
    pub port_substitution: bool,
    pub flag_old_heuristics: bool,
    pub prime: String,
}

/// One node of the tree of template instances, as it is written out: its
/// number in the pre-order walk of the tree, the numbers of its constraints,
/// its signals, and the numbers of the nodes below it.
#[derive(Debug)]
pub struct NodeInfo {
    pub node_id: usize,
    pub constraints: Vec<usize>,
    pub input_signals: Vec<usize>,
    pub output_signals: Vec<usize>,
    pub signals: Vec<usize>,
    pub successors: Vec<usize>,
}

} // verus!
