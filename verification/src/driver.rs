//! The decisions of the command-line tool that runs the analysis on the
//! bodies of a crate.
use vstd::prelude::*;

verus! {

/// Whether to analyse a body: not one with a loop where bodies with loops
/// are skipped, and not one with more basic blocks than the limit, if there
/// is one.
pub fn should_check_body(skip_bodies_with_loops: bool, max_basic_blocks: Option<usize>, body_is_cyclic: bool,
    basic_block_count: usize) -> (b: bool)
    ensures
        b == (!(skip_bodies_with_loops && body_is_cyclic) && match max_basic_blocks {
            Some(len) => basic_block_count <= len,
            None => true,
        }),
{
    if skip_bodies_with_loops && body_is_cyclic {
        return false;
    }
    match max_basic_blocks {
        Some(len) => basic_block_count <= len,
        None => true,
    }
}

} // verus!
