//! Which of a box of interchangeable tools an event goes to.

use vstd::prelude::*;

verus! {

/// The tool that receives an event in a box of `n_tools` tools. An empty
/// box has none. A box that holds tools gives the selection as it is,
/// whether or not it names one of them, and the first tool where nothing
/// is selected.
pub open spec fn active_tool(selected: Option<usize>, n_tools: usize) -> Option<usize> {
    if n_tools == 0 {
        None
    } else {
        match selected {
            Some(i) => Some(i),
            None => Some(0),
        }
    }
}

/// Gets the active tool of a box of `n_tools` tools. If None is selected,
/// it returns the first one. Returns None if the box has no tools.
///
/// The selection is handed on unchecked: the tool that is returned is one
/// of the box where nothing was selected or the selection named one.
pub fn get_active_tool(selected: Option<usize>, n_tools: usize) -> (tool: Option<usize>)
    ensures
        tool == active_tool(selected, n_tools),
        tool is None <==> n_tools == 0,
        (selected matches Some(chosen) ==> chosen < n_tools) ==> (tool matches Some(i) ==> i
            < n_tools),
{
    if n_tools == 0 {
        None
    } else {
        match selected {
            Some(i) => Some(i),
            None => Some(0),
        }
    }
}

} // verus!
