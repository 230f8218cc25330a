use vstd::prelude::*;

verus! {

/// The kinds of revision specification that select through a revision's parents.
#[derive(Debug, Copy, Clone, PartialEq, Eq, Structural)]
pub enum Kind {
    /// Include every commit of all parents of `a`, but not `a` itself. Example: `a^@`.
    IncludeReachableFromParents,
    /// Exclude every commit of all parents of `a`, but not `a` itself. Example: `a^!`.
    ExcludeReachableFromParents,
}

} // verus!
