//! The command-line operations, in the order the user wrote them.
//!
//! Each `--set-*`, `--add-*` or `--remove-*` option becomes one
//! [`OrderedOperation`]; [`crate::cli_run::build_runtime_settings`] applies
//! them from left to right.

use vstd::prelude::*;

verus! {

/// One occurrence of a stateful option and the value given to it.
#[derive(Debug, PartialEq)]
pub struct OrderedOperation {
    /// Which option was given.
    pub id: OperationId,
    /// The option's value, as written.
    pub value: String,
}

/// The stateful options: each replaces, extends or shrinks one setting.
#[derive(Debug, Clone, Copy, PartialEq, Eq, Structural)]
pub enum OperationId {
    SetPreferBare,
    AddPreferBare,
    RemovePreferBare,
    SetBareAsText,
    AddBareAsText,
    RemoveBareAsText,
    SetIgnore,
    AddIgnore,
    RemoveIgnore,
}

} // verus!
