//! The arguments of the commands that edit or create a declaration.

use vstd::prelude::*;

verus! {

/// Arguments of `init`: an optional session name, and whether an existing file may be replaced.
#[derive(Debug, Clone)]
pub struct InitArgs {
    pub name: Option<String>,
    pub overwrite: bool,
}

/// Arguments of `window add`: an optional window name, the command and its arguments.
#[derive(Debug, Clone)]
pub struct WindowAddArgs {
    pub name: Option<String>,
    pub cmd: String,
    pub args: Vec<String>,
}

/// Arguments of `window remove`: the name of the window to remove.
#[derive(Debug, Clone)]
pub struct WindowRemoveArgs {
    pub name: Option<String>,
}

} // verus!
