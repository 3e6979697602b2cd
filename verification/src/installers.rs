//! The agents and editors whose hooks can be installed: a closed set, fixed
//! when the library is built.

use vstd::prelude::*;

verus! {

/// An agent or editor that the tool can hook into.
#[derive(Debug, Clone, Copy, PartialEq, Eq, Structural, Hash)]
pub enum HookInstaller {
    ClaudeCode,
    Cursor,
    VSCode,
    OpenCode,
    Gemini,
}

/// All installers, in the order in which they are offered.
pub open spec fn all_installers() -> Seq<HookInstaller> {
    seq![
        HookInstaller::ClaudeCode,
        HookInstaller::Cursor,
        HookInstaller::VSCode,
        HookInstaller::OpenCode,
        HookInstaller::Gemini,
    ]
}

/// All installers, in the order in which they are offered.
pub fn get_all_installers() -> (r: Vec<HookInstaller>)
    ensures
        r@ == all_installers(),
{
    let mut r: Vec<HookInstaller> = Vec::new();
    r.push(HookInstaller::ClaudeCode);
    r.push(HookInstaller::Cursor);
    r.push(HookInstaller::VSCode);
    r.push(HookInstaller::OpenCode);
    r.push(HookInstaller::Gemini);
    assert(r@ =~= all_installers());
    r
}

} // verus!
