//! The local Agent CLIs a Work can run on.

use vstd::prelude::*;

verus! {

/// One official Provider CLI.
#[derive(Clone, Copy, Debug, PartialEq, Eq, Structural)]
pub enum Provider {
    Claude,
    Codex,
    Cursor,
}

pub open spec fn label_text(provider: Provider) -> Seq<char> {
    match provider {
        Provider::Claude => "Anthropic"@,
        Provider::Codex => "Codex"@,
        Provider::Cursor => "Cursor"@,
    }
}

impl Provider {
    /// The name a creator sees for this Provider.
    pub fn label(&self) -> (r: &'static str)
        ensures
            r@ == label_text(*self),
    {
        match self {
            Provider::Claude => "Anthropic",
            Provider::Codex => "Codex",
            Provider::Cursor => "Cursor",
        }
    }
}

} // verus!
