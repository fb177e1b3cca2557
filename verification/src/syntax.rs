//! The kinds of tokens and tree nodes.

use vstd::prelude::*;

verus! {

/// The closed set of kinds that tokens and tree nodes are classified by.
///
/// Two members are sentinels: [`SyntaxKind::Sentinel`] stands in a freshly
/// opened node until the grammar commits it to a kind, and
/// [`SyntaxKind::EndOfFile`] is what lookahead past the last token yields.
#[derive(Clone, Copy, Debug, PartialEq, Eq, Hash, Structural)]
pub enum SyntaxKind {
    ModuleKw,
    WhereKw,
    InstanceKw,
    Upper,
    Lower,
    Operator,
    Equal,
    LeftParenthesis,
    RightParenthesis,
    Integer,
    Number,
    Character,
    Text,
    Unknown,
    Module,
    ModuleName,
    ValueDeclaration,
    InstanceDeclaration,
    Sentinel,
    EndOfFile,
}

} // verus!
