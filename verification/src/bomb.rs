//! The guard that makes a forgotten node marker fatal.
//!
//! A `DropBomb` panics when it is dropped without having been defused. What
//! this module states of it is taken on trust from the `drop_bomb` crate;
//! nothing here is proved.

use vstd::prelude::*;
use drop_bomb::DropBomb;

verus! {

#[verifier::external_type_specification]
#[verifier::external_body]
pub struct ExDropBomb(drop_bomb::DropBomb);

/// Whether `bomb` has been defused, so that dropping it does nothing.
pub uninterp spec fn bomb_defused(bomb: DropBomb) -> bool;

/// Calls `DropBomb::new`. The crate builds the bomb with its flag cleared:
/// the bomb that comes back is not defused, and panics with the message
/// given here if it is dropped as it is.
#[verifier::external_body]
pub(crate) fn armed_bomb() -> (bomb: DropBomb)
    ensures
        !bomb_defused(bomb),
{
    DropBomb::new("failed to call end or cancel")
}

/// Calls `DropBomb::defuse`, which sets the bomb's flag: afterwards the bomb
/// is defused, whatever it was before.
#[verifier::external_body]
pub(crate) fn defuse_bomb(bomb: &mut DropBomb)
    ensures
        bomb_defused(*final(bomb)),
{
    bomb.defuse()
}

/// Calls `DropBomb::is_defused`, which reads the bomb's flag.
#[verifier::external_body]
pub(crate) fn bomb_is_defused(bomb: &DropBomb) -> (defused: bool)
    ensures
        defused == bomb_defused(*bomb),
{
    bomb.is_defused()
}

} // verus!
