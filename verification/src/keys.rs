//! What a key does, independent of the platform that reported it.

use vstd::prelude::*;

verus! {

/// What kind of key was pressed.
#[derive(Debug, Clone, Copy, PartialEq, Eq, Structural)]
pub enum KeyClass {
    /// A key that types something.
    Text,
    /// A key that deletes something.
    Delete,
    /// A modifier, a lock, a mouse button: nothing that should emit particles.
    Ignore,
}

/// The two effects, each with its own settings.
#[derive(Debug, Clone, Copy, PartialEq, Eq, Structural)]
pub enum EmitKind {
    Typing,
    Deleting,
}

impl KeyClass {
    /// The effect of a key of this class.
    pub open spec fn effect(self) -> Option<EmitKind> {
        match self {
            KeyClass::Text => Some(EmitKind::Typing),
            KeyClass::Delete => Some(EmitKind::Deleting),
            KeyClass::Ignore => None,
        }
    }

    /// The effect that a key of this class sets off, if any.
    pub fn emit_kind(self) -> (kind: Option<EmitKind>)
        ensures
            kind == self.effect(),
    {
        match self {
            KeyClass::Text => Some(EmitKind::Typing),
            KeyClass::Delete => Some(EmitKind::Deleting),
            KeyClass::Ignore => None,
        }
    }
}

/// A key has an effect exactly if it is not to be ignored: deleting if it deletes, typing if it
/// types.
pub proof fn only_ignored_keys_have_no_effect(class: KeyClass)
    ensures
        class.effect() is None <==> class is Ignore,
        class.effect() == Some(EmitKind::Deleting) <==> class is Delete,
        class.effect() == Some(EmitKind::Typing) <==> class is Text,
{
}

} // verus!
