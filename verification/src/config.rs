//! A soundpack's `config.json`, as plain values: the pack's metadata and, for
//! each key name, the sound files it plays on key-down and key-up.
use vstd::prelude::*;

verus! {

/// The sound files of one key.
pub struct KeySounds {
    pub down: Vec<String>,
    pub up: Vec<String>,
}

/// What a pack says about itself.
pub struct Metadata {
    pub name: String,
    pub brand: String,
    pub author: String,
    pub category: String,
    pub supports_key_up: bool,
}

/// A whole pack configuration; `sounds` lists each key name once, with its files.
pub struct PackConfig {
    pub metadata: Metadata,
    pub sounds: Vec<(String, KeySounds)>,
}

impl PackConfig {
    /// Each key name occurs once in `sounds` (as in the map it is read from).
    pub open spec fn wf(&self) -> bool {
        forall|i: int, j: int|
            0 <= i < j < self.sounds@.len() ==> (#[trigger] self.sounds@[i]).0@ != (
            #[trigger] self.sounds@[j]).0@
    }
}

/// The category of a pack whose configuration names none.
pub fn default_category() -> (c: String)
    ensures
        c@ == "keyboard"@,
{
    String::from_str("keyboard")
}

} // verus!
