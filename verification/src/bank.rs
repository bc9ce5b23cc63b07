//! Preloaded, immutable sound bank: every sound of a pack, and for each key
//! name the sounds that may play on key-down and on key-up. The decoded sound
//! itself is a type parameter, so the bank's rules do not depend on it.
use vstd::prelude::*;

use crate::text::str_eq;

verus! {

/// Index of a decoded sound within `SoundBank::samples`.
pub type PcmId = usize;

/// The sounds listed for one key name.
pub struct KeySoundIds {
    pub key: String,
    pub ids: Vec<PcmId>,
}

/// The list of the first entry whose key is `key`, if any entry has that key.
pub open spec fn lookup_ids(entries: Seq<KeySoundIds>, key: Seq<char>) -> Option<Seq<PcmId>>
    decreases entries.len(),
{
    if entries.len() == 0 {
        None
    } else if entries[0].key@ == key {
        Some(entries[0].ids@)
    } else {
        lookup_ids(entries.drop_first(), key)
    }
}

/// The list for `key`, or the empty list where no entry has that key.
pub open spec fn ids_for(entries: Seq<KeySoundIds>, key: Seq<char>) -> Seq<PcmId> {
    match lookup_ids(entries, key) {
        Some(ids) => ids,
        None => Seq::empty(),
    }
}

/// The sounds a key may play: its own list when that is not empty, else the
/// list of the key named `"default"` when that is not empty, else none.
pub open spec fn candidates(entries: Seq<KeySoundIds>, key: Seq<char>) -> Seq<PcmId> {
    if ids_for(entries, key).len() > 0 {
        ids_for(entries, key)
    } else {
        ids_for(entries, "default"@)
    }
}

/// No key name occurs in two entries.
pub open spec fn keys_distinct(entries: Seq<KeySoundIds>) -> bool {
    forall|i: int, j: int| 0 <= i < j < entries.len() ==> (#[trigger] entries[i]).key@ != (#[trigger] entries[j]).key@
}

/// Every id that the entries list is an index into `n` samples.
pub open spec fn ids_below(entries: Seq<KeySoundIds>, n: nat) -> bool {
    forall|i: int, j: int|
        0 <= i < entries.len() && 0 <= j < entries[i].ids@.len() ==> #[trigger] entries[i].ids@[j]
            < n
}

/// A list found by `lookup_ids` is the list of one of the entries.
pub proof fn lemma_lookup_is_entry(entries: Seq<KeySoundIds>, key: Seq<char>)
    ensures
        lookup_ids(entries, key) matches Some(ids) ==> exists|i: int|
            0 <= i < entries.len() && #[trigger] entries[i].ids@ == ids,
    decreases entries.len(),
{
    if entries.len() > 0 && entries[0].key@ != key {
        lemma_lookup_is_entry(entries.drop_first(), key);
        if lookup_ids(entries, key) is Some {
            let i = choose|i: int|
                0 <= i < entries.drop_first().len() && #[trigger] entries.drop_first()[i].ids@
                    == lookup_ids(entries, key)->0;
            assert(entries[i + 1].ids@ == lookup_ids(entries, key)->0);
        }
    } else if entries.len() > 0 {
        assert(entries[0].ids@ == lookup_ids(entries, key)->0);
    }
}

/// In a bank whose ids are all below `n`, every candidate is below `n`.
pub proof fn lemma_candidates_below(entries: Seq<KeySoundIds>, key: Seq<char>, n: nat)
    requires
        ids_below(entries, n),
    ensures
        forall|j: int| 0 <= j < candidates(entries, key).len() ==> #[trigger] candidates(entries, key)[j] < n,
{
    lemma_lookup_is_entry(entries, key);
    lemma_lookup_is_entry(entries, "default"@);
}

/// A key plays its own sounds when it has any, else those of `"default"`.
pub proof fn law_default_fallback(entries: Seq<KeySoundIds>, key: Seq<char>)
    ensures
        ids_for(entries, key).len() > 0 ==> candidates(entries, key) == ids_for(entries, key),
        ids_for(entries, key).len() == 0 ==> candidates(entries, key) == ids_for(
            entries,
            "default"@,
        ),
{
}

/// A bank without entries has no sound for any key.
pub proof fn law_no_entries_no_sound(entries: Seq<KeySoundIds>, key: Seq<char>)
    requires
        entries.len() == 0,
    ensures
        candidates(entries, key).len() == 0,
{
}

/// Finds the list of the first entry whose key is `key`.
pub fn find_ids<'a>(entries: &'a Vec<KeySoundIds>, key: &str) -> (res: Option<&'a Vec<PcmId>>)
    ensures
        match res {
            Some(v) => lookup_ids(entries@, key@) == Some(v@),
            None => lookup_ids(entries@, key@) is None,
        },
{
    let mut i: usize = 0;
    assert(entries@.skip(0) =~= entries@);
    while i < entries.len()
        invariant
            i <= entries.len(),
            lookup_ids(entries@, key@) == lookup_ids(entries@.skip(i as int), key@),
        decreases entries.len() - i,
    {
        let e = &entries[i];
        assert(entries@.skip(i as int)[0] == entries@[i as int]);
        assert(entries@.skip(i as int).drop_first() =~= entries@.skip(i + 1));
        if str_eq(e.key.as_str(), key) {
            return Some(&e.ids);
        }
        i = i + 1;
    }
    None
}

/// Calls `fastrand::usize(..n)`, which draws a number in `0..n` from the
/// thread-local generator (and panics on the empty range, hence `n > 0`).
/// Nothing more is stated: which number comes is up to the generator.
#[verifier::external_body]
fn random_below(n: usize) -> (r: usize)
    requires
        n > 0,
    ensures
        r < n,
{
    fastrand::usize(..n)
}

/// The sounds a key may play, as `candidates` states, or `None` where there
/// are none.
pub fn candidate_list<'a>(map: &'a Vec<KeySoundIds>, key: &str) -> (res: Option<&'a Vec<PcmId>>)
    ensures
        match res {
            Some(v) => v@ == candidates(map@, key@) && v@.len() > 0,
            None => candidates(map@, key@).len() == 0,
        },
{
    let own = find_ids(map, key);
    match own {
        Some(v) => {
            if v.len() > 0 {
                return Some(v);
            }
        },
        None => {},
    }
    let dflt = find_ids(map, "default");
    match dflt {
        Some(v) => {
            if v.len() > 0 {
                Some(v)
            } else {
                None
            }
        },
        None => None,
    }
}

/// The sound at position `r` of the sounds a key may play (`r` being a draw
/// below their number), or `None` where the key has none.
pub fn pick_at(map: &Vec<KeySoundIds>, key: &str, r: usize) -> (res: Option<PcmId>)
    requires
        candidates(map@, key@).len() > 0 ==> r < candidates(map@, key@).len(),
    ensures
        res == (if candidates(map@, key@).len() == 0 {
            None
        } else {
            Some(candidates(map@, key@)[r as int])
        }),
{
    match candidate_list(map, key) {
        Some(list) => Some(list[r]),
        None => None,
    }
}

/// Picks one of the sounds a key may play, at random, falling back to the
/// key named `"default"`. `None` exactly when neither list has a sound.
pub fn pick(map: &Vec<KeySoundIds>, key: &str) -> (res: Option<PcmId>)
    ensures
        res is None <==> candidates(map@, key@).len() == 0,
        res matches Some(id) ==> candidates(map@, key@).contains(id),
{
    match candidate_list(map, key) {
        Some(list) => {
            let r = random_below(list.len());
            pick_at(map, key, r)
        },
        None => None,
    }
}

/// One decoded pack, with the sounds of type `S`.
pub struct SoundBank<S> {
    pub name: String,
    pub samples: Vec<S>,
    pub down: Vec<KeySoundIds>,
    pub up: Vec<KeySoundIds>,
    pub supports_key_up: bool,
}

impl<S> SoundBank<S> {
    /// Every id that the bank lists is the index of one of its samples.
    pub open spec fn ids_in_range(&self) -> bool {
        &&& ids_below(self.down@, self.samples@.len())
        &&& ids_below(self.up@, self.samples@.len())
    }

    /// A well-formed bank: its ids index its samples, and each key name has at
    /// most one key-down and one key-up list.
    pub open spec fn wf(&self) -> bool {
        &&& self.ids_in_range()
        &&& keys_distinct(self.down@)
        &&& keys_distinct(self.up@)
    }

    /// The key-down sounds that `key` may play.
    pub open spec fn down_candidates(&self, key: Seq<char>) -> Seq<PcmId> {
        candidates(self.down@, key)
    }

    /// The key-up sounds that `key` may play: none where the pack has no
    /// key-up sounds.
    pub open spec fn up_candidates(&self, key: Seq<char>) -> Seq<PcmId> {
        if self.supports_key_up {
            candidates(self.up@, key)
        } else {
            Seq::empty()
        }
    }

    /// In a bank whose ids are in range (as `load_pack` builds), every sound
    /// that a key may play, down or up, is one of the bank's samples.
    pub proof fn law_candidates_are_samples(&self, key: Seq<char>, id: PcmId)
        requires
            self.ids_in_range(),
            self.down_candidates(key).contains(id) || self.up_candidates(key).contains(id),
        ensures
            id < self.samples@.len(),
    {
        lemma_candidates_below(self.down@, key, self.samples@.len());
        lemma_candidates_below(self.up@, key, self.samples@.len());
    }

    /// Pick a random key-down sound for `key`, falling back to "default".
    pub fn pick_down(&self, key: &str) -> (res: Option<PcmId>)
        ensures
            res is None <==> self.down_candidates(key@).len() == 0,
            res matches Some(id) ==> self.down_candidates(key@).contains(id),
            res matches Some(id) ==> (self.ids_in_range() ==> id < self.samples@.len()),
    {
        proof {
            if self.ids_in_range() {
                lemma_candidates_below(self.down@, key@, self.samples@.len());
            }
        }
        pick(&self.down, key)
    }

    /// Pick a random key-up sound for `key`, falling back to "default".
    pub fn pick_up(&self, key: &str) -> (res: Option<PcmId>)
        ensures
            res is None <==> self.up_candidates(key@).len() == 0,
            res matches Some(id) ==> self.up_candidates(key@).contains(id),
            res matches Some(id) ==> (self.ids_in_range() ==> id < self.samples@.len()),
            !self.supports_key_up ==> res is None,
    {
        if !self.supports_key_up {
            return None;
        }
        proof {
            if self.ids_in_range() {
                lemma_candidates_below(self.up@, key@, self.samples@.len());
            }
        }
        pick(&self.up, key)
    }

    /// The sample with index `id`.
    pub fn sample(&self, id: PcmId) -> (s: &S)
        requires
            id < self.samples@.len(),
        ensures
            *s == self.samples@[id as int],
    {
        &self.samples[id]
    }

    /// An empty bank: used as the initial state before a pack is loaded.
    pub fn empty() -> (b: Self)
        ensures
            b.name@ == "none"@,
            b.samples@.len() == 0,
            b.down@.len() == 0,
            b.up@.len() == 0,
            !b.supports_key_up,
            b.wf(),
    {
        SoundBank {
            name: String::from_str("none"),
            samples: Vec::new(),
            down: Vec::new(),
            up: Vec::new(),
            supports_key_up: false,
        }
    }
}

} // verus!
