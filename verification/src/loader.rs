//! Soundpack discovery and selection: which of the directories found on disk
//! are listed (first occurrence of a directory name wins, only directories
//! with a readable configuration), the order of the list, and the choice of
//! the active pack.
use vstd::prelude::*;

use std::path::PathBuf;

use crate::bank::{KeySoundIds, PcmId, SoundBank};
use crate::config::{KeySounds, Metadata, PackConfig};
use crate::text::{str_eq, text_less, to_lowercase};

verus! {

/// A filesystem path (`std::path::PathBuf`), carried opaquely: the library only
/// hands it back to the code that reads the pack.
#[verifier::external_type_specification]
#[verifier::external_body]
pub struct ExPathBuf(PathBuf);

/// `PathBuf::clone`: a copy of the same path.
pub assume_specification[ <PathBuf as Clone>::clone ](p: &PathBuf) -> (res: PathBuf)
    ensures
        res == *p,
;

/// A discovered pack: its directory (and that directory's own name), plus the
/// name and category its configuration gives.
#[derive(Clone)]
pub struct PackEntry {
    pub dir: PathBuf,
    pub dir_name: String,
    pub name: String,
    pub category: String,
}

/// A directory found under one of the pack roots, in the order the roots are
/// searched, with the metadata of its configuration when that could be read.
pub struct PackCandidate {
    pub dir: PathBuf,
    pub dir_name: String,
    pub metadata: Option<Metadata>,
}

/// The key under which directories count as the same pack: the directory name
/// in lower case.
pub open spec fn dir_key(c: PackCandidate) -> Seq<char> {
    crate::text::spec_lowercase(c.dir_name@)
}

/// True when no earlier candidate with metadata (a valid pack) has the same
/// directory key as candidate `i`.
pub open spec fn first_of_key(cands: Seq<PackCandidate>, i: int) -> bool {
    forall|j: int|
        0 <= j < i && (#[trigger] cands[j]).metadata is Some ==> dir_key(cands[j]) != dir_key(
            cands[i],
        )
}

/// The directory keys of the valid packs (candidates with metadata), in order.
pub open spec fn valid_keys(cands: Seq<PackCandidate>) -> Seq<Seq<char>>
    decreases cands.len(),
{
    if cands.len() == 0 {
        Seq::empty()
    } else {
        let prev = valid_keys(cands.drop_last());
        if cands.last().metadata is Some {
            prev.push(dir_key(cands.last()))
        } else {
            prev
        }
    }
}

/// A key is among the valid keys exactly when some valid candidate has it.
proof fn lemma_valid_keys(cands: Seq<PackCandidate>, x: Seq<char>)
    ensures
        valid_keys(cands).contains(x) <==> exists|j: int|
            0 <= j < cands.len() && (#[trigger] cands[j]).metadata is Some && dir_key(cands[j]) == x,
    decreases cands.len(),
{
    if cands.len() > 0 {
        let prev = cands.drop_last();
        lemma_valid_keys(prev, x);
        let vp = valid_keys(prev);
        if valid_keys(cands).contains(x) {
            let m = choose|m: int| 0 <= m < valid_keys(cands).len() && valid_keys(cands)[m] == x;
            if m < vp.len() {
                assert(vp[m] == x);
                let j = choose|j: int|
                    0 <= j < prev.len() && (#[trigger] prev[j]).metadata is Some && dir_key(prev[j])
                        == x;
                assert(cands[j] == prev[j]);
            } else {
                assert(cands[cands.len() - 1].metadata is Some);
            }
        }
        if exists|j: int|
            0 <= j < cands.len() && (#[trigger] cands[j]).metadata is Some && dir_key(cands[j]) == x {
            let j = choose|j: int|
                0 <= j < cands.len() && (#[trigger] cands[j]).metadata is Some && dir_key(cands[j])
                    == x;
            if j < prev.len() {
                assert(prev[j] == cands[j]);
                assert(vp.contains(x));
                let m = choose|m: int| 0 <= m < vp.len() && vp[m] == x;
                if cands.last().metadata is Some {
                    assert(valid_keys(cands)[m] == x);
                }
            } else {
                assert(valid_keys(cands)[vp.len() as int] == x);
            }
        }
    }
}

/// The entry that a candidate with metadata becomes.
pub open spec fn entry_of(c: PackCandidate) -> PackEntry {
    PackEntry {
        dir: c.dir,
        dir_name: c.dir_name,
        name: c.metadata->0.name,
        category: c.metadata->0.category,
    }
}

/// The listed packs, in the order found: each valid pack (a candidate with
/// metadata) whose directory key no earlier valid pack has. A directory
/// without a readable configuration claims no name.
pub open spec fn listed(cands: Seq<PackCandidate>) -> Seq<PackEntry>
    decreases cands.len(),
{
    if cands.len() == 0 {
        Seq::empty()
    } else {
        let prev = listed(cands.drop_last());
        let i = cands.len() - 1;
        if first_of_key(cands, i) && cands[i].metadata is Some {
            prev.push(entry_of(cands[i]))
        } else {
            prev
        }
    }
}

/// The key by which the list is sorted: the pack name in lower case.
pub open spec fn name_key(e: PackEntry) -> Seq<char> {
    crate::text::spec_lowercase(e.name@)
}

/// Entry `a` (at input position `ia`) goes before entry `b` (at `ib`):
/// by name key, and among equal keys by input position.
pub open spec fn goes_before(ka: Seq<char>, ia: int, kb: Seq<char>, ib: int) -> bool {
    crate::text::text_lt(ka, kb) || (ka == kb && ia < ib)
}

/// `p` shows `output` to be `input` sorted stably by name key: `output[k]` is
/// `input[p[k]]`, each input position is used once, and the output goes in
/// `goes_before` order.
pub open spec fn sort_witness(input: Seq<PackEntry>, output: Seq<PackEntry>, p: Seq<int>) -> bool {
    &&& output.len() == input.len()
    &&& p.len() == input.len()
    &&& forall|k: int| 0 <= k < p.len() ==> 0 <= #[trigger] p[k] < input.len()
    &&& forall|k: int| 0 <= k < p.len() ==> output[k] == input[#[trigger] p[k]]
    &&& forall|k: int, l: int| 0 <= k < l < p.len() ==> #[trigger] p[k] != #[trigger] p[l]
    &&& forall|k: int, l: int|
        0 <= k < l < p.len() ==> goes_before(
            name_key(#[trigger] output[k]),
            p[k],
            name_key(#[trigger] output[l]),
            p[l],
        )
}

/// `output` is `input` sorted stably by lower-case name (as `sort_by` on the
/// lower-cased names does).
pub open spec fn stably_sorted(input: Seq<PackEntry>, output: Seq<PackEntry>) -> bool {
    exists|p: Seq<int>| sort_witness(input, output, p)
}

/// `e` is what candidate `i` becomes, and that candidate is listed.
pub open spec fn lists_candidate(cands: Seq<PackCandidate>, i: int, e: PackEntry) -> bool {
    &&& 0 <= i < cands.len()
    &&& first_of_key(cands, i)
    &&& cands[i].metadata is Some
    &&& e == entry_of(cands[i])
}

/// `e` is what some listed candidate becomes.
pub open spec fn from_listed_candidate(cands: Seq<PackCandidate>, e: PackEntry) -> bool {
    exists|i: int| #[trigger] lists_candidate(cands, i, e)
}

/// Listed pack `k` comes from a listed candidate.
proof fn lemma_listed_from(cands: Seq<PackCandidate>, k: int)
    requires
        0 <= k < listed(cands).len(),
    ensures
        exists|i: int| #[trigger] lists_candidate(cands, i, listed(cands)[k]),
    decreases cands.len(),
{
    let prev = cands.drop_last();
    let n = cands.len() - 1;
    let lp = listed(prev);
    if k < lp.len() {
        lemma_listed_from(prev, k);
        let i = choose|i: int| #[trigger] lists_candidate(prev, i, lp[k]);
        assert(prev[i] == cands[i]);
        assert forall|j: int| 0 <= j < i && (#[trigger] cands[j]).metadata is Some implies dir_key(
            cands[j],
        ) != dir_key(cands[i]) by {
            assert(prev[j] == cands[j]);
        }
        assert(listed(cands)[k] == lp[k]);
        assert(lists_candidate(cands, i, listed(cands)[k]));
    } else {
        assert(lists_candidate(cands, n, listed(cands)[k]));
    }
}

/// Each listed pack comes from a candidate that has metadata and is the first
/// of its directory key, and no two listed packs share a directory key.
pub proof fn law_listed_packs_are_distinct(cands: Seq<PackCandidate>)
    ensures
        forall|k: int|
            0 <= k < listed(cands).len() ==> #[trigger] from_listed_candidate(cands, listed(cands)[k]),
        forall|k: int, l: int|
            0 <= k < l < listed(cands).len() ==> crate::text::spec_lowercase(
                (#[trigger] listed(cands)[k]).dir_name@,
            ) != crate::text::spec_lowercase((#[trigger] listed(cands)[l]).dir_name@),
    decreases cands.len(),
{
    if cands.len() > 0 {
        let prev = cands.drop_last();
        law_listed_packs_are_distinct(prev);
        let n = cands.len() - 1;
        let lp = listed(prev);
        let out = listed(cands);
        if first_of_key(cands, n) && cands[n].metadata is Some {
            assert forall|k: int, l: int| 0 <= k < l < out.len() implies crate::text::spec_lowercase(
                (#[trigger] out[k]).dir_name@,
            ) != crate::text::spec_lowercase((#[trigger] out[l]).dir_name@) by {
                assert(out[k] == lp[k]);
                if l == out.len() - 1 {
                    lemma_listed_from(prev, k);
                    let i = choose|i: int| #[trigger] lists_candidate(prev, i, lp[k]);
                    assert(prev[i] == cands[i]);
                    assert(dir_key(cands[i]) != dir_key(cands[n]));
                } else {
                    assert(out[l] == lp[l]);
                }
            }
        }
    }
    assert forall|k: int| 0 <= k < listed(cands).len() implies #[trigger] from_listed_candidate(
        cands,
        listed(cands)[k],
    ) by {
        lemma_listed_from(cands, k);
    }
}

/// Each listed pack carries what its configuration says: every entry of the
/// list is, field by field, the directory, the directory name, and the name
/// and category of the metadata of a candidate that has metadata and is the
/// first valid one of its directory key.
pub proof fn law_listed_entries_carry_metadata(cands: Seq<PackCandidate>)
    ensures
        forall|k: int|
            0 <= k < listed(cands).len() ==> exists|i: int|
                #![trigger cands[i]]
                0 <= i < cands.len() && cands[i].metadata is Some && first_of_key(cands, i)
                    && (#[trigger] listed(cands)[k]).dir == cands[i].dir && listed(cands)[k].dir_name
                    == cands[i].dir_name && listed(cands)[k].name == cands[i].metadata->0.name
                    && listed(cands)[k].category == cands[i].metadata->0.category,
{
    assert forall|k: int| 0 <= k < listed(cands).len() implies exists|i: int|
        #![trigger cands[i]]
        0 <= i < cands.len() && cands[i].metadata is Some && first_of_key(cands, i) && (
        #[trigger] listed(cands)[k]).dir == cands[i].dir && listed(cands)[k].dir_name
            == cands[i].dir_name && listed(cands)[k].name == cands[i].metadata->0.name
            && listed(cands)[k].category == cands[i].metadata->0.category by {
        lemma_listed_from(cands, k);
        let i = choose|i: int| #[trigger] lists_candidate(cands, i, listed(cands)[k]);
        assert(listed(cands)[k] == entry_of(cands[i]));
    }
}

/// The same holds of the sorted list that `list_packs` returns: each of its
/// entries is, field by field, the directory, directory name, metadata name
/// and metadata category of a listed candidate.
pub proof fn law_list_packs_entries_carry_metadata(cands: Seq<PackCandidate>, out: Seq<PackEntry>)
    requires
        stably_sorted(listed(cands), out),
    ensures
        forall|k: int|
            0 <= k < out.len() ==> exists|i: int|
                #![trigger cands[i]]
                0 <= i < cands.len() && cands[i].metadata is Some && first_of_key(cands, i)
                    && (#[trigger] out[k]).dir == cands[i].dir && out[k].dir_name == cands[i].dir_name
                    && out[k].name == cands[i].metadata->0.name && out[k].category
                    == cands[i].metadata->0.category,
{
    law_sort_keeps_entries(listed(cands), out);
    law_listed_entries_carry_metadata(cands);
    assert forall|k: int| 0 <= k < out.len() implies exists|i: int|
        #![trigger cands[i]]
        0 <= i < cands.len() && cands[i].metadata is Some && first_of_key(cands, i) && (
        #[trigger] out[k]).dir == cands[i].dir && out[k].dir_name == cands[i].dir_name
            && out[k].name == cands[i].metadata->0.name && out[k].category
            == cands[i].metadata->0.category by {
        assert(listed(cands).contains(out[k]));
        let m = choose|m: int| 0 <= m < listed(cands).len() && listed(cands)[m] == out[k];
        assert(listed(cands)[m] == out[k]);
    }
}

/// A stably sorted list goes in order of lower-case name.
pub proof fn law_sorted_by_name(input: Seq<PackEntry>, output: Seq<PackEntry>)
    requires
        stably_sorted(input, output),
    ensures
        output.len() == input.len(),
        forall|k: int, l: int|
            0 <= k < l < output.len() ==> !crate::text::text_lt(
                name_key(#[trigger] output[l]),
                name_key(#[trigger] output[k]),
            ),
{
    let p = choose|p: Seq<int>| sort_witness(input, output, p);
    assert forall|k: int, l: int| 0 <= k < l < output.len() implies !crate::text::text_lt(
        name_key(#[trigger] output[l]),
        name_key(#[trigger] output[k]),
    ) by {
        crate::text::lemma_text_lt_total(name_key(output[k]), name_key(output[l]));
        crate::text::lemma_text_lt_irreflexive(name_key(output[k]));
    }
}

/// Sorting keeps every entry: each entry of the input is in the output and
/// each entry of the output is from the input.
pub proof fn law_sort_keeps_entries(input: Seq<PackEntry>, output: Seq<PackEntry>)
    requires
        stably_sorted(input, output),
    ensures
        forall|i: int| 0 <= i < input.len() ==> output.contains(#[trigger] input[i]),
        forall|k: int| 0 <= k < output.len() ==> input.contains(#[trigger] output[k]),
{
    let p = choose|p: Seq<int>| sort_witness(input, output, p);
    let n = input.len() as int;
    assert(p.no_duplicates()) by {
        assert forall|k: int, l: int| 0 <= k < p.len() && 0 <= l < p.len() && k != l implies p[k]
            != p[l] by {
            if k < l {
                assert(p[k] != p[l]);
            } else {
                assert(p[l] != p[k]);
            }
        }
    }
    p.unique_seq_to_set();
    vstd::set_lib::lemma_int_range(0, n);
    assert(p.to_set().subset_of(vstd::set_lib::set_int_range(0, n))) by {
        assert forall|x: int| p.to_set().contains(x) implies vstd::set_lib::set_int_range(
            0,
            n,
        ).contains(x) by {
            let k = choose|k: int| 0 <= k < p.len() && p[k] == x;
            assert(0 <= p[k] < n);
        }
    }
    vstd::seq_lib::seq_to_set_is_finite(p);
    vstd::set_lib::lemma_subset_equality(p.to_set(), vstd::set_lib::set_int_range(0, n));
    assert forall|i: int| 0 <= i < input.len() implies output.contains(#[trigger] input[i]) by {
        assert(vstd::set_lib::set_int_range(0, n).contains(i));
        assert(p.to_set().contains(i));
        let k = choose|k: int| 0 <= k < p.len() && p[k] == i;
        assert(output[k] == input[p[k]]);
    }
    assert forall|k: int| 0 <= k < output.len() implies input.contains(#[trigger] output[k]) by {
        assert(output[k] == input[p[k]]);
    }
}

/// True when some text of `list` equals `s`.
fn contains_text(list: &Vec<String>, s: &str) -> (res: bool)
    ensures
        res == exists|j: int| 0 <= j < list@.len() && (#[trigger] list@[j])@ == s@,
{
    let mut i: usize = 0;
    while i < list.len()
        invariant
            i <= list@.len(),
            forall|j: int| 0 <= j < i ==> (#[trigger] list@[j])@ != s@,
        decreases list.len() - i,
    {
        if str_eq(list[i].as_str(), s) {
            return true;
        }
        i = i + 1;
    }
    false
}

/// The packs to list, in the order found (see `listed`).
fn dedup_candidates(cands: Vec<PackCandidate>) -> (res: Vec<PackEntry>)
    ensures
        res@ == listed(cands@),
{
    let ghost orig = cands@;
    let n = cands.len();
    let mut rest = cands;
    let mut seen: Vec<String> = Vec::new();
    let mut out: Vec<PackEntry> = Vec::new();
    let mut i: usize = 0;
    assert(orig.take(0) =~= Seq::<PackCandidate>::empty());
    assert(texts(seen@) =~= Seq::<Seq<char>>::empty());
    while rest.len() > 0
        invariant
            i + rest@.len() == orig.len(),
            orig.len() == n,
            rest@ =~= orig.skip(i as int),
            texts(seen@) == valid_keys(orig.take(i as int)),
            out@ == listed(orig.take(i as int)),
        decreases rest.len(),
    {
        let c = rest.remove(0);
        assert(c == orig[i as int]);
        let ghost before = orig.take(i as int);
        let ghost now = orig.take(i + 1);
        assert(now.drop_last() =~= before);
        assert(now[i as int] == c);
        assert(now.last() == c);
        match c.metadata {
            Some(md) => {
                let key = to_lowercase(c.dir_name.as_str());
                let dup = contains_text(&seen, key.as_str());
                assert(first_of_key(now, i as int) == !dup) by {
                    lemma_valid_keys(before, key@);
                    assert(dup == valid_keys(before).contains(key@)) by {
                        if dup {
                            let m = choose|m: int|
                                0 <= m < seen@.len() && (#[trigger] seen@[m])@ == key@;
                            assert(texts(seen@)[m] == key@);
                        }
                        if valid_keys(before).contains(key@) {
                            let m = choose|m: int|
                                0 <= m < texts(seen@).len() && texts(seen@)[m] == key@;
                            assert(seen@[m]@ == key@);
                        }
                    }
                    if dup {
                        let j = choose|j: int|
                            0 <= j < before.len() && (#[trigger] before[j]).metadata is Some
                                && dir_key(before[j]) == key@;
                        assert(now[j] == before[j]);
                    } else {
                        assert forall|j: int|
                            0 <= j < i && (#[trigger] now[j]).metadata is Some implies dir_key(
                            now[j],
                        ) != dir_key(now[i as int]) by {
                            assert(now[j] == before[j]);
                        }
                    }
                }
                let ghost old_seen = seen@;
                seen.push(key);
                assert(texts(seen@) =~= texts(old_seen).push(key@));
                if !dup {
                    out.push(
                        PackEntry {
                            dir: c.dir,
                            dir_name: c.dir_name,
                            name: md.name,
                            category: md.category,
                        },
                    );
                }
            },
            None => {},
        }
        i = i + 1;
    }
    assert(orig.take(i as int) =~= orig);
    out
}

/// Sorts entries stably by lower-case name.
fn sort_by_name(items: Vec<PackEntry>) -> (res: Vec<PackEntry>)
    ensures
        stably_sorted(items@, res@),
{
    let ghost orig = items@;
    let n = items.len();
    let mut rest = items;
    let mut out: Vec<PackEntry> = Vec::new();
    let mut keys: Vec<String> = Vec::new();
    let ghost mut p: Seq<int> = Seq::empty();
    let mut i: usize = 0;
    while rest.len() > 0
        invariant
            i + rest@.len() == orig.len(),
            orig.len() == n,
            rest@ =~= orig.skip(i as int),
            out@.len() == i,
            keys@.len() == i,
            p.len() == i,
            forall|k: int| 0 <= k < i ==> (#[trigger] keys@[k])@ == name_key(out@[k]),
            forall|k: int| 0 <= k < i ==> 0 <= #[trigger] p[k] < i,
            forall|k: int| 0 <= k < i ==> out@[k] == orig[#[trigger] p[k]],
            forall|k: int, l: int| 0 <= k < l < i ==> #[trigger] p[k] != #[trigger] p[l],
            forall|k: int, l: int|
                0 <= k < l < i ==> goes_before(
                    name_key(#[trigger] out@[k]),
                    p[k],
                    name_key(#[trigger] out@[l]),
                    p[l],
                ),
        decreases rest.len(),
    {
        let e = rest.remove(0);
        assert(e == orig[i as int]);
        let key = to_lowercase(e.name.as_str());
        // First position whose key is above the new key.
        let mut pos: usize = 0;
        while pos < keys.len() && !text_less(key.as_str(), keys[pos].as_str())
            invariant
                pos <= keys@.len(),
                forall|k: int| 0 <= k < pos ==> !crate::text::text_lt(key@, (#[trigger] keys@[k])@),
            decreases keys.len() - pos,
        {
            pos = pos + 1;
        }
        let ghost old_out = out@;
        let ghost old_keys = keys@;
        let ghost old_p = p;
        out.insert(pos, e);
        keys.insert(pos, key);
        proof {
            p = old_p.insert(pos as int, i as int);
            assert forall|k: int| 0 <= k < i + 1 implies (#[trigger] keys@[k])@ == name_key(
                out@[k],
            ) by {
                if k < pos {
                    assert(keys@[k] == old_keys[k]);
                } else if k > pos {
                    assert(keys@[k] == old_keys[k - 1]);
                }
            }
            assert forall|k: int| 0 <= k < i + 1 implies 0 <= #[trigger] p[k] < i + 1 by {
                if k < pos {
                    assert(p[k] == old_p[k]);
                } else if k > pos {
                    assert(p[k] == old_p[k - 1]);
                }
            }
            assert forall|k: int| 0 <= k < i + 1 implies out@[k] == orig[#[trigger] p[k]] by {
                if k < pos {
                    assert(p[k] == old_p[k]);
                } else if k > pos {
                    assert(p[k] == old_p[k - 1]);
                }
            }
            assert forall|k: int, l: int| 0 <= k < l < i + 1 implies #[trigger] p[k]
                != #[trigger] p[l] by {
                if k < pos && l < pos {
                    assert(p[k] == old_p[k] && p[l] == old_p[l]);
                } else if k < pos && l == pos {
                    assert(p[k] == old_p[k]);
                } else if k < pos && l > pos {
                    assert(p[k] == old_p[k] && p[l] == old_p[l - 1]);
                } else if k == pos {
                    assert(p[l] == old_p[l - 1]);
                } else {
                    assert(p[k] == old_p[k - 1] && p[l] == old_p[l - 1]);
                }
            }
            // Where the new key stands against the keys already placed.
            assert forall|k: int| 0 <= k < pos implies goes_before(
                name_key(#[trigger] old_out[k]),
                old_p[k],
                key@,
                i as int,
            ) by {
                crate::text::lemma_text_lt_total(key@, old_keys[k]@);
            }
            if pos < old_keys.len() {
                assert(crate::text::text_lt(key@, old_keys[pos as int]@));
            }
            assert forall|k: int| pos <= k < old_out.len() implies crate::text::text_lt(
                key@,
                name_key(#[trigger] old_out[k]),
            ) by {
                if k > pos {
                    assert(goes_before(
                        name_key(old_out[pos as int]),
                        old_p[pos as int],
                        name_key(old_out[k]),
                        old_p[k],
                    ));
                    if crate::text::text_lt(name_key(old_out[pos as int]), name_key(old_out[k])) {
                        crate::text::lemma_text_lt_transitive(
                            key@,
                            name_key(old_out[pos as int]),
                            name_key(old_out[k]),
                        );
                    }
                }
            }
            assert forall|k: int, l: int| 0 <= k < l < i + 1 implies goes_before(
                name_key(#[trigger] out@[k]),
                p[k],
                name_key(#[trigger] out@[l]),
                p[l],
            ) by {
                if k < pos && l < pos {
                    assert(out@[k] == old_out[k] && out@[l] == old_out[l]);
                    assert(p[k] == old_p[k] && p[l] == old_p[l]);
                } else if k < pos && l == pos {
                    assert(out@[k] == old_out[k] && p[k] == old_p[k]);
                } else if k < pos && l > pos {
                    assert(out@[k] == old_out[k] && out@[l] == old_out[l - 1]);
                    assert(p[k] == old_p[k] && p[l] == old_p[l - 1]);
                    assert(goes_before(name_key(old_out[k]), old_p[k], key@, i as int));
                    assert(crate::text::text_lt(key@, name_key(old_out[l - 1])));
                    if crate::text::text_lt(name_key(old_out[k]), key@) {
                        crate::text::lemma_text_lt_transitive(
                            name_key(old_out[k]),
                            key@,
                            name_key(old_out[l - 1]),
                        );
                    }
                } else if k == pos {
                    assert(out@[l] == old_out[l - 1] && p[l] == old_p[l - 1]);
                } else {
                    assert(out@[k] == old_out[k - 1] && out@[l] == old_out[l - 1]);
                    assert(p[k] == old_p[k - 1] && p[l] == old_p[l - 1]);
                }
            }
        }
        i = i + 1;
    }
    assert(sort_witness(orig, out@, p));
    out
}

/// The packs to list from the directories found, sorted by lower-case name:
/// each directory name (compared in lower case) counts once, the first
/// occurrence winning, and only directories with metadata are listed.
pub fn list_packs(cands: Vec<PackCandidate>) -> (res: Vec<PackEntry>)
    ensures
        stably_sorted(listed(cands@), res@),
{
    let found = dedup_candidates(cands);
    sort_by_name(found)
}


/// The first position, from `from` on, of a pack whose directory is named `name`.
pub open spec fn find_dir(packs: Seq<PackEntry>, name: Seq<char>, from: nat) -> Option<nat>
    decreases packs.len() - from,
{
    if from >= packs.len() {
        None
    } else if packs[from as int].dir_name@ == name {
        Some(from)
    } else {
        find_dir(packs, name, from + 1)
    }
}

/// The first position, from `from` on, of a pack of the keyboard category.
pub open spec fn find_keyboard(packs: Seq<PackEntry>, from: nat) -> Option<nat>
    decreases packs.len() - from,
{
    if from >= packs.len() {
        None
    } else if packs[from as int].category@ == "keyboard"@ {
        Some(from)
    } else {
        find_keyboard(packs, from + 1)
    }
}

/// The position of the pack whose directory is named `current`.
pub open spec fn spec_pack_index(packs: Seq<PackEntry>, current: Option<String>) -> Option<nat> {
    match current {
        Some(name) => find_dir(packs, name@, 0),
        None => None,
    }
}

/// Index of the currently active pack (named by its directory) within `packs`,
/// if known: the first pack whose directory has that name.
pub fn pack_index(packs: &[PackEntry], current: &Option<String>) -> (res: Option<usize>)
    ensures
        match res {
            Some(i) => spec_pack_index(packs@, *current) == Some(i as nat),
            None => spec_pack_index(packs@, *current) is None,
        },
{
    match current {
        None => None,
        Some(name) => {
            assert(spec_pack_index(packs@, *current) == find_dir(packs@, name@, 0));
            let mut i: usize = 0;
            while i < packs.len()
                invariant
                    i <= packs@.len(),
                    find_dir(packs@, name@, 0) == find_dir(packs@, name@, i as nat),
                    spec_pack_index(packs@, *current) == find_dir(packs@, name@, 0),
                decreases packs.len() - i,
            {
                if str_eq(packs[i].dir_name.as_str(), name.as_str()) {
                    assert(find_dir(packs@, name@, i as nat) == Some(i as nat));
                    return Some(i);
                }
                i = i + 1;
            }
            None
        },
    }
}

/// The pack to start with: the saved one (by directory name) if it is listed,
/// else the first pack of the keyboard category, else none.
pub fn choose_pack(packs: &[PackEntry], saved: &Option<String>) -> (res: Option<usize>)
    ensures
        res == match spec_pack_index(packs@, *saved) {
            Some(i) => Some(i as usize),
            None => match find_keyboard(packs@, 0) {
                Some(i) => Some(i as usize),
                None => None,
            },
        },
{
    match pack_index(packs, saved) {
        Some(i) => Some(i),
        None => {
            let mut i: usize = 0;
            while i < packs.len()
                invariant
                    i <= packs@.len(),
                    find_keyboard(packs@, 0) == find_keyboard(packs@, i as nat),
                    spec_pack_index(packs@, *saved) is None,
                decreases packs.len() - i,
            {
                if str_eq(packs[i].category.as_str(), "keyboard") {
                    assert(find_keyboard(packs@, i as nat) == Some(i as nat));
                    return Some(i);
                }
                i = i + 1;
            }
            None
        },
    }
}

/// The positions of the packs of the keyboard category, in order.
pub open spec fn keyboard_indices(packs: Seq<PackEntry>) -> Seq<usize>
    decreases packs.len(),
{
    if packs.len() == 0 {
        Seq::empty()
    } else {
        let prev = keyboard_indices(packs.drop_last());
        if packs.last().category@ == "keyboard"@ {
            prev.push((packs.len() - 1) as usize)
        } else {
            prev
        }
    }
}

/// The keyboard positions are, in increasing order, exactly the positions of
/// the packs of the keyboard category.
pub proof fn law_keyboard_indices(packs: Seq<PackEntry>)
    requires
        packs.len() <= usize::MAX,
    ensures
        forall|k: int|
            0 <= k < keyboard_indices(packs).len() ==> {
                &&& #[trigger] keyboard_indices(packs)[k] < packs.len()
                &&& packs[keyboard_indices(packs)[k] as int].category@ == "keyboard"@
            },
        forall|k: int, l: int|
            0 <= k < l < keyboard_indices(packs).len() ==> #[trigger] keyboard_indices(packs)[k]
                < #[trigger] keyboard_indices(packs)[l],
        forall|i: int|
            0 <= i < packs.len() && (#[trigger] packs[i]).category@ == "keyboard"@
                ==> keyboard_indices(packs).contains(i as usize),
    decreases packs.len(),
{
    if packs.len() > 0 {
        let prev = packs.drop_last();
        law_keyboard_indices(prev);
        let kp = keyboard_indices(prev);
        let ki = keyboard_indices(packs);
        assert forall|k: int| 0 <= k < kp.len() implies kp[k] < prev.len() && #[trigger] packs[kp[k] as int] == prev[kp[k] as int] by {
            assert(kp[k] < prev.len());
        }
        assert forall|k: int| 0 <= k < ki.len() implies {
            &&& #[trigger] ki[k] < packs.len()
            &&& packs[ki[k] as int].category@ == "keyboard"@
        } by {
            if k < kp.len() {
                assert(ki[k] == kp[k]);
                assert(packs[kp[k] as int] == prev[kp[k] as int]);
            }
        }
        assert forall|i: int| 0 <= i < packs.len() && (#[trigger] packs[i]).category@ == "keyboard"@
            implies ki.contains(i as usize) by {
            if i < prev.len() {
                assert(prev[i] == packs[i]);
                let k = choose|k: int| 0 <= k < kp.len() && kp[k] == i as usize;
                assert(ki[k] == kp[k]);
            } else {
                assert(ki[ki.len() - 1] == i as usize);
            }
        }
        assert forall|k: int, l: int| 0 <= k < l < ki.len() implies #[trigger] ki[k] < #[trigger] ki[l] by {
            assert(ki[k] == kp[k]);
            if l < kp.len() {
                assert(ki[l] == kp[l]);
            } else {
                assert(kp[k] < prev.len());
            }
        }
    }
}

/// The positions of the keyboard packs: the ones offered in the soundpack
/// pickers.
pub fn keyboard_pack_indices(packs: &[PackEntry]) -> (res: Vec<usize>)
    ensures
        res@ == keyboard_indices(packs@),
{
    let mut out: Vec<usize> = Vec::new();
    let mut i: usize = 0;
    assert(packs@.take(0) =~= Seq::<PackEntry>::empty());
    while i < packs.len()
        invariant
            i <= packs@.len(),
            out@ == keyboard_indices(packs@.take(i as int)),
        decreases packs.len() - i,
    {
        assert(packs@.take(i + 1).drop_last() =~= packs@.take(i as int));
        assert(packs@.take(i + 1).last() == packs@[i as int]);
        if str_eq(packs[i].category.as_str(), "keyboard") {
            out.push(i);
        }
        i = i + 1;
    }
    assert(packs@.take(i as int) =~= packs@);
    out
}


/// The texts of a list of strings.
pub open spec fn texts(list: Seq<String>) -> Seq<Seq<char>> {
    list.map_values(|s: String| s@)
}

/// The files one key refers to: its key-down files, then its key-up files.
pub open spec fn key_files(ks: KeySounds) -> Seq<Seq<char>> {
    texts(ks.down@) + texts(ks.up@)
}

/// Every file reference of a pack, key by key, in order (with repeats).
pub open spec fn all_refs(sounds: Seq<(String, KeySounds)>) -> Seq<Seq<char>>
    decreases sounds.len(),
{
    if sounds.len() == 0 {
        Seq::empty()
    } else {
        all_refs(sounds.drop_last()) + key_files(sounds.last().1)
    }
}

/// The texts of `s` without repeats, each at its first occurrence.
pub open spec fn distinct_in_order(s: Seq<Seq<char>>) -> Seq<Seq<char>>
    decreases s.len(),
{
    if s.len() == 0 {
        Seq::empty()
    } else {
        let d = distinct_in_order(s.drop_last());
        if d.contains(s.last()) {
            d
        } else {
            d.push(s.last())
        }
    }
}

/// The sound files a pack needs, each once, in order of first reference.
pub open spec fn pack_files(cfg: PackConfig) -> Seq<Seq<char>> {
    distinct_in_order(all_refs(cfg.sounds@))
}

/// Pushes the files of `names` that `files` does not hold yet.
fn add_new_files(files: &mut Vec<String>, names: &Vec<String>, Ghost(acc): Ghost<Seq<Seq<char>>>)
    requires
        texts(old(files)@) == distinct_in_order(acc),
    ensures
        texts(final(files)@) == distinct_in_order(acc + texts(names@)),
{
    let mut j: usize = 0;
    assert(acc + texts(names@).take(0) =~= acc);
    while j < names.len()
        invariant
            j <= names@.len(),
            texts(files@) == distinct_in_order(acc + texts(names@).take(j as int)),
        decreases names.len() - j,
    {
        let ghost prev = acc + texts(names@).take(j as int);
        let ghost next = acc + texts(names@).take(j + 1);
        assert(next.drop_last() =~= prev);
        assert(next.last() == names@[j as int]@);
        let known = contains_text(files, names[j].as_str());
        assert(known == distinct_in_order(prev).contains(names@[j as int]@)) by {
            if known {
                let k = choose|k: int| 0 <= k < files@.len() && (#[trigger] files@[k])@ == names@[j as int]@;
                assert(texts(files@)[k] == names@[j as int]@);
            }
            if distinct_in_order(prev).contains(names@[j as int]@) {
                let k = choose|k: int| 0 <= k < texts(files@).len() && texts(files@)[k] == names@[j as int]@;
                assert(files@[k]@ == names@[j as int]@);
            }
        }
        if !known {
            files.push(names[j].clone());
            assert(texts(files@) =~= distinct_in_order(prev).push(names@[j as int]@));
        }
        j = j + 1;
    }
    assert(texts(names@).take(names@.len() as int) =~= texts(names@));
}

/// The sound files a pack refers to, each once, in order of first reference:
/// the files to decode before `load_pack` assembles the bank.
pub fn referenced_files(cfg: &PackConfig) -> (files: Vec<String>)
    ensures
        texts(files@) == pack_files(*cfg),
{
    let mut files: Vec<String> = Vec::new();
    let mut k: usize = 0;
    assert(cfg.sounds@.take(0) =~= Seq::<(String, KeySounds)>::empty());
    assert(texts(files@) =~= Seq::<Seq<char>>::empty());
    while k < cfg.sounds.len()
        invariant
            k <= cfg.sounds@.len(),
            texts(files@) == distinct_in_order(all_refs(cfg.sounds@.take(k as int))),
        decreases cfg.sounds.len() - k,
    {
        let ks = &cfg.sounds[k].1;
        let ghost acc = all_refs(cfg.sounds@.take(k as int));
        add_new_files(&mut files, &ks.down, Ghost(acc));
        add_new_files(&mut files, &ks.up, Ghost(acc + texts(ks.down@)));
        assert(cfg.sounds@.take(k + 1).drop_last() =~= cfg.sounds@.take(k as int));
        assert(cfg.sounds@.take(k + 1).last() == cfg.sounds@[k as int]);
        assert(acc + texts(ks.down@) + texts(ks.up@) =~= acc + key_files(*ks));
        k = k + 1;
    }
    assert(cfg.sounds@.take(k as int) =~= cfg.sounds@);
    files
}

/// The decoded sounds, in order, skipping the files that did not decode.
pub open spec fn somes<S>(decoded: Seq<Option<S>>) -> Seq<S>
    decreases decoded.len(),
{
    if decoded.len() == 0 {
        Seq::empty()
    } else {
        let prev = somes(decoded.drop_last());
        match decoded.last() {
            Some(x) => prev.push(x),
            None => prev,
        }
    }
}

/// For each file position, the id its sound gets: the number of files before
/// it that decoded, or none where the file did not decode.
pub open spec fn id_table<S>(decoded: Seq<Option<S>>) -> Seq<Option<PcmId>> {
    Seq::new(
        decoded.len(),
        |j: int|
            if decoded[j] is Some {
                Some(somes(decoded.take(j)).len() as PcmId)
            } else {
                None
            },
    )
}

/// The first position, from `from` on, of `f` in `files`.
pub open spec fn position(files: Seq<Seq<char>>, f: Seq<char>, from: nat) -> Option<nat>
    decreases files.len() - from,
{
    if from >= files.len() {
        None
    } else if files[from as int] == f {
        Some(from)
    } else {
        position(files, f, from + 1)
    }
}

/// The id of the sound of file `f`, if it decoded.
pub open spec fn sample_id(files: Seq<Seq<char>>, table: Seq<Option<PcmId>>, f: Seq<char>) -> Option<PcmId> {
    match position(files, f, 0) {
        Some(p) => if p < table.len() {
            table[p as int]
        } else {
            None
        },
        None => None,
    }
}

/// The ids of the sounds of `names` that decoded, in order.
pub open spec fn ids_of(names: Seq<String>, files: Seq<Seq<char>>, table: Seq<Option<PcmId>>) -> Seq<PcmId>
    decreases names.len(),
{
    if names.len() == 0 {
        Seq::empty()
    } else {
        let prev = ids_of(names.drop_last(), files, table);
        match sample_id(files, table, names.last()@) {
            Some(id) => prev.push(id),
            None => prev,
        }
    }
}

/// The key entries of the bank for key-down (`down`) or key-up sounds: each
/// key, in order, with the ids of its sounds that decoded, keys with none
/// left out.
pub open spec fn key_lists(
    sounds: Seq<(String, KeySounds)>,
    files: Seq<Seq<char>>,
    table: Seq<Option<PcmId>>,
    down: bool,
) -> Seq<(Seq<char>, Seq<PcmId>)>
    decreases sounds.len(),
{
    if sounds.len() == 0 {
        Seq::empty()
    } else {
        let prev = key_lists(sounds.drop_last(), files, table, down);
        let ks = sounds.last().1;
        let ids = ids_of(if down { ks.down@ } else { ks.up@ }, files, table);
        if ids.len() > 0 {
            prev.push((sounds.last().0@, ids))
        } else {
            prev
        }
    }
}

/// Whether file `f` of the pack decoded.
pub open spec fn decoded_file(files: Seq<Seq<char>>, table: Seq<Option<PcmId>>, f: Seq<char>) -> bool {
    sample_id(files, table, f) is Some
}

/// A key's list of sounds holds one id for each of its file references whose
/// file decoded, and no other: the references that decoded, in order, each
/// taken to the id of its sound. So its length is the number of those
/// references.
pub proof fn law_ids_of_decoded(names: Seq<String>, files: Seq<Seq<char>>, table: Seq<Option<PcmId>>)
    ensures
        ids_of(names, files, table) == names.filter(|s: String| decoded_file(files, table, s@)).map_values(
            |s: String| sample_id(files, table, s@)->0,
        ),
        ids_of(names, files, table).len() == names.filter(
            |s: String| decoded_file(files, table, s@),
        ).len(),
    decreases names.len(),
{
    reveal(Seq::filter);
    let pred = |s: String| decoded_file(files, table, s@);
    let id = |s: String| sample_id(files, table, s@)->0;
    if names.len() == 0 {
        assert(names.filter(pred) =~= Seq::<String>::empty());
        assert(names.filter(pred).map_values(id) =~= Seq::<PcmId>::empty());
    } else {
        let prev = names.drop_last();
        law_ids_of_decoded(prev, files, table);
        let fp = prev.filter(pred);
        if pred(names.last()) {
            assert(names.filter(pred) == fp.push(names.last()));
            assert(fp.push(names.last()).map_values(id) =~= fp.map_values(id).push(id(names.last())));
        } else {
            assert(names.filter(pred) == fp);
        }
    }
}

/// A bank's key entries as plain values.
pub open spec fn entries_view(entries: Seq<KeySoundIds>) -> Seq<(Seq<char>, Seq<PcmId>)> {
    entries.map_values(|e: KeySoundIds| (e.key@, e.ids@))
}

/// The texts kept by `distinct_in_order` are the texts of the input, each once.
pub proof fn law_distinct_in_order(s: Seq<Seq<char>>)
    ensures
        distinct_in_order(s).no_duplicates(),
        forall|i: int| 0 <= i < s.len() ==> distinct_in_order(s).contains(#[trigger] s[i]),
        forall|k: int| 0 <= k < distinct_in_order(s).len() ==> s.contains(#[trigger] distinct_in_order(s)[k]),
    decreases s.len(),
{
    if s.len() > 0 {
        let prev = s.drop_last();
        law_distinct_in_order(prev);
        let d = distinct_in_order(prev);
        assert forall|i: int| 0 <= i < s.len() implies distinct_in_order(s).contains(#[trigger] s[i]) by {
            if i < prev.len() {
                assert(prev[i] == s[i]);
                assert(d.contains(prev[i]));
                if !d.contains(s.last()) {
                    let k = choose|k: int| 0 <= k < d.len() && d[k] == prev[i];
                    assert(d.push(s.last())[k] == s[i]);
                }
            } else {
                if !d.contains(s.last()) {
                    assert(d.push(s.last())[d.len() as int] == s[i]);
                }
            }
        }
        assert forall|k: int| 0 <= k < distinct_in_order(s).len() implies s.contains(
            #[trigger] distinct_in_order(s)[k],
        ) by {
            if k < d.len() {
                assert(distinct_in_order(s)[k] == d[k]);
                let i = choose|i: int| 0 <= i < prev.len() && prev[i] == d[k];
                assert(s[i] == prev[i]);
            } else {
                assert(distinct_in_order(s)[k] == s[s.len() - 1]);
            }
        }
    }
}

/// A pack's files: each referenced file once, and only referenced files.
pub proof fn law_pack_files_each_once(cfg: PackConfig)
    ensures
        pack_files(cfg).no_duplicates(),
        forall|i: int|
            0 <= i < all_refs(cfg.sounds@).len() ==> pack_files(cfg).contains(
                #[trigger] all_refs(cfg.sounds@)[i],
            ),
        forall|k: int|
            0 <= k < pack_files(cfg).len() ==> all_refs(cfg.sounds@).contains(
                #[trigger] pack_files(cfg)[k],
            ),
{
    law_distinct_in_order(all_refs(cfg.sounds@));
}

/// The decoded sounds up to a position are the first ones of all decoded
/// sounds.
proof fn lemma_somes_prefix<S>(decoded: Seq<Option<S>>, j: int)
    requires
        0 <= j <= decoded.len(),
    ensures
        somes(decoded.take(j)).len() <= somes(decoded).len(),
        forall|k: int| 0 <= k < somes(decoded.take(j)).len() ==> #[trigger] somes(decoded.take(j))[k] == somes(decoded)[k],
    decreases decoded.len() - j,
{
    if j == decoded.len() {
        assert(decoded.take(j) =~= decoded);
    } else {
        lemma_somes_prefix(decoded, j + 1);
        lemma_somes_take(decoded, j);
        assert(decoded.take(j + 1).last() == decoded[j]);
        assert forall|k: int| 0 <= k < somes(decoded.take(j)).len() implies #[trigger] somes(
            decoded.take(j),
        )[k] == somes(decoded)[k] by {
            assert(somes(decoded.take(j))[k] == somes(decoded.take(j + 1))[k]);
        }
    }
}

/// There are no more decoded sounds than files.
proof fn lemma_somes_len<S>(decoded: Seq<Option<S>>)
    ensures
        somes(decoded).len() <= decoded.len(),
    decreases decoded.len(),
{
    if decoded.len() > 0 {
        lemma_somes_len(decoded.drop_last());
    }
}

/// The id that a decoded file gets is the position of its own sound among
/// the bank's samples, and files decoded earlier get smaller ids.
pub proof fn law_ids_point_at_own_sound<S>(decoded: Seq<Option<S>>)
    requires
        decoded.len() <= usize::MAX,
    ensures
        forall|j: int|
            0 <= j < decoded.len() && (#[trigger] decoded[j]) is Some ==> {
                &&& id_table(decoded)[j] is Some
                &&& id_table(decoded)[j]->0 < somes(decoded).len()
                &&& somes(decoded)[id_table(decoded)[j]->0 as int] == decoded[j]->0
            },
        forall|j: int, k: int|
            0 <= j < k < decoded.len() && (#[trigger] id_table(decoded)[j]) is Some && (
            #[trigger] id_table(decoded)[k]) is Some ==> id_table(decoded)[j]->0 < id_table(decoded)[k]->0,
{
    assert forall|j: int| 0 <= j < decoded.len() && (#[trigger] decoded[j]) is Some implies {
        &&& id_table(decoded)[j] is Some
        &&& id_table(decoded)[j]->0 < somes(decoded).len()
        &&& somes(decoded)[id_table(decoded)[j]->0 as int] == decoded[j]->0
    } by {
        lemma_somes_take(decoded, j);
        lemma_somes_prefix(decoded, j + 1);
        lemma_somes_len(decoded.take(j));
        let c = somes(decoded.take(j)).len();
        assert(somes(decoded.take(j + 1)) == somes(decoded.take(j)).push(decoded[j]->0));
        assert(somes(decoded.take(j + 1))[c as int] == decoded[j]->0);
    }
    assert forall|j: int, k: int|
        0 <= j < k < decoded.len() && (#[trigger] id_table(decoded)[j]) is Some && (
        #[trigger] id_table(decoded)[k]) is Some implies id_table(decoded)[j]->0 < id_table(
        decoded,
    )[k]->0 by {
        lemma_somes_grow(decoded, j, k);
        lemma_somes_len(decoded.take(j));
        lemma_somes_len(decoded.take(k));
    }
}

/// The list of the first pair whose key is `key`, if any.
pub open spec fn lookup_pairs(pairs: Seq<(Seq<char>, Seq<PcmId>)>, key: Seq<char>) -> Option<Seq<PcmId>>
    decreases pairs.len(),
{
    if pairs.len() == 0 {
        None
    } else if pairs[0].0 == key {
        Some(pairs[0].1)
    } else {
        lookup_pairs(pairs.drop_first(), key)
    }
}

/// The ids the configuration gives key `k`: the ids of the decoded files of
/// its key-down (`down`) or key-up list, where it lists `k` and some of those
/// files decoded. (With distinct keys, as in a well-formed configuration,
/// there is one entry for `k` at most.)
pub open spec fn config_ids(
    sounds: Seq<(String, KeySounds)>,
    files: Seq<Seq<char>>,
    table: Seq<Option<PcmId>>,
    down: bool,
    k: Seq<char>,
) -> Option<Seq<PcmId>>
    decreases sounds.len(),
{
    if sounds.len() == 0 {
        None
    } else if sounds.last().0@ == k {
        let ks = sounds.last().1;
        let ids = ids_of(if down { ks.down@ } else { ks.up@ }, files, table);
        if ids.len() > 0 {
            Some(ids)
        } else {
            None
        }
    } else {
        config_ids(sounds.drop_last(), files, table, down, k)
    }
}

/// Looking a key up in the entries is looking it up in their view.
proof fn lemma_lookup_view(entries: Seq<KeySoundIds>, k: Seq<char>)
    ensures
        crate::bank::lookup_ids(entries, k) == lookup_pairs(entries_view(entries), k),
    decreases entries.len(),
{
    if entries.len() > 0 {
        assert(entries_view(entries).drop_first() =~= entries_view(entries.drop_first()));
        lemma_lookup_view(entries.drop_first(), k);
    }
}

/// A pair added at the end is found only when no earlier pair has its key.
proof fn lemma_lookup_push(p: Seq<(Seq<char>, Seq<PcmId>)>, x: (Seq<char>, Seq<PcmId>), k: Seq<char>)
    ensures
        lookup_pairs(p.push(x), k) == match lookup_pairs(p, k) {
            Some(v) => Some(v),
            None => if x.0 == k {
                Some(x.1)
            } else {
                None
            },
        },
    decreases p.len(),
{
    let q = p.push(x);
    if p.len() > 0 {
        assert(q[0] == p[0]);
        assert(q.drop_first() =~= p.drop_first().push(x));
        lemma_lookup_push(p.drop_first(), x, k);
        if p[0].0 == k {
            assert(lookup_pairs(q, k) == Some(p[0].1));
            assert(lookup_pairs(p, k) == Some(p[0].1));
        } else {
            assert(lookup_pairs(q, k) == lookup_pairs(q.drop_first(), k));
            assert(lookup_pairs(p, k) == lookup_pairs(p.drop_first(), k));
        }
    } else {
        assert(q[0] == x);
        assert(q.drop_first() =~= Seq::<(Seq<char>, Seq<PcmId>)>::empty());
        assert(lookup_pairs(p, k) is None);
        if x.0 == k {
            assert(lookup_pairs(q, k) == Some(x.1));
        } else {
            assert(lookup_pairs(q, k) == lookup_pairs(q.drop_first(), k));
            assert(lookup_pairs(q.drop_first(), k) is None);
        }
    }
}

/// A key that no pair has is not found.
proof fn lemma_lookup_absent(p: Seq<(Seq<char>, Seq<PcmId>)>, k: Seq<char>)
    requires
        forall|j: int| 0 <= j < p.len() ==> (#[trigger] p[j]).0 != k,
    ensures
        lookup_pairs(p, k) is None,
    decreases p.len(),
{
    if p.len() > 0 {
        assert forall|j: int| 0 <= j < p.drop_first().len() implies (#[trigger] p.drop_first()[j]).0
            != k by {
            assert(p.drop_first()[j] == p[j + 1]);
        }
        lemma_lookup_absent(p.drop_first(), k);
    }
}

/// Every key of the bank's entries is a key of the configuration.
proof fn lemma_key_lists_keys(
    sounds: Seq<(String, KeySounds)>,
    files: Seq<Seq<char>>,
    table: Seq<Option<PcmId>>,
    down: bool,
)
    ensures
        forall|j: int|
            0 <= j < key_lists(sounds, files, table, down).len() ==> exists|i: int|
                0 <= i < sounds.len() && (#[trigger] key_lists(sounds, files, table, down)[j]).0
                    == (#[trigger] sounds[i]).0@,
    decreases sounds.len(),
{
    if sounds.len() > 0 {
        let prev = sounds.drop_last();
        lemma_key_lists_keys(prev, files, table, down);
        let kp = key_lists(prev, files, table, down);
        let kl = key_lists(sounds, files, table, down);
        assert forall|j: int| 0 <= j < kl.len() implies exists|i: int|
            0 <= i < sounds.len() && (#[trigger] kl[j]).0 == (#[trigger] sounds[i]).0@ by {
            if j < kp.len() {
                assert(kl[j] == kp[j]);
                let i = choose|i: int| 0 <= i < prev.len() && (#[trigger] kp[j]).0 == (#[trigger] prev[i]).0@;
                assert(prev[i] == sounds[i]);
            } else {
                assert(kl[j].0 == sounds[sounds.len() - 1].0@);
            }
        }
    }
}

/// With distinct keys in the configuration, the bank's entries have distinct
/// keys, and looking a key up in them gives what the configuration gives it.
pub proof fn law_bank_lookup(
    sounds: Seq<(String, KeySounds)>,
    files: Seq<Seq<char>>,
    table: Seq<Option<PcmId>>,
    down: bool,
    k: Seq<char>,
)
    requires
        forall|i: int, j: int|
            0 <= i < j < sounds.len() ==> (#[trigger] sounds[i]).0@ != (#[trigger] sounds[j]).0@,
    ensures
        forall|i: int, j: int|
            0 <= i < j < key_lists(sounds, files, table, down).len() ==> (
            #[trigger] key_lists(sounds, files, table, down)[i]).0 != (#[trigger] key_lists(
                sounds,
                files,
                table,
                down,
            )[j]).0,
        lookup_pairs(key_lists(sounds, files, table, down), k) == config_ids(
            sounds,
            files,
            table,
            down,
            k,
        ),
    decreases sounds.len(),
{
    if sounds.len() > 0 {
        let prev = sounds.drop_last();
        let n = sounds.len() - 1;
        assert forall|i: int, j: int| 0 <= i < j < prev.len() implies (#[trigger] prev[i]).0@ != (
        #[trigger] prev[j]).0@ by {
            assert(prev[i] == sounds[i] && prev[j] == sounds[j]);
        }
        law_bank_lookup(prev, files, table, down, k);
        lemma_key_lists_keys(prev, files, table, down);
        let kp = key_lists(prev, files, table, down);
        let kl = key_lists(sounds, files, table, down);
        let last = sounds.last();
        let ids = ids_of(if down { last.1.down@ } else { last.1.up@ }, files, table);
        // No earlier entry has the last key.
        assert forall|j: int| 0 <= j < kp.len() implies (#[trigger] kp[j]).0 != last.0@ by {
            let i = choose|i: int| 0 <= i < prev.len() && (#[trigger] kp[j]).0 == (#[trigger] prev[i]).0@;
            assert(prev[i] == sounds[i]);
            assert(sounds[i].0@ != sounds[n].0@);
        }
        if ids.len() > 0 {
            assert(kl == kp.push((last.0@, ids)));
            lemma_lookup_push(kp, (last.0@, ids), k);
            assert forall|i: int, j: int| 0 <= i < j < kl.len() implies (#[trigger] kl[i]).0 != (
            #[trigger] kl[j]).0 by {
                assert(kl[i] == kp[i]);
                if j < kp.len() {
                    assert(kl[j] == kp[j]);
                }
            }
        } else {
            assert(kl == kp);
        }
        if last.0@ == k {
            lemma_lookup_absent(kp, k);
        }
    }
}

/// Why a pack could not be loaded.
#[derive(Debug, PartialEq, Eq)]
pub enum LoadError {
    /// None of the pack's key-down sounds decoded.
    NoDownSounds { pack: String },
}

/// Every id of the table is below `n`.
pub open spec fn table_below(table: Seq<Option<PcmId>>, n: nat) -> bool {
    forall|j: int| 0 <= j < table.len() && (#[trigger] table[j]) is Some ==> table[j]->0 < n
}

/// The ids of the sounds of `names` that decoded.
fn key_ids(names: &Vec<String>, files: &Vec<String>, table: &Vec<Option<PcmId>>, Ghost(n): Ghost<nat>) -> (res: Vec<PcmId>)
    requires
        table_below(table@, n),
    ensures
        res@ == ids_of(names@, texts(files@), table@),
        forall|j: int| 0 <= j < res@.len() ==> #[trigger] res@[j] < n,
{
    let mut out: Vec<PcmId> = Vec::new();
    let mut j: usize = 0;
    assert(names@.take(0) =~= Seq::<String>::empty());
    while j < names.len()
        invariant
            j <= names@.len(),
            table_below(table@, n),
            out@ == ids_of(names@.take(j as int), texts(files@), table@),
            forall|k: int| 0 <= k < out@.len() ==> #[trigger] out@[k] < n,
        decreases names.len() - j,
    {
        assert(names@.take(j + 1).drop_last() =~= names@.take(j as int));
        assert(names@.take(j + 1).last() == names@[j as int]);
        // Position of the file among the pack's files.
        let mut p: usize = 0;
        let ghost fs = texts(files@);
        let ghost f = names@[j as int]@;
        while p < files.len() && !str_eq(files[p].as_str(), names[j].as_str())
            invariant
                p <= files@.len(),
                j < names@.len(),
                fs == texts(files@),
                f == names@[j as int]@,
                position(fs, f, 0) == position(fs, f, p as nat),
            decreases files.len() - p,
        {
            p = p + 1;
        }
        if p < files.len() {
            assert(position(fs, f, p as nat) == Some(p as nat));
            if p < table.len() {
                match table[p] {
                    Some(id) => {
                        out.push(id);
                    },
                    None => {},
                }
            }
        }
        j = j + 1;
    }
    assert(names@.take(j as int) =~= names@);
    out
}

/// The number of decoded sounds before a position grows by one at each file
/// that decoded.
proof fn lemma_somes_take<S>(decoded: Seq<Option<S>>, j: int)
    requires
        0 <= j < decoded.len(),
    ensures
        decoded.take(j + 1).drop_last() == decoded.take(j),
        somes(decoded.take(j + 1)).len() == somes(decoded.take(j)).len() + (if decoded[j] is Some {
            1int
        } else {
            0int
        }),
{
    assert(decoded.take(j + 1).drop_last() =~= decoded.take(j));
}

/// A file that decoded comes before every later count of decoded files.
proof fn lemma_somes_grow<S>(decoded: Seq<Option<S>>, k: int, m: int)
    requires
        0 <= k < m <= decoded.len(),
        decoded[k] is Some,
    ensures
        somes(decoded.take(k)).len() < somes(decoded.take(m)).len(),
    decreases m - k,
{
    lemma_somes_take(decoded, m - 1);
    if m - 1 > k {
        lemma_somes_grow(decoded, k, m - 1);
    }
}

/// Assembles the bank of a pack from its configuration and, for each file of
/// `referenced_files` in order, the decoded sound or `None` where the file
/// could not be decoded. Sounds get ids in that order; each key lists the ids
/// of its files that decoded, and keys with none are left out. A pack whose
/// key-down lists all end up empty is refused.
pub fn load_pack<S>(cfg: PackConfig, decoded: Vec<Option<S>>) -> (res: Result<SoundBank<S>, LoadError>)
    requires
        decoded@.len() == pack_files(cfg).len(),
    ensures
        match res {
            Ok(bank) => {
                &&& key_lists(cfg.sounds@, pack_files(cfg), id_table(decoded@), true).len() > 0
                &&& bank.name == cfg.metadata.name
                &&& bank.supports_key_up == cfg.metadata.supports_key_up
                &&& bank.samples@ == somes(decoded@)
                &&& entries_view(bank.down@) == key_lists(cfg.sounds@, pack_files(cfg), id_table(decoded@), true)
                &&& entries_view(bank.up@) == key_lists(cfg.sounds@, pack_files(cfg), id_table(decoded@), false)
                &&& bank.ids_in_range()
                &&& cfg.wf() ==> bank.wf()
                &&& cfg.wf() ==> forall|k: Seq<char>|
                    #![trigger crate::bank::lookup_ids(bank.down@, k)]
                    #![trigger crate::bank::lookup_ids(bank.up@, k)]
                    crate::bank::lookup_ids(bank.down@, k) == config_ids(
                        cfg.sounds@,
                        pack_files(cfg),
                        id_table(decoded@),
                        true,
                        k,
                    ) && crate::bank::lookup_ids(bank.up@, k) == config_ids(
                        cfg.sounds@,
                        pack_files(cfg),
                        id_table(decoded@),
                        false,
                        k,
                    )
            },
            Err(e) => {
                &&& key_lists(cfg.sounds@, pack_files(cfg), id_table(decoded@), true).len() == 0
                &&& e == LoadError::NoDownSounds { pack: cfg.metadata.name }
            },
        },
{
    let files = referenced_files(&cfg);
    let ghost fs = texts(files@);
    let ghost orig = decoded@;
    // Ids, in decoding order.
    let mut table: Vec<Option<PcmId>> = Vec::new();
    let mut count: usize = 0;
    let mut j: usize = 0;
    assert(orig.take(0) =~= Seq::<Option<S>>::empty());
    while j < decoded.len()
        invariant
            decoded@ == orig,
            j <= orig.len(),
            count == somes(orig.take(j as int)).len(),
            count <= j,
            table@.len() == j,
            forall|k: int| 0 <= k < j ==> #[trigger] table@[k] == id_table(orig)[k],
        decreases decoded.len() - j,
    {
        proof {
            lemma_somes_take(orig, j as int);
        }
        if decoded[j].is_some() {
            table.push(Some(count));
            count = count + 1;
        } else {
            table.push(None);
        }
        j = j + 1;
    }
    assert(orig.take(j as int) =~= orig);
    assert(table@ =~= id_table(orig));
    assert(table_below(table@, count as nat)) by {
        assert forall|k: int| 0 <= k < table@.len() && (#[trigger] table@[k]) is Some implies table@[k]->0
            < count by {
            lemma_somes_grow(orig, k, orig.len() as int);
            assert(orig.take(orig.len() as int) =~= orig);
        }
    }
    // The sounds, in the same order.
    let n = decoded.len();
    let mut rest = decoded;
    let mut samples: Vec<S> = Vec::new();
    let mut i: usize = 0;
    while rest.len() > 0
        invariant
            i + rest@.len() == orig.len(),
            orig.len() == n,
            rest@ =~= orig.skip(i as int),
            samples@ == somes(orig.take(i as int)),
        decreases rest.len(),
    {
        proof {
            lemma_somes_take(orig, i as int);
        }
        let d = rest.remove(0);
        assert(d == orig[i as int]);
        match d {
            Some(x) => {
                samples.push(x);
            },
            None => {},
        }
        i = i + 1;
    }
    assert(orig.take(i as int) =~= orig);
    // Key entries.
    let mut down: Vec<KeySoundIds> = Vec::new();
    let mut up: Vec<KeySoundIds> = Vec::new();
    let mut k: usize = 0;
    assert(cfg.sounds@.take(0) =~= Seq::<(String, KeySounds)>::empty());
    assert(entries_view(down@) =~= Seq::<(Seq<char>, Seq<PcmId>)>::empty());
    while k < cfg.sounds.len()
        invariant
            k <= cfg.sounds@.len(),
            fs == texts(files@),
            table@ == id_table(orig),
            table_below(table@, count as nat),
            entries_view(down@) == key_lists(cfg.sounds@.take(k as int), fs, table@, true),
            entries_view(up@) == key_lists(cfg.sounds@.take(k as int), fs, table@, false),
            crate::bank::ids_below(down@, count as nat),
            crate::bank::ids_below(up@, count as nat),
        decreases cfg.sounds.len() - k,
    {
        assert(cfg.sounds@.take(k + 1).drop_last() =~= cfg.sounds@.take(k as int));
        assert(cfg.sounds@.take(k + 1).last() == cfg.sounds@[k as int]);
        let entry = &cfg.sounds[k];
        let d = key_ids(&entry.1.down, &files, &table, Ghost(count as nat));
        if d.len() > 0 {
            let ghost before = down@;
            down.push(KeySoundIds { key: entry.0.clone(), ids: d });
            assert(entries_view(down@) =~= entries_view(before).push((entry.0@, d@)));
        }
        let u = key_ids(&entry.1.up, &files, &table, Ghost(count as nat));
        if u.len() > 0 {
            let ghost before = up@;
            up.push(KeySoundIds { key: entry.0.clone(), ids: u });
            assert(entries_view(up@) =~= entries_view(before).push((entry.0@, u@)));
        }
        k = k + 1;
    }
    assert(cfg.sounds@.take(k as int) =~= cfg.sounds@);
    if down.len() == 0 {
        return Err(LoadError::NoDownSounds { pack: cfg.metadata.name });
    }
    proof {
        if cfg.wf() {
            let ghost tbl = id_table(orig);
            assert forall|i: int, j: int|
                0 <= i < j < cfg.sounds@.len() implies (#[trigger] cfg.sounds@[i]).0@ != (
            #[trigger] cfg.sounds@[j]).0@ by {}
            law_bank_lookup(cfg.sounds@, fs, tbl, true, Seq::empty());
            law_bank_lookup(cfg.sounds@, fs, tbl, false, Seq::empty());
            assert forall|i: int, j: int| 0 <= i < j < down@.len() implies (#[trigger] down@[i]).key@
                != (#[trigger] down@[j]).key@ by {
                assert(entries_view(down@)[i].0 == down@[i].key@);
                assert(entries_view(down@)[j].0 == down@[j].key@);
            }
            assert forall|i: int, j: int| 0 <= i < j < up@.len() implies (#[trigger] up@[i]).key@
                != (#[trigger] up@[j]).key@ by {
                assert(entries_view(up@)[i].0 == up@[i].key@);
                assert(entries_view(up@)[j].0 == up@[j].key@);
            }
            assert forall|k: Seq<char>|
                crate::bank::lookup_ids(down@, k) == config_ids(cfg.sounds@, fs, tbl, true, k)
                    && crate::bank::lookup_ids(up@, k) == config_ids(cfg.sounds@, fs, tbl, false, k) by {
                law_bank_lookup(cfg.sounds@, fs, tbl, true, k);
                law_bank_lookup(cfg.sounds@, fs, tbl, false, k);
                lemma_lookup_view(down@, k);
                lemma_lookup_view(up@, k);
            }
        }
    }
    Ok(
        SoundBank {
            name: cfg.metadata.name,
            samples,
            down,
            up,
            supports_key_up: cfg.metadata.supports_key_up,
        },
    )
}

} // verus!
