use std::path::PathBuf;

use clack::config::{default_category, KeySounds, Metadata, PackConfig};
use clack::loader::{
    choose_pack, keyboard_pack_indices, list_packs, load_pack, pack_index, referenced_files,
    LoadError, PackCandidate, PackEntry,
};

fn meta(name: &str, category: &str) -> Metadata {
    Metadata {
        name: name.to_string(),
        brand: String::new(),
        author: String::new(),
        category: category.to_string(),
        supports_key_up: false,
    }
}

fn cand(root: &str, dir: &str, m: Option<Metadata>) -> PackCandidate {
    PackCandidate {
        dir: PathBuf::from(root).join(dir),
        dir_name: dir.to_string(),
        metadata: m,
    }
}

fn entry(dir: &str, name: &str, category: &str) -> PackEntry {
    PackEntry {
        dir: PathBuf::from("/r").join(dir),
        dir_name: dir.to_string(),
        name: name.to_string(),
        category: category.to_string(),
    }
}

#[test]
fn default_category_is_keyboard() {
    assert_eq!(default_category(), "keyboard");
}

#[test]
fn list_packs_sorts_by_lowercase_name() {
    let packs = list_packs(vec![
        cand("/a", "p1", Some(meta("banana", "keyboard"))),
        cand("/a", "p2", Some(meta("Apple", "keyboard"))),
        cand("/a", "p3", Some(meta("cherry", "mouse"))),
    ]);
    let names: Vec<&str> = packs.iter().map(|p| p.name.as_str()).collect();
    // Plain string order would put "Apple" first anyway; "banana" < "Cherry" needs lowercase.
    assert_eq!(names, vec!["Apple", "banana", "cherry"]);
    let packs = list_packs(vec![
        cand("/a", "p1", Some(meta("banana", "keyboard"))),
        cand("/a", "p2", Some(meta("Cherry", "keyboard"))),
        cand("/a", "p3", Some(meta("apple", "keyboard"))),
    ]);
    let names: Vec<&str> = packs.iter().map(|p| p.name.as_str()).collect();
    assert_eq!(names, vec!["apple", "banana", "Cherry"]);
}

#[test]
fn list_packs_is_stable_for_equal_names() {
    let packs = list_packs(vec![
        cand("/a", "x", Some(meta("Same", "keyboard"))),
        cand("/a", "y", Some(meta("same", "keyboard"))),
        cand("/a", "z", Some(meta("SAME", "keyboard"))),
    ]);
    let dirs: Vec<&str> = packs.iter().map(|p| p.dir_name.as_str()).collect();
    assert_eq!(dirs, vec!["x", "y", "z"]);
}

#[test]
fn list_packs_first_directory_of_a_name_wins() {
    let packs = list_packs(vec![
        cand("/bundled", "Cream", Some(meta("first", "keyboard"))),
        cand("/custom", "cream", Some(meta("second", "keyboard"))),
        cand("/custom", "other", Some(meta("third", "keyboard"))),
    ]);
    assert_eq!(packs.len(), 2);
    assert_eq!(packs[0].name, "first");
    assert_eq!(packs[0].dir, PathBuf::from("/bundled/Cream"));
    assert_eq!(packs[1].name, "third");
}

#[test]
fn list_packs_unreadable_directory_claims_no_name() {
    let packs = list_packs(vec![
        cand("/a", "broken", None),
        cand("/b", "Broken", Some(meta("late", "keyboard"))),
        cand("/b", "fine", Some(meta("ok", "keyboard"))),
        cand("/c", "BROKEN", Some(meta("later", "keyboard"))),
    ]);
    let names: Vec<&str> = packs.iter().map(|p| p.name.as_str()).collect();
    assert_eq!(names, vec!["late", "ok"]);
    assert_eq!(packs[0].dir, PathBuf::from("/b/Broken"));
}

#[test]
fn list_packs_of_nothing_is_empty() {
    assert!(list_packs(Vec::new()).is_empty());
}

#[test]
fn pack_index_finds_by_directory_name() {
    let packs = vec![entry("a", "A", "keyboard"), entry("b", "B", "keyboard"), entry("b", "B2", "x")];
    assert_eq!(pack_index(&packs, &Some("b".to_string())), Some(1));
    assert_eq!(pack_index(&packs, &Some("B".to_string())), None);
    assert_eq!(pack_index(&packs, &None), None);
}

#[test]
fn choose_pack_prefers_the_saved_pack() {
    let packs = vec![entry("m", "Mouse", "mouse"), entry("k1", "K1", "keyboard"), entry("k2", "K2", "keyboard")];
    assert_eq!(choose_pack(&packs, &Some("k2".to_string())), Some(2));
    assert_eq!(choose_pack(&packs, &Some("m".to_string())), Some(0));
    assert_eq!(choose_pack(&packs, &Some("gone".to_string())), Some(1));
    assert_eq!(choose_pack(&packs, &None), Some(1));
    let mice = vec![entry("m", "Mouse", "mouse")];
    assert_eq!(choose_pack(&mice, &None), None);
    assert_eq!(choose_pack(&Vec::new(), &Some("x".to_string())), None);
}

#[test]
fn keyboard_indices_in_order() {
    let packs = vec![
        entry("a", "A", "keyboard"),
        entry("b", "B", "mouse"),
        entry("c", "C", "keyboard"),
        entry("d", "D", "Keyboard"),
    ];
    assert_eq!(keyboard_pack_indices(&packs), vec![0, 2]);
    assert!(keyboard_pack_indices(&Vec::new()).is_empty());
}

fn strings(v: &[&str]) -> Vec<String> {
    v.iter().map(|s| s.to_string()).collect()
}

fn config(sounds: Vec<(&str, &[&str], &[&str])>, supports_key_up: bool) -> PackConfig {
    let mut m = meta("Pack", "keyboard");
    m.supports_key_up = supports_key_up;
    PackConfig {
        metadata: m,
        sounds: sounds
            .into_iter()
            .map(|(k, d, u)| (k.to_string(), KeySounds { down: strings(d), up: strings(u) }))
            .collect(),
    }
}

#[test]
fn referenced_files_each_once_in_first_use_order() {
    let cfg = config(
        vec![
            ("a", &["x.wav", "y.wav"], &["u.wav"]),
            ("b", &["y.wav", "z.wav"], &["x.wav"]),
            ("default", &[], &[]),
        ],
        true,
    );
    assert_eq!(referenced_files(&cfg), strings(&["x.wav", "y.wav", "u.wav", "z.wav"]));
}

#[test]
fn load_pack_assigns_ids_in_decoding_order() {
    let cfg = config(
        vec![
            ("a", &["x.wav", "y.wav"], &["u.wav"]),
            ("b", &["y.wav", "z.wav"], &["x.wav"]),
            ("c", &["bad.wav"], &[]),
        ],
        true,
    );
    let files = referenced_files(&cfg);
    assert_eq!(files, strings(&["x.wav", "y.wav", "u.wav", "z.wav", "bad.wav"]));
    // y.wav and bad.wav fail to decode.
    let decoded = vec![Some("X"), None, Some("U"), Some("Z"), None];
    let bank = load_pack(cfg, decoded).unwrap();
    assert_eq!(bank.name, "Pack");
    assert!(bank.supports_key_up);
    assert_eq!(bank.samples, vec!["X", "U", "Z"]);
    let down: Vec<(&str, Vec<usize>)> =
        bank.down.iter().map(|e| (e.key.as_str(), e.ids.clone())).collect();
    assert_eq!(down, vec![("a", vec![0]), ("b", vec![2])]);
    let up: Vec<(&str, Vec<usize>)> =
        bank.up.iter().map(|e| (e.key.as_str(), e.ids.clone())).collect();
    assert_eq!(up, vec![("a", vec![1]), ("b", vec![0])]);
    assert_eq!(*bank.sample(bank.pick_down("b").unwrap()), "Z");
}

#[test]
fn load_pack_refuses_a_pack_without_down_sounds() {
    let cfg = config(vec![("a", &["x.wav"], &["u.wav"])], false);
    let err = load_pack(cfg, vec![None, Some(1u8)]).err().unwrap();
    assert_eq!(err, LoadError::NoDownSounds { pack: "Pack".to_string() });
    let empty = config(vec![], false);
    assert!(load_pack::<u8>(empty, vec![]).is_err());
}

#[test]
fn directory_names_compare_in_unicode_lower_case() {
    let packs = list_packs(vec![
        cand("/a", "ÄPFEL", Some(meta("Zeta", "keyboard"))),
        cand("/b", "äpfel", Some(meta("dup", "keyboard"))),
        cand("/b", "Öl", Some(meta("Ölig", "keyboard"))),
        cand("/b", "x", Some(meta("ölig", "keyboard"))),
    ]);
    let names: Vec<&str> = packs.iter().map(|p| p.name.as_str()).collect();
    assert_eq!(names, vec!["Zeta", "Ölig", "ölig"]);
}

#[test]
fn pack_entries_clone_with_their_directory() {
    let e = entry("k", "K", "keyboard");
    let c = e.clone();
    assert_eq!(c.dir, e.dir);
    assert_eq!(c.name, "K");
}

#[test]
fn loaded_bank_looks_up_each_key_as_configured() {
    let cfg = config(
        vec![
            ("a", &["x.wav", "x.wav"], &[]),
            ("b", &["bad.wav"], &["x.wav"]),
            ("c", &["y.wav"], &["bad.wav"]),
        ],
        true,
    );
    let files = referenced_files(&cfg);
    assert_eq!(files, strings(&["x.wav", "bad.wav", "y.wav"]));
    let bank = load_pack(cfg, vec![Some(10u16), None, Some(30)]).unwrap();
    // Duplicates of a file are kept, each with the file's one id.
    assert_eq!(clack::bank::find_ids(&bank.down, "a"), Some(&vec![0, 0]));
    // A key whose files all failed is absent.
    assert_eq!(clack::bank::find_ids(&bank.down, "b"), None);
    assert_eq!(clack::bank::find_ids(&bank.down, "c"), Some(&vec![1]));
    assert_eq!(clack::bank::find_ids(&bank.up, "b"), Some(&vec![0]));
    assert_eq!(clack::bank::find_ids(&bank.up, "c"), None);
    assert_eq!(clack::bank::find_ids(&bank.up, "a"), None);
}
