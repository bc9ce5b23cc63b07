use clack::bank::{KeySoundIds, SoundBank};

fn entry(key: &str, ids: &[usize]) -> KeySoundIds {
    KeySoundIds { key: key.to_string(), ids: ids.to_vec() }
}

fn bank(supports_key_up: bool) -> SoundBank<u32> {
    SoundBank {
        name: "test".to_string(),
        samples: vec![10, 20, 30, 40],
        down: vec![entry("a", &[0, 1]), entry("default", &[2]), entry("b", &[])],
        up: vec![entry("a", &[3])],
        supports_key_up,
    }
}

#[test]
fn pick_down_uses_the_keys_own_sounds() {
    let b = bank(true);
    for _ in 0..200 {
        let id = b.pick_down("a").unwrap();
        assert!(id == 0 || id == 1, "id={id}");
    }
}

#[test]
fn pick_down_reaches_every_sound_of_the_key() {
    let b = bank(true);
    let mut seen = [false; 2];
    for _ in 0..500 {
        seen[b.pick_down("a").unwrap()] = true;
    }
    assert!(seen[0] && seen[1]);
}

#[test]
fn pick_down_falls_back_to_default() {
    let b = bank(true);
    assert_eq!(b.pick_down("zzz"), Some(2));
    // An empty list for the key counts as no list.
    assert_eq!(b.pick_down("b"), Some(2));
}

#[test]
fn pick_down_without_default_is_none() {
    let mut b = bank(true);
    b.down = vec![entry("a", &[0])];
    assert_eq!(b.pick_down("q"), None);
    assert_eq!(b.pick_down("a"), Some(0));
}

#[test]
fn pick_up_respects_supports_key_up() {
    assert_eq!(bank(false).pick_up("a"), None);
    assert_eq!(bank(true).pick_up("a"), Some(3));
    // No "default" among the key-up sounds.
    assert_eq!(bank(true).pick_up("b"), None);
}

#[test]
fn sample_returns_the_indexed_sound() {
    let b = bank(true);
    assert_eq!(*b.sample(0), 10);
    assert_eq!(*b.sample(3), 40);
    let id = b.pick_up("a").unwrap();
    assert_eq!(*b.sample(id), 40);
}

#[test]
fn empty_bank_has_no_sounds() {
    let b: SoundBank<u32> = SoundBank::empty();
    assert_eq!(b.name, "none");
    assert!(b.samples.is_empty());
    assert!(!b.supports_key_up);
    assert_eq!(b.pick_down("a"), None);
    assert_eq!(b.pick_down("default"), None);
    assert_eq!(b.pick_up("a"), None);
}

#[test]
fn find_ids_takes_the_first_matching_entry() {
    let entries = vec![entry("a", &[1]), entry("a", &[2])];
    assert_eq!(clack::bank::find_ids(&entries, "a"), Some(&vec![1]));
    assert_eq!(clack::bank::find_ids(&entries, "A"), None);
}

#[test]
fn pick_at_takes_the_drawn_position() {
    let b = bank(true);
    assert_eq!(clack::bank::pick_at(&b.down, "a", 0), Some(0));
    assert_eq!(clack::bank::pick_at(&b.down, "a", 1), Some(1));
    assert_eq!(clack::bank::pick_at(&b.down, "zzz", 0), Some(2));
    assert_eq!(clack::bank::pick_at(&b.up, "b", 5), None);
}
