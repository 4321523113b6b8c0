use age::gen_vec::{GenIdx, GenVec};

#[test]
fn gen_idx_packs_slot_and_generation() {
    let idx = GenIdx::new(5, 3);
    assert_eq!(idx.idx(), (3 << 24) | 5);
    assert_eq!(idx.split(), (5, 3));
    assert_eq!(GenIdx::new(0xFFFFFF, 0xFF).split(), (0xFFFFFF, 0xFF));
    assert_eq!(GenIdx::invalid().idx(), 0xFFFF_FFFF);
}

#[test]
fn gen_vec_add_then_index() {
    let mut v: GenVec<&str> = GenVec::new();
    let a = v.add("a");
    let b = v.add("b");
    assert_eq!(a.split(), (0, 0));
    assert_eq!(b.split(), (1, 0));
    assert_eq!(v[a], "a");
    assert_eq!(v[b], "b");
}

#[test]
fn gen_vec_remove_returns_item_and_moves_generation() {
    let mut v: GenVec<i32> = GenVec::default();
    let a = v.add(10);
    let b = v.add(20);
    assert_eq!(v.remove(a), Some(10));
    assert_eq!(v[b], 20);
    // The slot is now in generation 1; removing it again by that generation
    // finds it empty.
    assert_eq!(v.remove(GenIdx::new(0, 1)), None);
}

#[test]
fn gen_vec_stale_index_names_nothing() {
    let mut v: GenVec<i32> = GenVec::new();
    let a = v.add(1);
    assert!(v.is_live(a));
    v.remove(a);
    assert!(!v.is_live(a));
    assert!(!v.is_live(GenIdx::new(0, 1)));
    assert!(!v.is_live(GenIdx::new(7, 0)));
}

#[test]
fn gen_vec_generation_wraps_after_255() {
    let mut v: GenVec<i32> = GenVec::new();
    let a = v.add(1);
    assert_eq!(v.remove(a), Some(1));
    for g in 1u32..=255 {
        assert_eq!(v.remove(GenIdx::new(0, g as u8)), None);
    }
    // Generation 255 was followed by 0 again.
    assert_eq!(v.remove(GenIdx::new(0, 0)), None);
}

#[test]
fn gen_vec_iter_stays_on_the_first_slot() {
    let mut v: GenVec<char> = GenVec::new();
    assert_eq!(v.iter().next(), None);
    let a = v.add('a');
    let _b = v.add('b');
    let mut it = v.iter();
    assert_eq!(it.next(), Some(&'a'));
    assert_eq!(it.next(), Some(&'a'));
    assert_eq!(it.next(), Some(&'a'));
    assert_eq!(v.remove(a), Some('a'));
    assert!(!v.is_live(a));
}
