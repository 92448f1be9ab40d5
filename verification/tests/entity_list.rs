use thcato::option_vec::OptionVec;
use thcato::structs::{ClickAction, EntityList};

#[test]
fn new_list_is_empty() {
    let l: EntityList<u32> = EntityList::new();
    assert_eq!(l.len(), 0);
    assert_eq!(l.count(), 0);
    assert!(l.selected_idx.is_none());
}

#[test]
fn insert_fills_lowest_free_slot() {
    let mut l: EntityList<&str> = EntityList::with_capacity(4);
    assert_eq!(l.insert("a"), 0);
    assert_eq!(l.insert("b"), 1);
    assert_eq!(l.insert("c"), 2);
    l.delete(1);
    assert_eq!(l.count(), 2);
    assert_eq!(l.len(), 3);
    assert_eq!(l.insert("d"), 1);
    assert_eq!(l.count(), 3);
    assert_eq!(l.len(), 3);
    assert_eq!(l.insert("e"), 3);
    assert_eq!(l.len(), 4);
}

#[test]
fn delete_drops_matching_selection_only() {
    let mut l: EntityList<u8> = EntityList::new();
    l.insert(1);
    l.insert(2);
    l.selected_idx = Some(1);
    l.delete(0);
    assert_eq!(l.selected_idx, Some(1));
    l.delete(1);
    assert_eq!(l.selected_idx, None);
    assert_eq!(l.count(), 0);
    assert_eq!(l.len(), 2);
}

#[test]
fn delete_past_end_changes_nothing() {
    let mut l: EntityList<u8> = EntityList::new();
    l.insert(7);
    l.selected_idx = Some(5);
    l.delete(5);
    assert_eq!(l.count(), 1);
    assert_eq!(l.len(), 1);
    assert_eq!(l.selected_idx, None);
}

#[test]
fn get_mut_element_writes_through() {
    let mut l: EntityList<u32> = EntityList::new();
    l.insert(10);
    l.insert(20);
    if let Some(x) = l.get_mut_element(1) {
        *x = 25;
    }
    assert_eq!(l.entities.get_element(1), Some(&25));
    l.delete(0);
    assert!(l.get_mut_element(0).is_none());
    assert!(l.get_mut_element(9).is_none());
}

#[test]
fn clear_empties_and_deselects() {
    let mut l: EntityList<u32> = EntityList::new();
    l.insert(1);
    l.insert(2);
    l.selected_idx = Some(0);
    l.clear();
    assert_eq!(l.len(), 0);
    assert_eq!(l.count(), 0);
    assert!(l.selected_idx.is_none());
    assert_eq!(l.insert(3), 0);
}

#[test]
fn click_action_defaults_to_select() {
    assert_eq!(ClickAction::default(), ClickAction::Select);
}

#[test]
fn option_vec_insert_then_delete_restores_slots() {
    let mut v: OptionVec<i32> = OptionVec::new();
    v.insert(1);
    v.insert(2);
    v.delete(0);
    let i = v.insert(9);
    assert_eq!(i, 0);
    assert_eq!(v.get_element(0), Some(&9));
    v.delete(i);
    assert_eq!(v.get_element(0), None);
    assert_eq!(v.get_element(1), Some(&2));
    assert_eq!(v.count(), 1);
}
