use dll::render::render_list;
use dll::{DoublyLinkedList, ListError};

fn list_of(values: &[i32]) -> DoublyLinkedList<i32> {
    let mut l = DoublyLinkedList::new();
    for v in values {
        l.push(*v);
    }
    l
}

#[test]
fn new_list_is_empty() {
    let l: DoublyLinkedList<i32> = DoublyLinkedList::new();
    assert_eq!(l.len(), 0);
    assert_eq!(l.get(0), Err(ListError::IndexOutOfBounds));
    assert_eq!(l.debug_string(), "[]");
}

#[test]
fn push_three_then_read() {
    let l = list_of(&[1, 2, 3]);
    assert_eq!(l.len(), 3);
    assert_eq!(l.get(0), Ok(1));
    assert_eq!(l.get(1), Ok(2));
    assert_eq!(l.get(2), Ok(3));
    assert_eq!(l.debug_string(), "[1, 2, 3]");
}

#[test]
fn remove_interior() {
    let mut l = list_of(&[1, 2, 3]);
    assert_eq!(l.remove(1), Ok(2));
    assert_eq!(l.len(), 2);
    assert_eq!(l.get(0), Ok(1));
    assert_eq!(l.get(1), Ok(3));
    assert_eq!(l.debug_string(), "[1, 3]");
}

#[test]
fn remove_only_element() {
    let mut l = list_of(&[5]);
    assert_eq!(l.remove(0), Ok(5));
    assert_eq!(l.len(), 0);
    assert_eq!(l.debug_string(), "[]");
    assert_eq!(l.get(0), Err(ListError::IndexOutOfBounds));
}

#[test]
fn remove_head() {
    let mut l = list_of(&[1, 2]);
    assert_eq!(l.remove(0), Ok(1));
    assert_eq!(l.get(0), Ok(2));
    assert_eq!(l.len(), 1);
    assert_eq!(l.debug_string(), "[2]");
}

#[test]
fn remove_tail() {
    let mut l = list_of(&[1, 2]);
    assert_eq!(l.remove(1), Ok(2));
    assert_eq!(l.get(0), Ok(1));
    assert_eq!(l.len(), 1);
    assert_eq!(l.debug_string(), "[1]");
}

#[test]
fn out_of_bounds_is_refused() {
    let mut l = list_of(&[7, 8]);
    assert_eq!(l.get(2), Err(ListError::IndexOutOfBounds));
    assert_eq!(l.get(usize::MAX), Err(ListError::IndexOutOfBounds));
    assert_eq!(l.remove(2), Err(ListError::IndexOutOfBounds));
    assert_eq!(l.remove(100), Err(ListError::IndexOutOfBounds));
    assert_eq!(l.len(), 2);
    assert_eq!(l.debug_string(), "[7, 8]");
    let mut e: DoublyLinkedList<i32> = DoublyLinkedList::new();
    assert_eq!(e.remove(0), Err(ListError::IndexOutOfBounds));
    assert_eq!(e.len(), 0);
}

#[test]
fn length_counts_pushes_minus_removes() {
    let mut l = DoublyLinkedList::new();
    for v in 0..10 {
        l.push(v);
    }
    assert_eq!(l.len(), 10);
    assert_eq!(l.remove(3), Ok(3));
    assert_eq!(l.remove(42), Err(ListError::IndexOutOfBounds));
    assert_eq!(l.remove(0), Ok(0));
    l.push(10);
    assert_eq!(l.len(), 9);
}

#[test]
fn pushes_keep_their_order() {
    let values = [4, -1, 9, 9, 0, 12];
    let l = list_of(&values);
    for (i, v) in values.iter().enumerate() {
        assert_eq!(l.get(i), Ok(*v));
    }
}

#[test]
fn remove_returns_what_get_saw() {
    let mut l = list_of(&[10, 20, 30, 40]);
    let seen = l.get(1).unwrap();
    let taken = l.remove(1).unwrap();
    assert_eq!(seen, taken);
    l.push(taken);
    assert_eq!(l.len(), 4);
    assert_eq!(l.debug_string(), "[10, 30, 40, 20]");
}

#[test]
fn empty_again_after_removing_everything() {
    let mut l = list_of(&[1, 2, 3]);
    assert_eq!(l.remove(1), Ok(2));
    assert_eq!(l.remove(1), Ok(3));
    assert_ne!(l.len(), 0);
    assert_eq!(l.remove(0), Ok(1));
    assert_eq!(l.len(), 0);
    l.push(6);
    assert_eq!(l.len(), 1);
    assert_eq!(l.get(0), Ok(6));
}

#[test]
fn vacated_slots_are_reused_in_order() {
    let mut l = list_of(&[1, 2, 3, 4]);
    assert_eq!(l.remove(1), Ok(2));
    assert_eq!(l.remove(2), Ok(4));
    l.push(5);
    l.push(6);
    l.push(7);
    assert_eq!(l.len(), 5);
    assert_eq!(l.debug_string(), "[1, 3, 5, 6, 7]");
    assert_eq!(l.remove(4), Ok(7));
    assert_eq!(l.remove(0), Ok(1));
    assert_eq!(l.debug_string(), "[3, 5, 6]");
}

#[test]
fn strings_are_cloned_out() {
    let mut l = DoublyLinkedList::new();
    l.push(String::from("a"));
    l.push(String::from("bc"));
    assert_eq!(l.get(1), Ok(String::from("bc")));
    assert_eq!(l.debug_string(), "[\"a\", \"bc\"]");
    assert_eq!(l.remove(0), Ok(String::from("a")));
    assert_eq!(l.debug_string(), "[\"bc\"]");
}

#[test]
fn render_joins_parts() {
    assert_eq!(render_list(&vec![]), "[]");
    assert_eq!(render_list(&vec![String::from("x")]), "[x]");
    assert_eq!(
        render_list(&vec![String::from("1"), String::from(""), String::from("3")]),
        "[1, , 3]"
    );
}
