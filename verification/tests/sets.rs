use sozu_pki_connector::svc::certificates::sets::{
    bytes_within, copy_digests, copy_texts, holds_bytes, holds_text, same_bytes, same_digests,
    same_texts, texts_within,
};

fn texts(items: &[&str]) -> Vec<String> {
    items.iter().map(|item| item.to_string()).collect()
}

#[test]
fn byte_strings_are_the_same_when_every_byte_is() {
    assert!(same_bytes(&vec![], &vec![]));
    assert!(same_bytes(&vec![1, 2, 3], &vec![1, 2, 3]));
    assert!(!same_bytes(&vec![1, 2, 3], &vec![1, 2]));
    assert!(!same_bytes(&vec![1, 2], &vec![1, 2, 3]));
    assert!(!same_bytes(&vec![1, 2, 3], &vec![1, 2, 4]));
    assert!(!same_bytes(&vec![0, 2, 3], &vec![1, 2, 3]));
}

#[test]
fn a_text_is_held_where_it_occurs() {
    let list = texts(&["a", "b", "c"]);
    assert!(holds_text(&list, &"a".to_string()));
    assert!(holds_text(&list, &"c".to_string()));
    assert!(!holds_text(&list, &"d".to_string()));
    assert!(!holds_text(&list, &"".to_string()));
    assert!(!holds_text(&vec![], &"a".to_string()));
}

#[test]
fn texts_are_within_when_each_occurs() {
    assert!(texts_within(&texts(&[]), &texts(&[])));
    assert!(texts_within(&texts(&[]), &texts(&["a"])));
    assert!(texts_within(&texts(&["b", "a", "b"]), &texts(&["a", "b", "c"])));
    assert!(!texts_within(&texts(&["a", "d"]), &texts(&["a", "b", "c"])));
    assert!(!texts_within(&texts(&["a"]), &texts(&[])));
}

#[test]
fn texts_are_the_same_whatever_their_order_and_repetition() {
    assert!(same_texts(&texts(&[]), &texts(&[])));
    assert!(same_texts(&texts(&["a", "b"]), &texts(&["b", "a"])));
    assert!(same_texts(&texts(&["a", "b", "a"]), &texts(&["b", "a"])));
    assert!(!same_texts(&texts(&["a", "b"]), &texts(&["a"])));
    assert!(!same_texts(&texts(&["a"]), &texts(&["a", "b"])));
    assert!(!same_texts(&texts(&["a"]), &texts(&["b"])));
}

#[test]
fn a_byte_string_is_held_where_it_occurs() {
    let list = vec![vec![1u8, 2], vec![], vec![3]];
    assert!(holds_bytes(&list, &vec![1, 2]));
    assert!(holds_bytes(&list, &vec![]));
    assert!(holds_bytes(&list, &vec![3]));
    assert!(!holds_bytes(&list, &vec![1]));
    assert!(!holds_bytes(&vec![], &vec![1]));
}

#[test]
fn byte_strings_are_within_when_each_occurs() {
    assert!(bytes_within(&vec![], &vec![vec![1u8]]));
    assert!(bytes_within(&vec![vec![2u8], vec![1], vec![2]], &vec![vec![1], vec![2], vec![3]]));
    assert!(!bytes_within(&vec![vec![1u8], vec![4]], &vec![vec![1], vec![2], vec![3]]));
}

#[test]
fn digests_are_the_same_whatever_their_order_and_repetition() {
    assert!(same_digests(&vec![], &vec![]));
    assert!(same_digests(&vec![vec![1u8], vec![2]], &vec![vec![2], vec![1], vec![2]]));
    assert!(!same_digests(&vec![vec![1u8], vec![2]], &vec![vec![1]]));
    assert!(!same_digests(&vec![vec![1u8]], &vec![vec![1, 0]]));
}

#[test]
fn copies_hold_what_the_lists_hold() {
    let list = texts(&["a", "", "c"]);
    assert_eq!(copy_texts(&list), list);
    assert_eq!(copy_texts(&vec![]), Vec::<String>::new());
    let digests = vec![vec![1u8, 2], vec![], vec![3]];
    assert_eq!(copy_digests(&digests), digests);
    assert_eq!(copy_digests(&vec![]), Vec::<Vec<u8>>::new());
}
