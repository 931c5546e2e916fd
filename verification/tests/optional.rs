use standings::optional::{copy_of, present_rows};

#[test]
fn present_rows_skip_the_absent_ones() {
    let rows = vec![Some(1u8), None, Some(3u8), None, None, Some(6u8)];
    assert_eq!(present_rows(&rows), vec![&1, &3, &6]);
    assert_eq!(present_rows(&Vec::<Option<u8>>::new()), Vec::<&u8>::new());
    assert_eq!(present_rows(&vec![None::<u8>, None]), Vec::<&u8>::new());
}

#[test]
fn a_copy_of_a_text_is_the_text() {
    assert_eq!(copy_of(&Some("x".to_string())), Some("x".to_string()));
    assert_eq!(copy_of(&None), None);
}
