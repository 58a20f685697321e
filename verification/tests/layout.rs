use sharedmem::layout::reinterpreted_len;
use sharedmem::layout::reinterpreted_len_as;

#[test]
fn whole_aligned_elements_are_counted() {
    assert_eq!(reinterpreted_len(12, 0x1000, 4, 4), Some(3));
    assert_eq!(reinterpreted_len(64, 24, 8, 8), Some(8));
    assert_eq!(reinterpreted_len(6, 2, 2, 2), Some(3));
}

#[test]
fn bytes_are_always_bytes() {
    assert_eq!(reinterpreted_len(0, 7, 1, 1), Some(0));
    assert_eq!(reinterpreted_len(5, 7, 1, 1), Some(5));
    assert_eq!(reinterpreted_len(usize::MAX, usize::MAX, 1, 1), Some(usize::MAX));
}

#[test]
fn a_length_that_is_no_multiple_of_the_size_is_rejected() {
    assert_eq!(reinterpreted_len(13, 0x1000, 4, 4), None);
    assert_eq!(reinterpreted_len(3, 0, 4, 4), None);
    assert_eq!(reinterpreted_len(7, 8, 8, 1), None);
}

#[test]
fn a_misaligned_address_is_rejected() {
    assert_eq!(reinterpreted_len(12, 0x1002, 4, 4), None);
    assert_eq!(reinterpreted_len(8, 4, 8, 8), None);
    assert_eq!(reinterpreted_len(8, 1, 2, 2), None);
}

#[test]
fn an_empty_region_holds_no_element() {
    assert_eq!(reinterpreted_len(0, 16, 4, 4), Some(0));
    assert_eq!(reinterpreted_len(0, 18, 4, 4), None);
}

#[test]
fn no_size_or_no_alignment_is_rejected() {
    assert_eq!(reinterpreted_len(8, 8, 0, 1), None);
    assert_eq!(reinterpreted_len(0, 0, 0, 1), None);
    assert_eq!(reinterpreted_len(8, 8, 4, 0), None);
}

#[test]
fn the_element_type_gives_size_and_alignment() {
    let align = std::mem::align_of::<u32>();
    assert_eq!(reinterpreted_len_as::<u32>(8, 4 * align), Some(2));
    assert_eq!(reinterpreted_len_as::<u32>(10, 4 * align), None);
    assert_eq!(reinterpreted_len_as::<u32>(8, 4 * align + 1), None);
    assert_eq!(reinterpreted_len_as::<u8>(11, 3), Some(11));
    assert_eq!(reinterpreted_len_as::<[u8; 3]>(9, 5), Some(3));
    assert_eq!(reinterpreted_len_as::<[u8; 3]>(10, 5), None);
    assert_eq!(reinterpreted_len_as::<()>(0, 0), None);
}
