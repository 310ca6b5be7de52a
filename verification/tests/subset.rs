use solana_runtime::{get_subset_unchecked_mut, has_duplicates, InstructionError};

#[test]
fn test_has_duplicates() {
    assert!(!has_duplicates(&[1, 2]));
    assert!(has_duplicates(&[1, 2, 1]));
}

#[test]
fn test_has_duplicates_short_lists() {
    let empty: [u8; 0] = [];
    assert!(!has_duplicates(&empty));
    assert!(!has_duplicates(&[9u8]));
    assert!(has_duplicates(&[9u8, 9]));
}

#[test]
fn test_has_duplicates_finds_any_pair() {
    assert!(has_duplicates(&[5u8, 1, 2, 3, 5]));
    assert!(has_duplicates(&[1u8, 2, 3, 4, 4]));
    assert!(has_duplicates(&[1u8, 7, 7, 4, 5]));
    assert!(!has_duplicates(&[0u8, 1, 2, 3, 4, 5, 6, 7, 8, 9, 10, 11, 12, 13, 14, 15]));
    assert!(has_duplicates(&["a", "b", "a"]));
}

#[test]
fn test_get_subset_unchecked_mut() {
    assert_eq!(
        get_subset_unchecked_mut(&mut [7, 8], &[0]).unwrap(),
        vec![&mut 7]
    );
    assert_eq!(
        get_subset_unchecked_mut(&mut [7, 8], &[0, 1]).unwrap(),
        vec![&mut 7, &mut 8]
    );
}

#[test]
fn test_get_subset_unchecked_mut_duplicate_index() {
    assert_eq!(
        get_subset_unchecked_mut(&mut [7, 8], &[0, 0]).unwrap_err(),
        InstructionError::DuplicateAccountIndex
    );
}

#[test]
#[should_panic]
fn test_get_subset_unchecked_mut_out_of_bounds() {
    // The indexes are not checked against the slice: that is the caller's part.
    get_subset_unchecked_mut(&mut [7, 8], &[2]).unwrap();
}

#[test]
fn test_get_subset_keeps_the_order_of_the_indexes() {
    let mut xs = [10, 20, 30, 40];
    let subset = get_subset_unchecked_mut(&mut xs, &[3, 0, 2]).unwrap();
    assert_eq!(subset, vec![&mut 40, &mut 10, &mut 30]);
}

#[test]
fn test_get_subset_of_nothing() {
    let mut xs = [10, 20];
    let subset = get_subset_unchecked_mut(&mut xs, &[]).unwrap();
    assert!(subset.is_empty());
    assert_eq!(xs, [10, 20]);
}

#[test]
fn test_get_subset_writes_reach_the_named_slots_only() {
    let mut xs = [10, 20, 30, 40];
    {
        let mut subset = get_subset_unchecked_mut(&mut xs, &[2, 0]).unwrap();
        *subset[0] += 1;
        *subset[1] += 5;
    }
    assert_eq!(xs, [15, 20, 31, 40]);
}

#[test]
fn test_get_subset_with_a_duplicate_changes_nothing() {
    let mut xs = [10, 20, 30];
    assert_eq!(
        get_subset_unchecked_mut(&mut xs, &[1, 2, 1]).unwrap_err(),
        InstructionError::DuplicateAccountIndex
    );
    assert_eq!(xs, [10, 20, 30]);
}
