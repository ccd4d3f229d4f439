use intlist::list::{EliasFanoError, IntegerList};

#[test]
fn test_integer_list() {
    let original_list = [1, 2, 3];
    let ef_list = IntegerList::new(&original_list).unwrap();
    assert_eq!(ef_list.iter(0), original_list);
}

#[test]
fn test_integer_list_serialization() {
    let original_list = [1, 2, 3];
    let ef_list = IntegerList::new(&original_list).unwrap();

    let blist = ef_list.to_bytes();
    assert_eq!(IntegerList::from_bytes(&blist).unwrap(), ef_list)
}

#[test]
fn test_integer_list_intersection() {
    // Empty intersection of non-empty lists
    let a = IntegerList::new(&[1, 2, 3]).unwrap();
    let b = IntegerList::new(&[4, 5, 6]).unwrap();
    assert_eq!(a.intersection(&b), None);

    let a = IntegerList::new(&[1]).unwrap();
    let b = IntegerList::new(&[1]).unwrap();
    assert_eq!(a.intersection(&b), Some(a));

    let a = IntegerList::new(&[2, 3, 4]).unwrap();
    let b = IntegerList::new(&[3, 4, 5]).unwrap();
    assert_eq!(a.intersection(&b), Some(IntegerList::new(&[3, 4]).unwrap()));

    // Intersection of even numbers
    let a = IntegerList::new(&(1..=50).map(|num| num * 2).collect::<Vec<usize>>()).unwrap();
    let b = IntegerList::new(&(0..=100).collect::<Vec<usize>>()).unwrap();
    assert_eq!(a.intersection(&b), Some(a));
}

#[test]
fn serde_serialize_deserialize() {
    let original_list = [1, 2, 3];
    let ef_list = IntegerList::new(&original_list).unwrap();

    let serde_out = serde_json::to_string(&ef_list.to_vec()).unwrap();
    assert_eq!(serde_out, "[1,2,3]");
    let values = serde_json::from_str::<Vec<usize>>(&serde_out).unwrap();
    let serde_ef_list = IntegerList::new(&values).unwrap();
    assert_eq!(serde_ef_list, ef_list);
}

#[test]
fn round_trip_through_bytes_keeps_every_value() {
    let values: Vec<usize> = vec![0, 0, 5, 5, 5, 17, 1000, 1_000_000, 1 << 40];
    let list = IntegerList::new(&values).unwrap();
    let back = IntegerList::from_bytes(&list.to_bytes()).unwrap();
    assert_eq!(back.to_vec(), values);
    assert_eq!(back, list);
}

#[test]
fn get_reads_each_position() {
    let values: Vec<usize> = vec![3, 3, 8, 21, 21, 64, 65, 900];
    let list = IntegerList::new(&values).unwrap();
    assert_eq!(list.len(), values.len());
    for (i, v) in values.iter().enumerate() {
        assert_eq!(list.get(i), *v);
    }
}

#[test]
fn iter_from_a_later_start() {
    let list = IntegerList::new(&[1, 3, 3, 7]).unwrap();
    assert_eq!(list.iter(1), vec![3, 3, 7]);
    assert_eq!(list.iter(4), Vec::<usize>::new());
    assert_eq!(list.iter(9), Vec::<usize>::new());
}

#[test]
fn new_rejects_empty_and_descending() {
    assert_eq!(IntegerList::new(&[]), Err(EliasFanoError::InvalidInput));
    assert_eq!(IntegerList::new(&[3, 2, 1]), Err(EliasFanoError::InvalidInput));
    assert_eq!(IntegerList::new(&[1, 5, 4]), Err(EliasFanoError::InvalidInput));
}

#[test]
fn new_rejects_a_last_value_of_usize_max() {
    assert_eq!(IntegerList::new(&[1, usize::MAX]), Err(EliasFanoError::InvalidInput));
    assert!(IntegerList::new(&[1, usize::MAX - 1]).is_ok());
}

#[test]
fn new_accepts_a_single_zero_and_equal_values() {
    let list = IntegerList::new(&[0]).unwrap();
    assert_eq!(list.to_vec(), vec![0]);
    let list = IntegerList::new(&[7, 7, 7]).unwrap();
    assert_eq!(list.to_vec(), vec![7, 7, 7]);
}

#[test]
fn pre_sorted_matches_new() {
    let values = [2, 4, 4, 9];
    assert_eq!(IntegerList::new_pre_sorted(&values), IntegerList::new(&values).unwrap());
}

#[test]
fn serialization_is_deterministic() {
    let a = IntegerList::new(&[4, 8, 15, 16, 23, 42]).unwrap();
    let b = IntegerList::new(&[4, 8, 15, 16, 23, 42]).unwrap();
    assert_eq!(a.to_bytes(), a.to_bytes());
    assert_eq!(a.to_bytes(), b.to_bytes());
    assert!(!a.to_bytes().is_empty());
}

#[test]
fn to_mut_bytes_appends_after_existing_content() {
    let list = IntegerList::new(&[1, 2, 3]).unwrap();
    let mut buf: Vec<u8> = vec![9, 9];
    list.to_mut_bytes(&mut buf);
    let mut expected = vec![9, 9];
    expected.extend_from_slice(&list.to_bytes());
    assert_eq!(buf, expected);
}

#[test]
fn from_bytes_fails_on_empty_input() {
    assert_eq!(IntegerList::from_bytes(&[]), Err(EliasFanoError::FailedDeserialize));
    assert_eq!(IntegerList::from_bytes(&[0, 0, 0]), Err(EliasFanoError::FailedDeserialize));
}

#[test]
fn intersection_pairs_duplicates_in_lockstep() {
    let a = IntegerList::new(&[1, 1, 1, 4]).unwrap();
    let b = IntegerList::new(&[1, 1, 4, 4]).unwrap();
    assert_eq!(a.intersection(&b).unwrap().to_vec(), vec![1, 1, 4]);
    assert_eq!(b.intersection(&a).unwrap().to_vec(), vec![1, 1, 4]);
}

#[test]
fn logical_form_round_trip() {
    let list = IntegerList::new(&[10, 20, 20, 30]).unwrap();
    let again = IntegerList::new(&list.to_vec()).unwrap();
    assert_eq!(again, list);
}

#[test]
fn from_bytes_fails_on_every_strict_prefix() {
    let list = IntegerList::new(&[3, 9, 9, 40, 41, 1000]).unwrap();
    let bytes = list.to_bytes();
    for k in 0..bytes.len() {
        assert_eq!(IntegerList::from_bytes(&bytes[..k]), Err(EliasFanoError::FailedDeserialize));
    }
}

#[test]
fn from_bytes_fails_on_a_huge_length_prefix() {
    assert_eq!(IntegerList::from_bytes(&[0xFF; 8]), Err(EliasFanoError::FailedDeserialize));
    let mut bytes = vec![0xFF; 8];
    bytes.extend_from_slice(&[0; 64]);
    assert_eq!(IntegerList::from_bytes(&bytes), Err(EliasFanoError::FailedDeserialize));
}

#[test]
fn from_bytes_fails_on_trailing_bytes() {
    let list = IntegerList::new(&[1, 2, 3]).unwrap();
    let mut bytes = list.to_bytes();
    bytes.push(0);
    assert_eq!(IntegerList::from_bytes(&bytes), Err(EliasFanoError::FailedDeserialize));
}

#[test]
fn to_bytes_is_not_empty() {
    assert!(!IntegerList::new(&[0]).unwrap().to_bytes().is_empty());
}
