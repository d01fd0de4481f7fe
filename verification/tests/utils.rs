use nettrain::utils::{
    first_duplicate, into_string_vec, split_slice, split_slice_mut, stable_hash_seed,
};

#[test]
fn test_into_string_vec() {
    assert_eq!(into_string_vec(&["foo", "bar"]), vec!["foo".to_string(), "bar".to_string()]);
    assert_eq!(
        into_string_vec(&vec!["foo".to_string(), "bar".to_string()]),
        vec!["foo".to_string(), "bar".to_string()]
    );
}

#[test]
fn test_first_duplicate() {
    assert_eq!(first_duplicate(&[1, 2, 3]), None);
    assert_eq!(first_duplicate(&[1, 2, 3, 2]), Some(&2));
    assert_eq!(first_duplicate(&["foo", "bar"]), None);
    assert_eq!(first_duplicate(&["foo", "bar", "foo"]), Some(&"foo"));
    assert_eq!(first_duplicate(&into_string_vec(&["foo", "bar"])), None);
    let mut vec = into_string_vec(&["foo", "bar"]);
    let mut s = "fo".to_string();
    s.push('o');
    vec.push(s);
    assert_eq!(first_duplicate(&vec), Some(&"foo".to_string()));
}

#[test]
fn first_duplicate_is_the_earliest_repeat() {
    assert_eq!(first_duplicate(&[5, 7, 7, 5]), Some(&7));
    assert_eq!(first_duplicate(&[5, 7, 5, 7]), Some(&5));
    let none: [u8; 0] = [];
    assert_eq!(first_duplicate(&none), None);
    assert_eq!(first_duplicate(&[1]), None);
}

#[test]
fn into_string_vec_renders_numbers() {
    assert_eq!(into_string_vec(&[1, -20, 300]), vec!["1", "-20", "300"]);
    let none: [i32; 0] = [];
    assert!(into_string_vec(&none).is_empty());
}

#[test]
fn stable_hash_seed_of_known_strings() {
    assert_eq!(stable_hash_seed(""), [17, 0, 0, 0, 0, 0, 0, 0, 0, 0, 0, 0, 0, 0, 0, 0]);
    assert_eq!(
        stable_hash_seed("a"),
        [218, 168, 170, 170, 170, 170, 170, 170, 170, 170, 170, 170, 170, 170, 170, 170]
    );
    assert_eq!(
        stable_hash_seed("a random string"),
        [20, 91, 131, 85, 135, 239, 66, 106, 120, 133, 170, 170, 170, 170, 170, 170]
    );
}

#[test]
fn stable_hash_seed_is_stable() {
    assert_eq!(stable_hash_seed("seed"), stable_hash_seed("seed"));
    assert_ne!(stable_hash_seed("seed"), stable_hash_seed("sead"));
}

#[test]
fn split_slice_cuts_at_the_left_length() {
    let values = [1, 2, 3, 4, 5];
    let (left, right) = split_slice(&values, 2, 3);
    assert_eq!(left, &[1, 2]);
    assert_eq!(right, &[3, 4, 5]);
    let (left, right) = split_slice(&values, 5, 0);
    assert_eq!(left, &values);
    assert!(right.is_empty());
}

#[test]
fn split_slice_mut_parts_write_through() {
    let mut values = [1, 2, 3, 4, 5];
    {
        let (left, right) = split_slice_mut(&mut values, 4, 1);
        left[3] = 40;
        right[0] = 50;
    }
    assert_eq!(values, [1, 2, 3, 40, 50]);
}
