use dense_matrix::myvec::MyVec;

#[test]
fn test() {
    let vec = vec!["a", "b", "c", "d"];
    let myvec: MyVec<_> = vec.clone().into();
    assert_eq!(myvec.len(), 4);
    for (got, want) in myvec.iter().zip(vec.iter()) {
        assert_eq!(got, want);
    }
}

#[test]
fn new_holds_nothing() {
    let v: MyVec<u32> = MyVec::new();
    assert_eq!(v.len(), 0);
    assert_eq!(v.get(0), None);
    assert!(v.iter().next().is_none());
}

#[test]
fn default_holds_nothing() {
    let v: MyVec<String> = MyVec::default();
    assert_eq!(v.len(), 0);
}

#[test]
fn push_adds_behind_the_last_value() {
    let mut v = MyVec::new();
    v.push(7);
    v.push(8);
    v.push(9);
    assert_eq!(v.len(), 3);
    assert_eq!(v.get(0), Some(&7));
    assert_eq!(v.get(2), Some(&9));
    assert_eq!(v.get(3), None);
    assert_eq!(v[1], 8);
}

#[test]
fn iter_walks_front_to_back_and_then_stays_at_the_end() {
    let v: MyVec<i32> = vec![3, 1, 2].into();
    let mut it = v.iter();
    assert_eq!(it.next(), Some(&3));
    assert_eq!(it.next(), Some(&1));
    assert_eq!(it.next(), Some(&2));
    assert_eq!(it.next(), None);
    assert_eq!(it.next(), None);
    let again: Vec<i32> = v.iter().copied().collect();
    assert_eq!(again, vec![3, 1, 2]);
}

#[test]
fn a_borrowed_myvec_can_be_looped_over() {
    let v: MyVec<i32> = vec![10, 20, 30].into();
    let mut sum = 0;
    for x in &v {
        sum += *x;
    }
    assert_eq!(sum, 60);
}

#[test]
fn as_mut_changes_the_sequence_in_place() {
    let mut v: MyVec<i32> = vec![1, 2, 3].into();
    v.as_mut().retain(|x| *x != 2);
    v.as_mut().push(4);
    assert_eq!(v.len(), 3);
    assert_eq!(v[0], 1);
    assert_eq!(v[1], 3);
    assert_eq!(v[2], 4);
}

#[test]
fn from_keeps_the_values_in_order() {
    let v = MyVec::from(vec!['x', 'y']);
    assert_eq!(v.len(), 2);
    assert_eq!(v.get(0), Some(&'x'));
    assert_eq!(v.get(1), Some(&'y'));
}
