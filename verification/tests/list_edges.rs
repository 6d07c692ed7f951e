use sum_window::list::List;
use sum_window::list_methods::insert_before;
use sum_window::node::Node;

fn ascending_verdict(item: &i64, current: &i64) -> (bool, bool) {
    if item < current {
        (true, true)
    } else {
        (false, false)
    }
}

fn always_after(_item: &i64, _current: &i64) -> (bool, bool) {
    (false, false)
}

fn always_in_front(_item: &i64, _current: &i64) -> (bool, bool) {
    (true, true)
}

fn stop_and_go_behind(_item: &i64, _current: &i64) -> (bool, bool) {
    (true, false)
}

fn pass_then_go_in_front(_item: &i64, _current: &i64) -> (bool, bool) {
    (false, true)
}

fn items(list: &List<i64>) -> Vec<i64> {
    let mut out = Vec::new();
    let mut cursor = list.get_head();
    while let Some(node) = cursor {
        out.push(node.item);
        cursor = node.next.map(|slot| list.node(slot));
    }
    out
}

fn items_backwards(list: &List<i64>) -> Vec<i64> {
    let mut out = Vec::new();
    let mut cursor = list.get_last();
    while let Some(node) = cursor {
        out.push(node.item);
        cursor = node.prev.map(|slot| list.node(slot));
    }
    out
}

#[test]
fn node_new_has_no_neighbours() {
    let node = Node::new(7u8);
    assert_eq!(node.item, 7);
    assert!(node.next.is_none());
    assert!(node.prev.is_none());
}

#[test]
fn new_list_has_neither_head_nor_tail() {
    let list: List<i64> = List::new();
    assert_eq!(list.len(), 0);
    assert!(list.is_empty());
    assert!(list.get_head().is_none());
    assert!(list.get_last().is_none());
    assert_eq!(list.to_string(), "()");
}

#[test]
fn len_is_pushes_minus_pops_that_found_something() {
    let mut list: List<i64> = List::new();
    assert_eq!(list.pop_back(), None);
    assert_eq!(list.pop_front(), None);
    assert_eq!(list.len(), 0);
    list.push_back(1);
    list.push_front(2);
    list.push_back(3);
    assert_eq!(list.len(), 3);
    assert_eq!(list.pop_front(), Some(2));
    assert_eq!(list.len(), 2);
    list.push_front(4);
    assert_eq!(list.pop_back(), Some(3));
    assert_eq!(list.pop_back(), Some(1));
    assert_eq!(list.pop_back(), Some(4));
    assert_eq!(list.pop_back(), None);
    assert_eq!(list.pop_front(), None);
    assert_eq!(list.len(), 0);
    list.push_back(5);
    assert_eq!(list.len(), 1);
}

#[test]
fn pushes_render_in_order() {
    let mut list: List<i64> = List::new();
    list.push_back(10);
    list.push_back(20);
    list.push_back(30);
    assert_eq!(list.to_string(), "(10) <-> (20) <-> (30)");
    assert_eq!(items(&list), vec![10, 20, 30]);
    list.push_front(5);
    assert_eq!(list.to_string(), "(5) <-> (10) <-> (20) <-> (30)");
    assert_eq!(items(&list), vec![5, 10, 20, 30]);
    assert_eq!(items_backwards(&list), vec![30, 20, 10, 5]);
}

#[test]
fn pops_return_the_edge_elements() {
    let mut list: List<i64> = List::from(vec![1, 2, 3, 4]);
    assert_eq!(list.pop_front(), Some(1));
    assert_eq!(list.pop_back(), Some(4));
    assert_eq!(items(&list), vec![2, 3]);
    assert_eq!(items_backwards(&list), vec![3, 2]);
    let head = list.get_head().unwrap();
    assert!(head.prev.is_none());
    let last = list.get_last().unwrap();
    assert!(last.next.is_none());
}

#[test]
fn single_element_pop_clears_head_and_tail() {
    let mut list: List<i64> = List::new();
    list.push_back(9);
    let head = list.get_head().unwrap();
    assert_eq!(head.item, 9);
    assert!(head.next.is_none() && head.prev.is_none());
    assert_eq!(list.get_last().unwrap().item, 9);
    assert_eq!(list.pop_front(), Some(9));
    assert!(list.get_head().is_none());
    assert!(list.get_last().is_none());
    list.push_front(8);
    assert_eq!(list.pop_back(), Some(8));
    assert!(list.get_head().is_none());
    assert!(list.get_last().is_none());
    assert!(list.is_empty());
}

#[test]
fn single_element_delete_clears_head_and_tail() {
    let mut list: List<i64> = List::new();
    list.push_back(9);
    list.delete_any(|item| *item == 9);
    assert!(list.get_head().is_none());
    assert!(list.get_last().is_none());
    assert_eq!(list.len(), 0);
    list.push_back(3);
    assert_eq!(items(&list), vec![3]);
}

#[test]
fn insert_into_empty_list_is_a_push() {
    let mut list: List<i64> = List::new();
    list.insert(4, ascending_verdict);
    assert_eq!(items(&list), vec![4]);
    assert_eq!(list.get_head().unwrap().item, 4);
    assert_eq!(list.get_last().unwrap().item, 4);
}

#[test]
fn insert_next_to_a_single_element() {
    let mut list: List<i64> = List::from(vec![5]);
    list.insert(1, ascending_verdict);
    assert_eq!(items(&list), vec![1, 5]);
    let mut list: List<i64> = List::from(vec![5]);
    list.insert(9, ascending_verdict);
    assert_eq!(items(&list), vec![5, 9]);
    assert_eq!(items_backwards(&list), vec![9, 5]);
}

#[test]
fn insert_before_head_and_after_tail() {
    let mut list: List<i64> = List::from(vec![10, 20, 30]);
    list.insert(5, ascending_verdict);
    assert_eq!(items(&list), vec![5, 10, 20, 30]);
    assert_eq!(list.get_head().unwrap().item, 5);
    list.insert(40, ascending_verdict);
    assert_eq!(items(&list), vec![5, 10, 20, 30, 40]);
    assert_eq!(list.get_last().unwrap().item, 40);
    list.insert(25, ascending_verdict);
    assert_eq!(items(&list), vec![5, 10, 20, 25, 30, 40]);
    assert_eq!(items_backwards(&list), vec![40, 30, 25, 20, 10, 5]);
    assert_eq!(list.len(), 6);
}

#[test]
fn insert_goes_where_the_comparator_says() {
    let mut list: List<i64> = List::from(vec![1, 2, 3]);
    list.insert(7, always_after);
    assert_eq!(items(&list), vec![1, 2, 3, 7]);

    let mut list: List<i64> = List::from(vec![1, 2, 3]);
    list.insert(7, always_in_front);
    assert_eq!(items(&list), vec![7, 1, 2, 3]);

    let mut list: List<i64> = List::from(vec![1, 2, 3]);
    list.insert(7, stop_and_go_behind);
    assert_eq!(items(&list), vec![1, 7, 2, 3]);

    // Never told to stop, the scan rests at the tail and takes the last verdict.
    let mut list: List<i64> = List::from(vec![1, 2, 3]);
    list.insert(7, pass_then_go_in_front);
    assert_eq!(items(&list), vec![1, 2, 7, 3]);

    let mut list: List<i64> = List::from(vec![1, 2, 3]);
    list.insert(7, |_item: &i64, current: &i64| (*current == 2, true));
    assert_eq!(items(&list), vec![1, 7, 2, 3]);

    let mut list: List<i64> = List::from(vec![1, 2, 3]);
    list.insert(7, |_item: &i64, current: &i64| (*current == 2, false));
    assert_eq!(items(&list), vec![1, 2, 7, 3]);
}

#[test]
fn ascending_insert_sorts_any_order_of_values() {
    let orders: Vec<Vec<i64>> = vec![
        vec![3, 1, 2],
        vec![1, 2, 3],
        vec![3, 2, 1],
        vec![2, 2, 1, 3, 1, 3, 2],
        vec![-5, 7, 0, -5, 7, i64::MIN, i64::MAX, 0],
        vec![4, 4, 4, 4],
    ];
    for order in orders {
        let mut list: List<i64> = List::new();
        for value in order.iter() {
            list.insert(*value, insert_before);
        }
        let mut expected = order.clone();
        expected.sort();
        assert_eq!(items(&list), expected);
        assert_eq!(list.len(), order.len());
    }
}

#[test]
fn insert_before_gives_the_ascending_verdict() {
    assert_eq!(insert_before(&1u8, &2u8), (true, true));
    assert_eq!(insert_before(&2u8, &2u8), (false, false));
    assert_eq!(insert_before(&3u8, &2u8), (false, false));
    assert_eq!(insert_before(&-3i16, &-2i16), (true, true));
}

#[test]
fn delete_any_removes_only_the_first_match() {
    let mut list: List<i64> = List::from(vec![4, 7, 4, 7, 4]);
    list.delete_any(|item| *item == 7);
    assert_eq!(items(&list), vec![4, 4, 7, 4]);
    assert_eq!(items_backwards(&list), vec![4, 7, 4, 4]);
    list.delete_any(|item| *item == 4);
    assert_eq!(items(&list), vec![4, 7, 4]);
    list.delete_any(|item| *item == 4);
    assert_eq!(items(&list), vec![7, 4]);
    assert_eq!(list.len(), 2);
}

#[test]
fn delete_any_without_a_match_changes_nothing() {
    let mut list: List<i64> = List::from(vec![1, 2, 3]);
    list.delete_any(|item| *item == 9);
    assert_eq!(items(&list), vec![1, 2, 3]);
    assert_eq!(list.len(), 3);
    let mut none: List<i64> = List::new();
    none.delete_any(|_item| true);
    assert!(none.is_empty());
}

#[test]
fn delete_any_at_head_middle_and_tail() {
    let mut list: List<i64> = List::from(vec![1, 2, 3, 4, 5]);
    list.delete_any(|item| *item == 1);
    assert_eq!(items(&list), vec![2, 3, 4, 5]);
    assert!(list.get_head().unwrap().prev.is_none());
    list.delete_any(|item| *item == 5);
    assert_eq!(items(&list), vec![2, 3, 4]);
    assert!(list.get_last().unwrap().next.is_none());
    list.delete_any(|item| *item == 3);
    assert_eq!(items(&list), vec![2, 4]);
    assert_eq!(items_backwards(&list), vec![4, 2]);
}

#[test]
fn vacated_slots_are_used_again() {
    let mut list: List<i64> = List::from(vec![1, 2, 3]);
    let slot_of_two = list.get_head().unwrap().next.unwrap();
    list.delete_any(|item| *item == 2);
    list.push_back(4);
    assert_eq!(list.get_last().unwrap().prev, list.get_head().unwrap().next);
    assert_eq!(list.node(slot_of_two).item, 4);
    for round in 0..1000 {
        list.push_back(round);
        assert_eq!(list.pop_front().is_some(), true);
        list.insert(round, ascending_verdict);
        list.delete_any(|item| *item == round);
    }
    assert_eq!(list.len(), 3);
    assert_eq!(items(&list), vec![997, 998, 999]);
    assert_eq!(items_backwards(&list), vec![999, 998, 997]);
}

#[test]
fn handles_stay_valid_across_other_edits() {
    let mut list: List<i64> = List::from(vec![1, 2, 3]);
    let slot_of_two = list.get_head().unwrap().next.unwrap();
    list.push_front(0);
    list.push_back(4);
    list.insert(9, always_after);
    list.delete_any(|item| *item == 1);
    let two = list.node(slot_of_two);
    assert_eq!(two.item, 2);
    assert_eq!(list.node(two.prev.unwrap()).item, 0);
    assert_eq!(list.node(two.next.unwrap()).item, 3);
}

#[test]
fn from_vec_keeps_the_order() {
    let list: List<i64> = List::from(vec![3, 1, 2]);
    assert_eq!(items(&list), vec![3, 1, 2]);
    assert_eq!(list.len(), 3);
}

#[test]
fn numerals_are_decimal_with_a_sign() {
    let list: List<i128> = List::from(vec![0, -1, 10, -10, 1905, i128::MAX, i128::MIN]);
    assert_eq!(
        list.to_string(),
        "(0) <-> (-1) <-> (10) <-> (-10) <-> (1905) <-> \
         (170141183460469231731687303715884105727) <-> \
         (-170141183460469231731687303715884105728)"
    );
    let wide: List<u128> = List::from(vec![u128::MAX, 0, 100]);
    assert_eq!(wide.to_string(), "(340282366920938463463374607431768211455) <-> (0) <-> (100)");
    let narrow: List<i8> = List::from(vec![i8::MIN, i8::MAX]);
    assert_eq!(narrow.to_string(), "(-128) <-> (127)");
    let sizes: List<isize> = List::from(vec![isize::MIN, -7]);
    assert_eq!(sizes.to_string(), format!("({}) <-> (-7)", isize::MIN));
}
