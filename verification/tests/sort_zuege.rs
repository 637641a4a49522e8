use zusi_fahrplan_generator::kern::generate_fahrplan::sort_zuege;

fn numbered(items: &[(&str, u32)]) -> Vec<(String, u32)> {
    items.iter().map(|(nummer, id)| (String::from(*nummer), *id)).collect()
}

#[test]
fn test_sort_zuege_by_numbers() {
    assert_eq!(
        sort_zuege(numbered(&[("20", 1), ("3", 2), ("3_1", 3), ("100", 4), ("3_0", 5)])),
        vec![2, 5, 3, 1, 4],
    );
}

#[test]
fn test_sort_zuege_keeps_order_of_equal_numbers() {
    assert_eq!(
        sort_zuege(numbered(&[("7", 1), ("07", 2), ("5", 3), ("7", 4)])),
        vec![3, 1, 2, 4],
    );
}

#[test]
fn test_sort_zuege_unreadable_numbers_first() {
    assert_eq!(
        sort_zuege(numbered(&[("1", 1), ("RE x", 2), ("0", 3), ("", 4)])),
        vec![2, 4, 3, 1],
    );
    assert_eq!(sort_zuege(Vec::<(String, u32)>::new()), Vec::<u32>::new());
}
