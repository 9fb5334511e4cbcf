use redlib::state::{move_channel_order, position_of, ReadingStats};

fn strs(v: &[&str]) -> Vec<String> {
    v.iter().map(|s| s.to_string()).collect()
}

#[test]
fn channel_moves() {
    let order = strs(&["a", "b", "c"]);
    assert_eq!(position_of(&order, "c"), Some(2));
    assert_eq!(position_of(&order, "z"), None);
    let up = move_channel_order(order.clone(), "b", -1).unwrap();
    assert_eq!(up, strs(&["b", "a", "c"]));
    let back = move_channel_order(up, "b", 1).unwrap();
    assert_eq!(back, order);
    assert_eq!(move_channel_order(order.clone(), "a", -1), None);
    assert_eq!(move_channel_order(order.clone(), "c", 1), None);
    assert_eq!(move_channel_order(order.clone(), "zz", 1), None);
    let down = move_channel_order(order.clone(), "a", 5).unwrap();
    assert_eq!(down, strs(&["b", "a", "c"]));
}

#[test]
fn empty_stats() {
    let s = ReadingStats::default();
    assert_eq!(s.total_seen, 0);
    assert!(s.top_communities.is_empty());
}
