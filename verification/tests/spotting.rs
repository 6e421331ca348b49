use atldp::spotting::delete_tower;

#[test]
fn deleting_the_selected_tower_clears_the_selection() {
    let mut towers = vec!['a', 'b', 'c', 'd'];
    assert_eq!(delete_tower(&mut towers, Some(1), 1), None);
    assert_eq!(towers, vec!['a', 'c', 'd']);
}

#[test]
fn deleting_an_earlier_tower_moves_the_selection_down() {
    let mut towers = vec![10, 20, 30, 40];
    assert_eq!(delete_tower(&mut towers, Some(3), 0), Some(2));
    assert_eq!(towers, vec![20, 30, 40]);
}

#[test]
fn deleting_a_later_tower_keeps_the_selection() {
    let mut towers = vec![10, 20, 30];
    assert_eq!(delete_tower(&mut towers, Some(0), 2), Some(0));
    assert_eq!(towers, vec![10, 20]);
    assert_eq!(delete_tower(&mut towers, None, 0), None);
    assert_eq!(towers, vec![20]);
}
