use lud::list::{select_server_from_list, Key, Selection, StatefulList};

#[test]
fn a_new_list_selects_the_first_item_on_request() {
    assert_eq!(StatefulList::new(3, true).selected(), Some(0));
    assert_eq!(StatefulList::new(3, false).selected(), None);
    assert_eq!(StatefulList::new(0, true).selected(), None);
    assert_eq!(StatefulList::new(3, true).len(), 3);
}

#[test]
fn next_wraps_around_the_end() {
    let mut list = StatefulList::new(3, false);
    list.next();
    assert_eq!(list.selected(), Some(0));
    list.next();
    assert_eq!(list.selected(), Some(1));
    list.next();
    assert_eq!(list.selected(), Some(2));
    list.next();
    assert_eq!(list.selected(), Some(0));
}

#[test]
fn previous_wraps_around_the_start() {
    let mut list = StatefulList::new(3, false);
    list.previous();
    assert_eq!(list.selected(), Some(0));
    list.previous();
    assert_eq!(list.selected(), Some(2));
    list.previous();
    assert_eq!(list.selected(), Some(1));
    list.previous();
    assert_eq!(list.selected(), Some(0));
}

#[test]
fn a_single_item_stays_selected() {
    let mut list = StatefulList::new(1, true);
    list.next();
    assert_eq!(list.selected(), Some(0));
    list.previous();
    assert_eq!(list.selected(), Some(0));
}

#[test]
fn keys_move_pick_and_cancel() {
    let mut list = StatefulList::new(3, true);
    assert_eq!(select_server_from_list(&mut list, Key::Down), Selection::Pending);
    assert_eq!(select_server_from_list(&mut list, Key::Down), Selection::Pending);
    assert_eq!(list.selected(), Some(2));
    assert_eq!(select_server_from_list(&mut list, Key::Up), Selection::Pending);
    assert_eq!(list.selected(), Some(1));
    assert_eq!(select_server_from_list(&mut list, Key::Other), Selection::Pending);
    assert_eq!(list.selected(), Some(1));
    assert_eq!(select_server_from_list(&mut list, Key::Enter), Selection::Chosen(1));
    assert_eq!(select_server_from_list(&mut list, Key::Esc), Selection::Cancelled);
    assert_eq!(list.selected(), Some(1));
}

#[test]
fn enter_without_a_selection_picks_nothing() {
    let mut list = StatefulList::new(2, false);
    assert_eq!(select_server_from_list(&mut list, Key::Enter), Selection::Pending);
    assert_eq!(select_server_from_list(&mut list, Key::Down), Selection::Pending);
    assert_eq!(select_server_from_list(&mut list, Key::Enter), Selection::Chosen(0));
}

#[test]
fn an_empty_list_ignores_the_arrows() {
    let mut list = StatefulList::new(0, true);
    assert_eq!(select_server_from_list(&mut list, Key::Down), Selection::Pending);
    assert_eq!(select_server_from_list(&mut list, Key::Up), Selection::Pending);
    assert_eq!(list.selected(), None);
    assert_eq!(select_server_from_list(&mut list, Key::Enter), Selection::Pending);
    assert_eq!(select_server_from_list(&mut list, Key::Esc), Selection::Cancelled);
}
