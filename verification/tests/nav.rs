use mapping_viewer::nav::{message_for_key, selected_tab_index, update_selected_tab, Message,
    NavKey};

#[test]
fn test_message_for_key_table() {
    assert_eq!(message_for_key(NavKey::H), Some(Message::PrevTab));
    assert_eq!(message_for_key(NavKey::Left), Some(Message::PrevTab));
    assert_eq!(message_for_key(NavKey::L), Some(Message::NextTab));
    assert_eq!(message_for_key(NavKey::Right), Some(Message::NextTab));
    assert_eq!(message_for_key(NavKey::Escape), Some(Message::Exit));
    assert_eq!(message_for_key(NavKey::Other), None);
}

#[test]
fn test_update_selected_tab_steps() {
    assert_eq!(update_selected_tab(4, Message::NextTab), Some(5));
    assert_eq!(update_selected_tab(4, Message::PrevTab), Some(3));
    assert_eq!(update_selected_tab(4, Message::Exit), None);
}

#[test]
fn test_update_selected_tab_wraps_around() {
    assert_eq!(update_selected_tab(usize::MAX, Message::NextTab), Some(0));
    assert_eq!(update_selected_tab(0, Message::PrevTab), Some(usize::MAX));
}

#[test]
fn test_selected_tab_index_wraps_modulo() {
    assert_eq!(selected_tab_index(0, 3), 0);
    assert_eq!(selected_tab_index(2, 3), 2);
    assert_eq!(selected_tab_index(3, 3), 0);
    assert_eq!(selected_tab_index(7, 3), 1);
}
