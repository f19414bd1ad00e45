use pointcloud::toolbox::get_active_tool;

#[test]
fn the_selected_tool_is_active() {
    assert_eq!(get_active_tool(Some(0), 1), Some(0));
    assert_eq!(get_active_tool(Some(2), 3), Some(2));
    assert_eq!(get_active_tool(Some(1), 3), Some(1));
}

#[test]
fn the_first_tool_is_active_where_none_is_selected() {
    assert_eq!(get_active_tool(None, 1), Some(0));
    assert_eq!(get_active_tool(None, 5), Some(0));
    assert_eq!(get_active_tool(None, usize::MAX), Some(0));
}

#[test]
fn an_empty_box_has_no_active_tool() {
    assert_eq!(get_active_tool(None, 0), None);
    assert_eq!(get_active_tool(Some(0), 0), None);
    assert_eq!(get_active_tool(Some(7), 0), None);
}

#[test]
fn a_selection_outside_the_box_is_handed_on_as_it_is() {
    assert_eq!(get_active_tool(Some(3), 3), Some(3));
    assert_eq!(get_active_tool(Some(1), 1), Some(1));
    assert_eq!(get_active_tool(Some(usize::MAX), 3), Some(usize::MAX));
}
