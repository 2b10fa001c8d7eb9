use pdbg_app::history::NavigationHistory;
use pdbg_app::render::{
    next_render_rotation, page_keyboard_target_page, render_max_dimension_or_default,
    render_max_output_bytes, render_max_pixels, render_result_rgba, GuiRunOptions,
    PageKeyboardShortcut, RealRenderKey, DEFAULT_RENDER_MAX_DIMENSION,
    DEFAULT_RENDER_MAX_OUTPUT_BYTES,
};

#[test]
fn render_rotation_cycles_through_right_angles() {
    assert_eq!(next_render_rotation(0), 90);
    assert_eq!(next_render_rotation(90), 180);
    assert_eq!(next_render_rotation(180), 270);
    assert_eq!(next_render_rotation(270), 0);
    assert_eq!(next_render_rotation(450), 180);
    assert_eq!(next_render_rotation(-90), 0);
}

#[test]
fn page_keyboard_shortcuts_choose_expected_pages() {
    assert_eq!(
        page_keyboard_target_page(2, 5, PageKeyboardShortcut::Previous),
        Some(1)
    );
    assert_eq!(
        page_keyboard_target_page(2, 5, PageKeyboardShortcut::Next),
        Some(3)
    );
    assert_eq!(
        page_keyboard_target_page(2, 5, PageKeyboardShortcut::First),
        Some(0)
    );
    assert_eq!(
        page_keyboard_target_page(2, 5, PageKeyboardShortcut::Last),
        Some(4)
    );
    assert_eq!(
        page_keyboard_target_page(0, 5, PageKeyboardShortcut::Previous),
        Some(0)
    );
    assert_eq!(
        page_keyboard_target_page(4, 5, PageKeyboardShortcut::Next),
        Some(4)
    );
    assert_eq!(
        page_keyboard_target_page(0, 0, PageKeyboardShortcut::Next),
        None
    );
}

#[test]
fn render_key_request_applies_configured_dimension_limit() {
    let key = RealRenderKey::new(0, 1.5f32.to_bits(), 90, 8192);
    let request = key.request();

    assert_eq!(request.max_width, 8192);
    assert_eq!(request.max_height, 8192);
    assert_eq!(request.max_pixels, 8192 * 8192);
    assert_eq!(request.max_output_bytes, 8192 * 8192 * 4);
    assert_eq!(f32::from_bits(request.zoom_bits), 1.5);
    assert_eq!(request.rotation_degrees, 90);
}

#[test]
fn gui_options_default_render_dimension_limit_when_unset_or_zero() {
    assert_eq!(
        render_max_dimension_or_default(None),
        DEFAULT_RENDER_MAX_DIMENSION
    );
    assert_eq!(
        render_max_dimension_or_default(Some(0)),
        DEFAULT_RENDER_MAX_DIMENSION
    );
    assert_eq!(render_max_dimension_or_default(Some(8192)), 8192);
}

#[test]
fn render_budgets_keep_the_output_floor_and_saturate() {
    assert_eq!(render_max_pixels(4096), 4096 * 4096);
    assert_eq!(render_max_output_bytes(16), DEFAULT_RENDER_MAX_OUTPUT_BYTES);
    assert_eq!(render_max_output_bytes(4096), DEFAULT_RENDER_MAX_OUTPUT_BYTES);
    assert_eq!(render_max_output_bytes(8192), 8192 * 8192 * 4);
    assert_eq!(
        render_max_pixels(u32::MAX),
        (u32::MAX as u64) * (u32::MAX as u64)
    );
    assert_eq!(render_max_output_bytes(u32::MAX), u64::MAX);
}

#[test]
fn gui_run_options_default_is_unset() {
    let options = GuiRunOptions::default();
    assert!(options.smoke_exit_after.is_none());
    assert!(options.pdf_path.is_none());
    assert!(options.recent_files_path.is_none());
    assert!(!options.start_empty_when_no_pdf);
    assert!(options.render_max_dimension.is_none());
}

#[test]
fn render_result_color_image_compacts_padded_stride() {
    let pixels = vec![1, 2, 3, 4, 99, 99, 99, 99, 5, 6, 7, 8, 88, 88, 88, 88];
    let packed = render_result_rgba(1, 2, 8, &pixels).unwrap();
    assert_eq!(packed, vec![1, 2, 3, 4, 5, 6, 7, 8]);
    assert_eq!(render_result_rgba(0, 2, 8, &pixels), None);
    assert_eq!(render_result_rgba(1, 2, 3, &pixels), None);
    assert_eq!(render_result_rgba(1, 3, 8, &pixels), None);
}

#[test]
fn reference_navigation_uses_back_forward_history() {
    let mut history = NavigationHistory::new(0);
    assert_eq!(history.selected_row, 0);

    assert!(history.follow_reference(42, 1000));
    assert_eq!(history.selected_row, 42);
    assert_eq!(history.back_stack, vec![0]);
    assert!(history.forward_stack.is_empty());

    assert!(history.go_back());
    assert_eq!(history.selected_row, 0);
    assert_eq!(history.forward_stack, vec![42]);
}

#[test]
fn going_forward_after_back_restores_history() {
    let mut history = NavigationHistory::new(3);
    history.follow_reference(7, 10);
    history.follow_reference(9, 10);
    history.go_back();
    assert_eq!(history.selected_row, 7);
    history.go_forward();
    assert_eq!(history.selected_row, 9);
    assert_eq!(history.back_stack, vec![3, 7]);
    assert!(history.forward_stack.is_empty());
    assert!(!history.go_forward());
    assert!(!history.follow_reference(9, 10));
    assert!(!history.follow_reference(12, 10));
    assert!(history.select_row(1));
    assert_eq!(history.back_stack, vec![3, 7]);
}

#[test]
fn next_page_shortcut_at_the_largest_index_stays_on_the_last_page() {
    assert_eq!(
        page_keyboard_target_page(usize::MAX, 5, PageKeyboardShortcut::Next),
        Some(4)
    );
    assert_eq!(
        page_keyboard_target_page(usize::MAX, usize::MAX, PageKeyboardShortcut::Next),
        Some(usize::MAX - 1)
    );
    assert_eq!(
        page_keyboard_target_page(usize::MAX, 5, PageKeyboardShortcut::Previous),
        Some(usize::MAX - 1)
    );
}
