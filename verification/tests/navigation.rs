use skaner_dokumentow::dialogs::{can_leave_scan_without_confirmation, has_active_workflow_state};
use skaner_dokumentow::workspace::{refresh_is_due, Screen};

#[test]
fn empty_scan_can_return_to_folder() {
    assert!(can_leave_scan_without_confirmation(true, false, false));
}

#[test]
fn unchanged_pdf_edit_can_return_to_folder() {
    assert!(can_leave_scan_without_confirmation(false, true, false));
}

#[test]
fn modified_pdf_edit_requires_confirmation() {
    assert!(!can_leave_scan_without_confirmation(false, true, true));
}

#[test]
fn unsaved_scan_requires_confirmation() {
    assert!(!can_leave_scan_without_confirmation(false, false, false));
}

#[test]
fn scan_hub_blocks_library_changes_even_before_first_capture() {
    assert!(has_active_workflow_state(Screen::ScanHub, false, false, false, false));
}

#[test]
fn idle_library_allows_library_changes() {
    assert!(!has_active_workflow_state(Screen::Library, false, false, false, false));
}

#[test]
fn background_work_blocks_library_changes() {
    assert!(has_active_workflow_state(Screen::Folder, false, false, true, false));
}

#[test]
fn the_library_is_read_again_every_half_minute_outside_of_scanning() {
    assert!(refresh_is_due(Screen::Library, false, 30_000));
    assert!(!refresh_is_due(Screen::Library, false, 29_999));
    assert!(!refresh_is_due(Screen::Library, true, 30_000));
    assert!(!refresh_is_due(Screen::ScanHub, false, 60_000));
}
