use picmyweb::gui::{font_paths, PicMyWebApp, DEFAULT_FILE_PATH};

#[test]
fn new_window_proposes_the_default_path() {
    let app = PicMyWebApp::new();
    assert_eq!(app.file_path, "websites.txt");
    assert_eq!(app.status, "");
    assert!(app.logs.is_empty());
    assert!(!app.is_processing);
    assert!(app.can_start());
}

#[test]
fn default_state_has_no_path_and_cannot_start() {
    let mut app = PicMyWebApp::default();
    assert_eq!(app.file_path, "");
    assert!(!app.can_start());
    assert!(!app.begin());
    assert!(!app.is_processing);
    assert_eq!(app.status, "");
    assert!(app.logs.is_empty());
}

#[test]
fn begin_marks_the_state_and_resets_the_log() {
    let mut app = PicMyWebApp::new();
    app.logs.push("old line".to_string());
    assert!(app.begin());
    assert!(app.is_processing);
    assert_eq!(app.status, "initializing...");
    assert_eq!(app.logs, vec!["starting...".to_string()]);
    assert_eq!(app.file_path, "websites.txt");
}

#[test]
fn begin_twice_changes_nothing_the_second_time() {
    let mut app = PicMyWebApp::new();
    assert!(app.begin());
    app.logs.push("processing 1/1: http://a".to_string());
    assert!(!app.can_start());
    assert!(!app.begin());
    assert_eq!(app.logs.len(), 2);
    assert_eq!(app.status, "initializing...");
}

#[test]
fn finish_replaces_the_status_only() {
    let mut app = PicMyWebApp::new();
    assert!(app.begin());
    app.logs.push("batch complete".to_string());
    app.finish("done! succeeded 1/1 sites".to_string());
    assert_eq!(app.status, "done! succeeded 1/1 sites");
    assert_eq!(app.logs.len(), 2);
    assert!(app.is_processing);
    assert!(!app.can_start());
}

#[test]
fn notice_tells_whether_the_file_exists() {
    let mut app = PicMyWebApp::new();
    assert_eq!(app.file_notice(true), Some("file found".to_string()));
    assert_eq!(app.file_notice(false), Some("file not found".to_string()));
    app.file_path = String::new();
    assert_eq!(app.file_notice(true), None);
    assert_eq!(app.file_notice(false), None);
}

#[test]
fn default_path_is_the_list_beside_the_program() {
    assert_eq!(DEFAULT_FILE_PATH, "websites.txt");
    assert_eq!(PicMyWebApp::new().file_path, DEFAULT_FILE_PATH);
}

#[test]
fn frame_of_a_new_window() {
    let app = PicMyWebApp::new();
    let frame = app.frame(true);
    assert_eq!(frame.notice, Some("file found".to_string()));
    assert!(frame.start_enabled);
    assert!(!frame.busy);
    assert!(!frame.status_shown);
    assert!(frame.log_is_empty);
    let frame = app.frame(false);
    assert_eq!(frame.notice, Some("file not found".to_string()));
    assert!(frame.start_enabled);
}

#[test]
fn frame_of_a_window_without_path() {
    let frame = PicMyWebApp::default().frame(true);
    assert_eq!(frame.notice, None);
    assert!(!frame.start_enabled);
    assert!(!frame.busy);
    assert!(!frame.status_shown);
    assert!(frame.log_is_empty);
}

#[test]
fn frame_of_a_batch_that_was_begun_and_of_one_that_ended() {
    let mut app = PicMyWebApp::new();
    assert!(app.begin());
    let frame = app.frame(true);
    assert!(!frame.start_enabled);
    assert!(frame.busy);
    assert!(frame.status_shown);
    assert!(!frame.log_is_empty);
    app.finish("done! succeeded 0/1 sites".to_string());
    let frame = app.frame(true);
    assert!(!frame.start_enabled);
    assert!(frame.busy);
    assert!(frame.status_shown);
    app.finish(String::new());
    assert!(!app.frame(true).status_shown);
}

#[test]
fn fonts_are_tried_in_order_below_the_system_root() {
    assert_eq!(
        font_paths("C:\\Windows"),
        vec!["C:\\Windows\\Fonts\\msyh.ttc".to_string(), "C:\\Windows\\Fonts\\simsun.ttc".to_string()]
    );
    assert_eq!(
        font_paths(""),
        vec!["\\Fonts\\msyh.ttc".to_string(), "\\Fonts\\simsun.ttc".to_string()]
    );
}
