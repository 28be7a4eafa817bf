//! Where screenshots go.

use bnksound::render::screenshot::screenshot_path;

#[test]
fn screenshot_explicit_path_wins_over_pictures() {
    let got = screenshot_path(
        Some("assets/screenshot.png"),
        Some("/home/x/Pictures"),
        123,
    );
    assert_eq!(got, "assets/screenshot.png");
}

#[test]
fn screenshot_pictures_dir_gets_a_timestamped_name() {
    let got = screenshot_path(None, Some("/home/x/Pictures"), 1_700_000_000);
    assert_eq!(
        got,
        "/home/x/Pictures/bnksound-1700000000.png"
    );
}

#[test]
fn screenshot_no_pictures_dir_falls_back_to_current_dir() {
    let got = screenshot_path(None, None, 42);
    assert_eq!(got, "./bnksound-42.png");
}

#[test]
fn a_directory_that_ends_in_a_slash_gets_no_second_one() {
    assert_eq!(
        screenshot_path(None, Some("/tmp/"), 7),
        "/tmp/bnksound-7.png"
    );
    assert_eq!(screenshot_path(None, Some(""), 0), "bnksound-0.png");
}
