use ankiserver::error::SendError;
use ankiserver::send::{desktop_dir, shortcut_paths};
use ankiserver::{add, desktop, Send, LNK_NAME, START};

#[test]
fn it_works() {
    let result = add(2, 2);
    assert_eq!(result, 4);
}

#[test]
fn send_error_new_keeps_kind_and_message() {
    let e = SendError::new("io", "file missing");
    assert_eq!(e.kind(), "io");
    assert_eq!(e.message(), "file missing");
    assert_eq!(e.to_string(), "io:file missing");
}

#[test]
fn send_error_from_parse_uses_std_wording() {
    let err = "x".parse::<u8>().unwrap_err();
    let std_text = err.to_string();
    let e = SendError::from_parse(err);
    assert_eq!(e.kind(), "parse");
    assert_eq!(e.message(), std_text);
    assert_eq!(e.to_string(), format!("parse:{}", std_text));
}

#[test]
fn send_error_from_io_and_mslink() {
    let io = std::io::Error::new(std::io::ErrorKind::NotFound, "gone");
    let e = SendError::from_io(io);
    assert_eq!(e.kind(), "io");
    assert_eq!(e.message(), "gone");
    let m = SendError::from_mslink_message("io:denied");
    assert_eq!(m.kind(), "mslnk");
    assert_eq!(m.to_string(), "mslnk:io:denied");
}

#[test]
fn desktop_dir_joins_profile() {
    assert_eq!(desktop_dir(r"C:\Users\Admin"), r"C:\Users\Admin\Desktop");
    assert_eq!(desktop_dir(r"C:\Users\Admin\"), r"C:\Users\Admin\Desktop");
    assert_eq!(desktop_dir("C:"), "C:Desktop");
}

#[test]
fn desktop_exists_or_error() {
    let ok = desktop(r"C:\Users\Admin", true).unwrap();
    assert_eq!(ok, r"C:\Users\Admin\Desktop");
    let err = desktop(r"C:\Users\Admin", false).unwrap_err();
    assert_eq!(err.kind(), "");
    assert_eq!(err.message(), "desktop not exist");
    assert_eq!(err.to_string(), ":desktop not exist");
}

#[test]
fn send_builder_sets_both_destinations() {
    let mut s = Send::new();
    s.set_desktop(r"C:\Users\Admin", true).unwrap().set_start();
    let plan = s.send_plan(r"D:\server");
    assert_eq!(plan.from, r"D:\server\ankiserver.lnk");
    assert_eq!(plan.to_desktop, r"C:\Users\Admin\Desktop\ankiserver.lnk");
    assert_eq!(plan.to_start, format!(r"{}\{}", START, LNK_NAME));
}

#[test]
fn send_builder_failed_desktop_keeps_sender() {
    let mut s = Send::new();
    s.set_start();
    let err = s.set_desktop(r"C:\Users\Admin", false).err().unwrap();
    assert_eq!(err.message(), "desktop not exist");
    s.set_desktop(r"C:\Users\B", true).unwrap();
    let plan = s.send_plan(r"D:\");
    assert_eq!(plan.from, r"D:\ankiserver.lnk");
    assert_eq!(plan.to_desktop, r"C:\Users\B\Desktop\ankiserver.lnk");
}

#[test]
fn shortcut_paths_in_current_dir() {
    let p = shortcut_paths(r"D:\anki");
    assert_eq!(p.target, r"D:\anki\ankiserver.exe");
    assert_eq!(p.lnk, r"D:\anki\ankiserver.lnk");
}

#[test]
fn add_exact_values() {
    assert_eq!(add(0, 0), 0);
    assert_eq!(add(usize::MAX - 1, 1), usize::MAX);
}

