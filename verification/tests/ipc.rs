use fanctl::config::types::InitialMode;
use fanctl::ipc::{default_socket_path, read_line, write_line, Client, Mode, Request};

#[test]
fn mode_labels() {
    assert_eq!(Mode::Auto.label(), "auto");
    assert_eq!(Mode::Off.label(), "off");
    assert_eq!(Mode::Full.label(), "full");
    assert_eq!(Mode::Manual { percent: 50 }.label(), "50%");
}

#[test]
fn initial_modes_are_modes() {
    assert_eq!(Mode::from(InitialMode::Auto), Mode::Auto);
    assert_eq!(Mode::from(InitialMode::Off), Mode::Off);
    assert_eq!(Mode::from(InitialMode::Full), Mode::Full);
}

#[test]
fn socket_paths() {
    assert_eq!(default_socket_path(Some("/run/user/1")), "/run/user/1/fanctld.sock");
    assert_eq!(default_socket_path(Some("")), "/run/fanctld.sock");
    assert_eq!(default_socket_path(None), "/run/fanctld.sock");
    assert_eq!(Client::new("/a".to_string()).socket_path, "/a");
    assert_eq!(Client::new("/a".to_string()).clone().socket_path, "/a");
}

#[test]
fn a_line_is_read_as_it_was_written() {
    let line = write_line("{\"op\":\"ok\"}");
    assert_eq!(line, "{\"op\":\"ok\"}\n");
    let stream = format!("{line}rest");
    assert_eq!(read_line(&stream).as_deref(), Some("{\"op\":\"ok\"}\n"));
    assert_eq!(read_line("no newline").as_deref(), Some("no newline"));
    assert_eq!(read_line(""), None);
    assert_eq!(read_line("\n").as_deref(), Some("\n"));
}

#[test]
fn requests_are_copied() {
    let r = Request::Sweep {
        fan: "pwm1".to_string(),
        step: Some(5),
        settle: Some(1_500_000_000),
    };
    assert_eq!(r.clone(), r);
}
