use i3toolwait::socket::{get_socket_path, path_from_output, Finding, Next, Search};

fn environment(i3sock: Option<&str>, swaysock: Option<&str>) -> Finding {
    Finding::Environment {
        i3sock: i3sock.map(str::to_string),
        swaysock: swaysock.map(str::to_string),
    }
}

fn output(success: bool, stdout: &[u8]) -> Finding {
    Finding::Output { success, stdout: stdout.to_vec() }
}

fn found(path: &str) -> Next {
    Next::Found(path.to_string())
}

fn ask(program: &'static str) -> Next {
    Next::Ask { program, flag: "--get-socketpath" }
}

#[test]
fn the_environment_counts_first() {
    let mut search = Search::Environment;
    assert_eq!(get_socket_path(&mut search, environment(Some("/i3"), Some("/sway"))), found("/i3"));
    assert_eq!(search, Search::Over);
    let mut search = Search::Environment;
    assert_eq!(get_socket_path(&mut search, environment(Some("/i3"), None)), found("/i3"));
    let mut search = Search::Environment;
    assert_eq!(get_socket_path(&mut search, environment(None, Some("/sway"))), found("/sway"));
    assert_eq!(search, Search::Over);
}

#[test]
fn the_window_managers_are_asked_in_turn() {
    let mut search = Search::Environment;
    assert_eq!(get_socket_path(&mut search, environment(None, None)), ask("i3"));
    assert_eq!(search, Search::Asked(0));
    assert_eq!(get_socket_path(&mut search, output(false, b"/ignored\n")), ask("sway"));
    assert_eq!(search, Search::Asked(1));
    assert_eq!(
        get_socket_path(&mut search, output(true, b"/run/user/1000/sway-ipc.sock\n")),
        found("/run/user/1000/sway-ipc.sock")
    );
    assert_eq!(search, Search::Over);
}

#[test]
fn the_first_that_answers_gives_the_path() {
    let mut search = Search::Environment;
    get_socket_path(&mut search, environment(None, None));
    assert_eq!(get_socket_path(&mut search, output(true, b"/run/i3/ipc.sock\n")), found("/run/i3/ipc.sock"));
    assert_eq!(search, Search::Over);
}

#[test]
fn the_search_fails_when_nobody_answers() {
    let mut search = Search::Environment;
    get_socket_path(&mut search, environment(None, None));
    get_socket_path(&mut search, output(false, b""));
    assert_eq!(get_socket_path(&mut search, output(false, b"")), Next::Failed);
    assert_eq!(search, Search::Over);
}

#[test]
fn a_program_that_cannot_be_run_ends_the_search() {
    let mut search = Search::Environment;
    get_socket_path(&mut search, environment(None, None));
    assert_eq!(get_socket_path(&mut search, Finding::NotRun), Next::Failed);
    assert_eq!(search, Search::Over);
}

#[test]
fn a_finding_out_of_turn_ends_the_search() {
    let mut search = Search::Environment;
    assert_eq!(get_socket_path(&mut search, output(true, b"/x")), Next::Failed);
    assert_eq!(search, Search::Over);
    assert_eq!(get_socket_path(&mut search, environment(Some("/i3"), None)), Next::Failed);
    let mut search = Search::Asked(0);
    assert_eq!(get_socket_path(&mut search, environment(Some("/i3"), None)), Next::Failed);
    let mut search = Search::Asked(7);
    assert_eq!(get_socket_path(&mut search, output(false, b"")), Next::Failed);
}

#[test]
fn the_output_loses_its_trailing_line_feeds() {
    assert_eq!(path_from_output(b"/run/sock\n"), "/run/sock");
    assert_eq!(path_from_output(b"/run/sock\n\n\n"), "/run/sock");
    assert_eq!(path_from_output(b"/run/sock"), "/run/sock");
    assert_eq!(path_from_output(b"\n/run\n/sock \n"), "\n/run\n/sock ");
    assert_eq!(path_from_output(b"/run/sock\r\n"), "/run/sock\r");
    assert_eq!(path_from_output(b"\n\n"), "");
    assert_eq!(path_from_output(b""), "");
    assert_eq!(path_from_output(b"/r\xc3\xa9\n"), "/ré");
    assert_eq!(path_from_output(b"/r\xff\n"), "/r\u{fffd}");
}
