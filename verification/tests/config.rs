use i3toolwait::config::{begin_block, Config, ProgramEntry, Script, Signal};

#[test]
fn defaults_are_those_of_an_empty_file() {
    assert_eq!(Signal::default_timeout(), 500);
    assert_eq!(Config::default_timeout(), 3000);
    assert_eq!(Config::default_init(), Script::new(String::new()));
    assert_eq!(Config::default_programs(), Vec::<ProgramEntry>::new());
    assert_eq!(
        Config::default(),
        Config { timeout: 3000, init: Script::new(String::new()), programs: vec![], cmd: None }
    );
}

#[test]
fn a_block_holds_each_line() {
    assert_eq!(begin_block(&vec![]), "(begin\n)");
    assert_eq!(begin_block(&vec!["a".to_string(), "(b c)".to_string()]), "(begin\na\n(b c)\n)");
}

#[test]
fn copies_are_equal_to_what_they_copy() {
    let entry = ProgramEntry::Signal(Signal { run: Some("exec foot".to_string()), timeout: 7 });
    assert_eq!(entry.duplicate(), entry);
    let script = Script::new("(a)".to_string());
    assert_eq!(script.duplicate(), script);
}
