use p2p_ft::command::{command_from, linear_design, parse_command, pull_mode, trim_text, Command};

#[test]
fn parses_commands_case_insensitively() {
    assert!(matches!(parse_command("exit\n"), Command::Exit));
    assert!(matches!(parse_command("  Help"), Command::Help));
    assert!(matches!(parse_command("INFO"), Command::Info));
    assert!(matches!(parse_command("list"), Command::List));
    assert!(matches!(parse_command("refresh"), Command::Refresh));
    assert!(matches!(parse_command("dance"), Command::Invalid));
    assert!(matches!(parse_command("   \n"), Command::Empty));
    assert!(matches!(parse_command(""), Command::Empty));
}

#[test]
fn search_and_get_take_a_name() {
    match parse_command("search  notes.txt extra\n") {
        Command::Search(Some(n)) => assert_eq!(n, "notes.txt"),
        other => panic!("unexpected {:?}", other),
    }
    assert!(matches!(parse_command("search"), Command::Search(None)));
    match parse_command("GeT\tdata.bin") {
        Command::Get(Some(n)) => assert_eq!(n, "data.bin"),
        other => panic!("unexpected {:?}", other),
    }
    assert!(matches!(parse_command("get "), Command::Get(None)));
}

#[test]
fn keyword_is_trimmed() {
    assert!(matches!(command_from(" EXIT ", None), Command::Exit));
    assert!(matches!(command_from("exit", None), Command::Invalid));
    assert_eq!(trim_text("\t a b \n"), "a b");
    assert_eq!(trim_text("   "), "");
}

#[test]
fn start_up_modes() {
    assert!(pull_mode(&Some("pull".to_string())));
    assert!(!pull_mode(&Some("push".to_string())));
    assert!(!pull_mode(&None));
    assert!(linear_design(&Some("linear".to_string())));
    assert!(!linear_design(&Some("all".to_string())));
    assert!(!linear_design(&None));
}
