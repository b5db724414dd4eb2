use nitro::prompt::{read_command, read_hash, Command};

fn fetched(line: &str) -> (String, String) {
    match read_command(line) {
        Command::Fetch { url, target } => (url, target),
        _ => panic!(),
    }
}

#[test]
fn a_url_is_fetched_into_the_directory_for_downloads() {
    let (url, target) = fetched("  https://example.com/ubuntu-24.04.iso\n");
    assert_eq!(url, "https://example.com/ubuntu-24.04.iso");
    assert_eq!(target, "./downloads/ubuntu-24.04.iso");
    assert_eq!(fetched("https://e.com/a/b.zip?token=1/2").1, "./downloads/2");
    assert_eq!(fetched("https://e.com/a/b.zip?token=1").1, "./downloads/b.zip");
    assert_eq!(fetched("https://e.com/").1, "./downloads/");
    assert_eq!(fetched("file").1, "./downloads/file");
}

#[test]
fn exit_is_read_in_any_case() {
    assert!(matches!(read_command("exit\n"), Command::Exit));
    assert!(matches!(read_command(" ExIT \r\n"), Command::Exit));
    assert!(matches!(read_command("exit now"), Command::Fetch { .. }));
}

#[test]
fn an_empty_line_asks_for_nothing() {
    assert!(matches!(read_command("\n"), Command::Nothing));
    assert!(matches!(read_command(" \t "), Command::Nothing));
    assert!(matches!(read_command(""), Command::Nothing));
}

#[test]
fn a_hash_is_optional() {
    assert_eq!(read_hash("\n"), None);
    assert_eq!(read_hash(" a435f6f3\n").as_deref(), Some("a435f6f3"));
}
