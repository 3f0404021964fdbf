use neo::cli::{AddArgs, Cli, DeleteArgs, FrontierArgs, FrontierCommand, NameArgs, PopArgs, RenameArgs};
use neo::error::NeoError;

fn words(ws: &[&str]) -> Vec<String> {
    ws.iter().map(|w| w.to_string()).collect()
}

fn is_usage(r: Result<Cli, NeoError>) -> bool {
    matches!(r, Err(NeoError::Usage(_)))
}

#[test]
fn cli_parses_pop_open_flag() {
    let cli = Cli::parse(vec!["pop".into(), "--open".into()]).unwrap();
    assert_eq!(
        cli,
        Cli::Pop(PopArgs {
            index: None,
            open: true
        })
    );
}

#[test]
fn cli_parses_pop_index() {
    let cli = Cli::parse(vec!["pop".into(), "2".into(), "--open".into()]).unwrap();
    assert_eq!(
        cli,
        Cli::Pop(PopArgs {
            index: Some(2),
            open: true
        })
    );
}

#[test]
fn cli_parses_every_command() {
    assert_eq!(
        Cli::parse(words(&["add", "https://a"])).unwrap(),
        Cli::Add(AddArgs { url: "https://a".to_string() })
    );
    assert_eq!(
        Cli::parse(words(&["delete", "https://a"])).unwrap(),
        Cli::Delete(DeleteArgs { url: "https://a".to_string() })
    );
    assert_eq!(Cli::parse(words(&["size"])).unwrap(), Cli::Size);
    assert_eq!(Cli::parse(words(&["directory"])).unwrap(), Cli::Directory);
    assert_eq!(
        Cli::parse(words(&["pop"])).unwrap(),
        Cli::Pop(PopArgs { index: None, open: false })
    );
    assert_eq!(
        Cli::parse(words(&["frontier", "start", "x"])).unwrap(),
        Cli::Frontier(FrontierArgs { command: FrontierCommand::Start(NameArgs { name: "x".to_string() }) })
    );
    assert_eq!(
        Cli::parse(words(&["frontier", "switch", "x"])).unwrap(),
        Cli::Frontier(FrontierArgs { command: FrontierCommand::Switch(NameArgs { name: "x".to_string() }) })
    );
    assert_eq!(
        Cli::parse(words(&["frontier", "delete", "x"])).unwrap(),
        Cli::Frontier(FrontierArgs { command: FrontierCommand::Delete(NameArgs { name: "x".to_string() }) })
    );
    assert_eq!(
        Cli::parse(words(&["frontier", "rename", "x", "y"])).unwrap(),
        Cli::Frontier(FrontierArgs {
            command: FrontierCommand::Rename(RenameArgs { name: "x".to_string(), new_name: "y".to_string() })
        })
    );
    assert_eq!(
        Cli::parse(words(&["frontier", "list"])).unwrap(),
        Cli::Frontier(FrontierArgs { command: FrontierCommand::List })
    );
}

#[test]
fn cli_options_and_separator() {
    assert_eq!(
        Cli::parse(words(&["pop", "--open", "+7"])).unwrap(),
        Cli::Pop(PopArgs { index: Some(7), open: true })
    );
    assert_eq!(
        Cli::parse(words(&["add", "--", "-x"])).unwrap(),
        Cli::Add(AddArgs { url: "-x".to_string() })
    );
    assert_eq!(
        Cli::parse(words(&["add", "-"])).unwrap(),
        Cli::Add(AddArgs { url: "-".to_string() })
    );
    assert_eq!(
        Cli::parse(words(&["pop", "18446744073709551615"])).unwrap(),
        Cli::Pop(PopArgs { index: Some(usize::MAX), open: false })
    );
}

#[test]
fn cli_refuses_bad_command_lines() {
    assert!(is_usage(Cli::parse(words(&[]))));
    assert!(is_usage(Cli::parse(words(&["push"]))));
    assert!(is_usage(Cli::parse(words(&["add"]))));
    assert!(is_usage(Cli::parse(words(&["add", "a", "b"]))));
    assert!(is_usage(Cli::parse(words(&["add", "--open", "a"]))));
    assert!(is_usage(Cli::parse(words(&["pop", "1", "2"]))));
    assert!(is_usage(Cli::parse(words(&["pop", "x"]))));
    assert!(is_usage(Cli::parse(words(&["pop", "-1"]))));
    assert!(is_usage(Cli::parse(words(&["pop", "--open", "--open"]))));
    assert!(is_usage(Cli::parse(words(&["pop", "--open", "3", "--open"]))));
    assert!(is_usage(Cli::parse(words(&["pop", "--open=true"]))));
    assert!(is_usage(Cli::parse(words(&["pop", "+"]))));
    assert!(is_usage(Cli::parse(words(&["pop", "18446744073709551616"]))));
    assert!(is_usage(Cli::parse(words(&["pop", "--", "--open"]))));
    assert!(is_usage(Cli::parse(words(&["size", "x"]))));
    assert!(is_usage(Cli::parse(words(&["size", "--help"]))));
    assert!(is_usage(Cli::parse(words(&["frontier"]))));
    assert!(is_usage(Cli::parse(words(&["frontier", "start"]))));
    assert!(is_usage(Cli::parse(words(&["frontier", "rename", "x"]))));
    assert!(is_usage(Cli::parse(words(&["frontier", "list", "x"]))));
    assert!(is_usage(Cli::parse(words(&["--help"]))));
    let err = Cli::parse(words(&["nothing"])).unwrap_err();
    assert!(err.message().starts_with("invalid command line; usage: neo add <url>"));
}
