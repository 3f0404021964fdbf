use clap::{Arg, ArgAction, ArgMatches, Command};
use neo::cli::{AddArgs, Cli, DeleteArgs, FrontierArgs, FrontierCommand, NameArgs, PopArgs, RenameArgs};

/// The command line of the program written with clap's builder, as the
/// derived parser of the command enums builds it.
fn clap_command() -> Command {
    let name = || Arg::new("name").required(true).action(ArgAction::Set);
    let url = || Arg::new("url").required(true).action(ArgAction::Set);
    Command::new("neo")
        .subcommand_required(true)
        .arg_required_else_help(true)
        .subcommand(Command::new("add").arg(url()))
        .subcommand(
            Command::new("pop")
                .arg(
                    Arg::new("index")
                        .action(ArgAction::Set)
                        .value_parser(|s: &str| s.parse::<usize>()),
                )
                .arg(Arg::new("open").long("open").action(ArgAction::SetTrue)),
        )
        .subcommand(Command::new("delete").arg(url()))
        .subcommand(Command::new("size"))
        .subcommand(
            Command::new("frontier")
                .subcommand_required(true)
                .arg_required_else_help(true)
                .subcommand(Command::new("start").arg(name()))
                .subcommand(Command::new("switch").arg(name()))
                .subcommand(
                    Command::new("rename")
                        .arg(name())
                        .arg(Arg::new("new_name").required(true).action(ArgAction::Set)),
                )
                .subcommand(Command::new("list"))
                .subcommand(Command::new("delete").arg(name())),
        )
        .subcommand(Command::new("directory"))
}

fn text(m: &ArgMatches, id: &str) -> String {
    m.get_one::<String>(id).unwrap().clone()
}

fn from_matches(m: &ArgMatches) -> Cli {
    match m.subcommand() {
        Some(("add", s)) => Cli::Add(AddArgs { url: text(s, "url") }),
        Some(("pop", s)) => Cli::Pop(PopArgs {
            index: s.get_one::<usize>("index").copied(),
            open: s.get_flag("open"),
        }),
        Some(("delete", s)) => Cli::Delete(DeleteArgs { url: text(s, "url") }),
        Some(("size", _)) => Cli::Size,
        Some(("directory", _)) => Cli::Directory,
        Some(("frontier", f)) => {
            let command = match f.subcommand() {
                Some(("start", s)) => FrontierCommand::Start(NameArgs { name: text(s, "name") }),
                Some(("switch", s)) => FrontierCommand::Switch(NameArgs { name: text(s, "name") }),
                Some(("delete", s)) => FrontierCommand::Delete(NameArgs { name: text(s, "name") }),
                Some(("rename", s)) => FrontierCommand::Rename(RenameArgs {
                    name: text(s, "name"),
                    new_name: text(s, "new_name"),
                }),
                Some(("list", _)) => FrontierCommand::List,
                other => panic!("unexpected frontier command {:?}", other.map(|p| p.0)),
            };
            Cli::Frontier(FrontierArgs { command })
        }
        other => panic!("unexpected command {:?}", other.map(|p| p.0)),
    }
}

fn compare(cmd: &mut Command, ws: &[&str]) {
    let mut argv: Vec<String> = vec!["neo".to_string()];
    argv.extend(ws.iter().map(|w| w.to_string()));
    let expected = cmd.try_get_matches_from_mut(argv).ok().map(|m| from_matches(&m));
    let words: Vec<String> = ws.iter().map(|w| w.to_string()).collect();
    let got = Cli::parse(words).ok();
    assert_eq!(got, expected, "command line {:?}", ws);
}

const TOKENS: [&str; 25] = [
    "add", "pop", "delete", "size", "frontier", "directory", "start", "switch", "rename", "list",
    "x", "-", "--", "--open", "-o", "--open=true", "1", "+2", "-1", "", "help", "--help", "-h",
    "18446744073709551616", "a b",
];

#[test]
fn cli_agrees_with_clap_on_short_command_lines() {
    let mut cmd = clap_command();
    compare(&mut cmd, &[]);
    for a in TOKENS.iter() {
        compare(&mut cmd, &[a]);
        for b in TOKENS.iter() {
            compare(&mut cmd, &[a, b]);
            for c in TOKENS.iter() {
                compare(&mut cmd, &[a, b, c]);
            }
        }
    }
}

#[test]
fn cli_agrees_with_clap_on_longer_pop_and_frontier_lines() {
    let mut cmd = clap_command();
    let small = ["x", "--", "--open", "-o", "1", "+2", "-1", "rename", "list"];
    for head in [["pop"], ["frontier"]].iter() {
        for a in small.iter() {
            for b in small.iter() {
                for c in small.iter() {
                    compare(&mut cmd, &[head[0], a, b, c]);
                    for d in small.iter() {
                        compare(&mut cmd, &[head[0], a, b, c, d]);
                    }
                }
            }
        }
    }
}
