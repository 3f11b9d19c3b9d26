//! The command line.

use clap::{Arg, ArgAction, ArgMatches, Command};
use sqns::cli::{
    command_args, commands, default_value, shared_args, ArgKind, ArgName, ArgSpec, CommandName,
};
use sqns::client_config::{choose_servers, servers_from_config, servers_from_env};

fn fixed(s: String) -> &'static str {
    Box::leak(s.into_boxed_str())
}

fn build_arg(command: CommandName, spec: &ArgSpec, index: usize) -> Arg {
    let mut arg = Arg::new(spec.name.text()).required(spec.required);
    arg = match spec.kind {
        ArgKind::Positional => arg.index(index),
        ArgKind::Value => arg.long(spec.name.text()).action(ArgAction::Set),
        ArgKind::List => arg.long(spec.name.text()).action(ArgAction::Append),
        ArgKind::Switch => arg.long(spec.name.text()).action(ArgAction::SetTrue),
    };
    if let Some(letter) = spec.short {
        arg = arg.short(letter);
    }
    if let Some(name) = spec.name.value_name() {
        if spec.kind != ArgKind::Switch {
            arg = arg.value_name(name);
        }
    }
    if let Some(value) = default_value(command, spec.name) {
        arg = arg.default_value(fixed(value));
    }
    if let Some(other) = spec.conflicts {
        arg = arg.conflicts_with(other.text());
    }
    arg
}

fn command_line() -> Command {
    let mut top = Command::new("sqns").version(sqns::VERSION).subcommand_required(true);
    for spec in shared_args() {
        top = top.arg(build_arg(CommandName::Status, &spec, 1).global(true));
    }
    for c in commands() {
        let mut sub = Command::new(c.text());
        for spec in command_args(c) {
            sub = sub.arg(build_arg(c, &spec, 1));
        }
        top = top.subcommand(sub);
    }
    top
}

fn read_back(m: &ArgMatches, spec: &ArgSpec) -> Vec<String> {
    match spec.kind {
        ArgKind::Switch => vec![m.get_flag(spec.name.text()).to_string()],
        ArgKind::List => m
            .get_many::<String>(spec.name.text())
            .map(|v| v.cloned().collect())
            .unwrap_or_default(),
        _ => m.get_one::<String>(spec.name.text()).cloned().into_iter().collect(),
    }
}

/// Catches clashing short flags and other command wiring mistakes, which the
/// parser only asserts on at runtime.
#[test]
fn the_command_line_is_well_formed() {
    command_line().debug_assert();
}

/// Actually parses each command. `debug_assert` does not catch an argument
/// whose id collides with a global one: that only surfaces when the value is
/// read back, and then it panics in the user's face.
#[test]
fn every_command_parses_and_reads_its_arguments() {
    let cases: Vec<Vec<&str>> = vec![
        vec!["sqns", "lookup", "KEY"],
        vec!["sqns", "resolve", "KEY", "--server", "sqc://h:1/K"],
        vec!["sqns", "lookup", "KEY", "--no-recurse"],
        vec!["sqns", "identity", "KEY"],
        vec!["sqns", "publish", "--key-file", "k", "-D", "d.bin", "-e", "1.2.3.4:5"],
        vec!["sqns", "withdraw", "--key-file", "k", "-D", "d.bin"],
        // Every path flag is optional, so each command must also parse with
        // nothing but what it truly requires.
        vec!["sqns", "publish", "-e", "1.2.3.4:5"],
        vec!["sqns", "withdraw"],
        vec!["sqns", "keygen"],
        vec!["sqns", "keygen", "--identity"],
        vec!["sqns", "delegate"],
        vec!["sqns", "supersede", "--old-key", "A", "--new-key", "B"],
        vec!["sqns", "revoke", "--key", "A"],
        vec!["sqns", "revoke", "--all"],
        vec!["sqns", "status", "--client-key", "wire.key"],
        vec!["sqns", "keygen", "--out", "k"],
        vec!["sqns", "delegate", "--identity-key", "i", "--service-key", "s", "--out", "d"],
        vec![
            "sqns",
            "delegate",
            "--identity-key",
            "i",
            "--service-key",
            "s",
            "--never-expires",
            "--out",
            "d",
        ],
        vec!["sqns", "supersede", "--old-key", "A", "--new-key", "B", "--identity-key", "i"],
        vec!["sqns", "revoke", "--key", "A", "--identity-key", "i"],
        vec!["sqns", "revoke", "--all", "--identity-key", "i"],
    ];
    for args in cases {
        let matches = match command_line().try_get_matches_from(&args) {
            Ok(m) => m,
            Err(e) => panic!("{args:?} did not parse: {e}"),
        };
        let (name, sub) = matches.subcommand().expect("a command");
        let command =
            commands().into_iter().find(|c| c.text() == name).expect("a command of the table");
        // Reading the arguments back is what trips an id collision.
        for spec in shared_args().iter().chain(command_args(command).iter()) {
            let values = read_back(sub, spec);
            let given = args.iter().position(|a| {
                *a == format!("--{}", spec.name.text())
                    || spec.short.is_some_and(|c| *a == format!("-{c}"))
            });
            match (spec.kind, given) {
                (ArgKind::Switch, at) => {
                    assert_eq!(values, vec![at.is_some().to_string()], "{args:?}")
                },
                (ArgKind::Positional, _) => assert_eq!(values, vec!["KEY".to_string()]),
                (_, Some(i)) => assert_eq!(values, vec![args[i + 1].to_string()], "{args:?}"),
                (_, None) => assert_eq!(
                    values,
                    default_value(command, spec.name).into_iter().collect::<Vec<String>>(),
                    "{args:?}"
                ),
            }
        }
    }
}

#[test]
fn what_cannot_go_together_is_refused() {
    for args in [
        vec!["sqns", "revoke", "--key", "A", "--all"],
        vec!["sqns", "delegate", "--days", "3", "--never-expires"],
        vec!["sqns", "publish"],
        vec!["sqns", "lookup"],
    ] {
        assert!(command_line().try_get_matches_from(&args).is_err(), "{args:?}");
    }
}

#[test]
fn defaults_are_what_they_say() {
    let value = |c, a| default_value(c, a);
    assert_eq!(value(CommandName::Status, ArgName::Timeout), Some("10".to_string()));
    assert_eq!(value(CommandName::Publish, ArgName::Ttl), Some("300".to_string()));
    assert_eq!(value(CommandName::Delegate, ArgName::Days), Some("90".to_string()));
    assert_eq!(value(CommandName::Supersede, ArgName::Reason), Some("rotated".to_string()));
    assert_eq!(
        value(CommandName::Revoke, ArgName::Reason),
        Some("revoked by the key holder".to_string())
    );
    assert_eq!(value(CommandName::Publish, ArgName::KeyFile), None);
}

#[test]
fn the_config_file_lists_servers_one_per_line() {
    let text = "\
# my servers
sqc://ns1.example.com:5300/EFj2

   sqc://ns2.example.com:5300/AbCd   # the standby
";
    assert_eq!(
        servers_from_config(text),
        vec![
            "sqc://ns1.example.com:5300/EFj2".to_string(),
            "sqc://ns2.example.com:5300/AbCd".to_string(),
        ]
    );
    assert!(servers_from_config("# nothing but a comment\n\n").is_empty());
}

#[test]
fn the_environment_lists_servers_between_separators() {
    assert_eq!(servers_from_env(" a, b\tc\n,d "), vec!["a", "b", "c", "d"]);
    assert!(servers_from_env(" ,\t\n").is_empty());
    assert_eq!(servers_from_env("sqc://h:1/K"), vec!["sqc://h:1/K"]);
}

#[test]
fn servers_are_chosen_in_order() {
    let one = |s: &str| vec![s.to_string()];
    assert_eq!(choose_servers(one("flag"), Some("env"), Some("file")), one("flag"));
    assert_eq!(choose_servers(Vec::new(), Some("env"), Some("file")), one("env"));
    assert_eq!(choose_servers(Vec::new(), Some(" , "), Some("file # x")), one("file"));
    assert_eq!(choose_servers(Vec::new(), None, Some("# x")), one(sqns::DEFAULT_SERVER));
    assert_eq!(choose_servers(Vec::new(), None, None), one(sqns::DEFAULT_SERVER));
}
