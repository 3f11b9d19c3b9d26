//! The command line of the client: its commands, and the arguments each takes.
//!
//! The table is data; a command line parser is built from it. What is shown
//! here is that it is well formed: within a command, the arguments every
//! command takes included, no two arguments share a name or a letter, and a
//! conflict names another argument of the command.

use vstd::prelude::*;
use vstd::string::*;

use crate::delegation::DEFAULT_DELEGATION_LIFETIME;
use crate::publisher::DEFAULT_TTL;
use crate::text::{dec, dec_text};

verus! {

/// A command of the client.
#[derive(Debug, Clone, Copy, PartialEq, Eq, Structural)]
pub enum CommandName {
    /// Show the full record for a key.
    Lookup,
    /// Print just the endpoints for a key, in the order to try them.
    Resolve,
    /// Publish your endpoints, signed by your key.
    Publish,
    /// Withdraw a key: publish a record with no endpoints. The key stays
    /// alive and can be published again later.
    Withdraw,
    /// Show server counters.
    Status,
    /// Issue a delegation from an offline identity key over a service key.
    Delegate,
    /// Retire a service key and forward lookups to its replacement.
    Supersede,
    /// Permanently revoke a service key. This cannot be undone.
    Revoke,
    /// List the service keys an identity has issued.
    Identity,
    /// Generate a keypair.
    Keygen,
}

/// An argument of a command.
#[derive(Debug, Clone, Copy, PartialEq, Eq, Structural)]
pub enum ArgName {
    /// A server, as `sqc://host:port/<base58 key>`.
    Server,
    /// Seed file giving this caller a stable key on the wire, for servers
    /// that whitelist their clients.
    ClientKey,
    /// Connection timeout in seconds.
    Timeout,
    /// Ask each server only for what it holds itself.
    NoRecurse,
    /// Resolve `sqns://` addresses without requiring DNSSEC.
    InsecureDns,
    /// A base58 (or hex) public key.
    Key,
    /// Seed file for the service key that signs a record.
    KeyFile,
    /// Delegation file for the service key.
    Delegation,
    /// `host:port[,priority=N][,weight=N]`.
    Endpoint,
    /// Record lifetime in seconds.
    Ttl,
    /// Keep republishing until interrupted.
    Keepalive,
    /// Seed file for the identity key.
    IdentityKey,
    /// The service key to delegate to, or its seed file.
    ServiceKey,
    /// Days a delegation stays valid.
    Days,
    /// Issue a delegation that never expires.
    NeverExpires,
    /// Where to write what is made.
    Out,
    /// The service key being retired.
    OldKey,
    /// The service key that replaces it.
    NewKey,
    /// Why a key is being retired.
    Reason,
    /// Every service key the identity has issued.
    All,
    /// Skip the confirmation prompt.
    Yes,
    /// An identity key rather than a service key.
    Identity,
    /// Overwrite an existing key file.
    Force,
}

/// How an argument is given.
#[derive(Debug, Clone, Copy, PartialEq, Eq, Structural)]
pub enum ArgKind {
    /// By its place.
    Positional,
    /// By its name, with one value.
    Value,
    /// By its name, with a value, any number of times.
    List,
    /// By its name alone.
    Switch,
}

/// An argument as a command takes it.
#[derive(Debug, Clone, Copy, PartialEq, Eq)]
pub struct ArgSpec {
    pub name: ArgName,
    pub kind: ArgKind,
    /// The letter it may be given by.
    pub short: Option<char>,
    pub required: bool,
    /// An argument it cannot be given together with.
    pub conflicts: Option<ArgName>,
}

/// An argument given by name.
pub open spec fn arg(
    name: ArgName,
    kind: ArgKind,
    short: Option<char>,
    required: bool,
    conflicts: Option<ArgName>,
) -> ArgSpec {
    ArgSpec { name, kind, short, required, conflicts }
}

fn put(
    v: &mut Vec<ArgSpec>,
    name: ArgName,
    kind: ArgKind,
    short: Option<char>,
    required: bool,
    conflicts: Option<ArgName>,
)
    ensures
        final(v)@ == old(v)@.push(arg(name, kind, short, required, conflicts)),
{
    v.push(ArgSpec { name, kind, short, required, conflicts });
}

/// The arguments every command takes.
pub open spec fn shared_table() -> Seq<ArgSpec> {
    seq![
        arg(ArgName::Server, ArgKind::List, Some('s'), false, None),
        arg(ArgName::ClientKey, ArgKind::Value, None, false, None),
        arg(ArgName::Timeout, ArgKind::Value, None, false, None),
        arg(ArgName::NoRecurse, ArgKind::Switch, None, false, None),
        arg(ArgName::InsecureDns, ArgKind::Switch, None, false, None),
    ]
}

/// The arguments of a command.
pub open spec fn command_table(c: CommandName) -> Seq<ArgSpec> {
    match c {
        CommandName::Lookup => seq![
            arg(ArgName::Key, ArgKind::Positional, None, true, None),
        ],
        CommandName::Resolve => seq![
            arg(ArgName::Key, ArgKind::Positional, None, true, None),
        ],
        CommandName::Publish => seq![
            arg(ArgName::KeyFile, ArgKind::Value, Some('k'), false, None),
            arg(ArgName::Delegation, ArgKind::Value, Some('D'), false, None),
            arg(ArgName::Endpoint, ArgKind::List, Some('e'), true, None),
            arg(ArgName::Ttl, ArgKind::Value, None, false, None),
            arg(ArgName::Keepalive, ArgKind::Switch, None, false, None),
        ],
        CommandName::Withdraw => seq![
            arg(ArgName::KeyFile, ArgKind::Value, Some('k'), false, None),
            arg(ArgName::Delegation, ArgKind::Value, Some('D'), false, None),
            arg(ArgName::Ttl, ArgKind::Value, None, false, None),
        ],
        CommandName::Status => seq![],
        CommandName::Delegate => seq![
            arg(ArgName::IdentityKey, ArgKind::Value, Some('i'), false, None),
            arg(ArgName::ServiceKey, ArgKind::Value, None, false, None),
            arg(ArgName::Days, ArgKind::Value, None, false, None),
            arg(ArgName::NeverExpires, ArgKind::Switch, None, false, Some(ArgName::Days)),
            arg(ArgName::Out, ArgKind::Value, Some('o'), false, None),
        ],
        CommandName::Supersede => seq![
            arg(ArgName::OldKey, ArgKind::Value, None, true, None),
            arg(ArgName::NewKey, ArgKind::Value, None, true, None),
            arg(ArgName::IdentityKey, ArgKind::Value, Some('i'), false, None),
            arg(ArgName::Reason, ArgKind::Value, None, false, None),
        ],
        CommandName::Revoke => seq![
            arg(ArgName::Key, ArgKind::Value, None, false, None),
            arg(ArgName::All, ArgKind::Switch, None, false, Some(ArgName::Key)),
            arg(ArgName::IdentityKey, ArgKind::Value, Some('i'), false, None),
            arg(ArgName::Reason, ArgKind::Value, None, false, None),
            arg(ArgName::Yes, ArgKind::Switch, None, false, None),
        ],
        CommandName::Identity => seq![
            arg(ArgName::Key, ArgKind::Positional, None, true, None),
        ],
        CommandName::Keygen => seq![
            arg(ArgName::Out, ArgKind::Value, Some('o'), false, None),
            arg(ArgName::Identity, ArgKind::Switch, None, false, None),
            arg(ArgName::Force, ArgKind::Switch, None, false, None),
        ],
    }
}

/// The arguments every command takes.
pub fn shared_args() -> (v: Vec<ArgSpec>)
    ensures
        v@ == shared_table(),
{
    let mut v: Vec<ArgSpec> = Vec::new();
    put(&mut v, ArgName::Server, ArgKind::List, Some('s'), false, None);
    put(&mut v, ArgName::ClientKey, ArgKind::Value, None, false, None);
    put(&mut v, ArgName::Timeout, ArgKind::Value, None, false, None);
    put(&mut v, ArgName::NoRecurse, ArgKind::Switch, None, false, None);
    put(&mut v, ArgName::InsecureDns, ArgKind::Switch, None, false, None);
    assert(v@ =~= shared_table());
    v
}

/// The arguments of a command.
pub fn command_args(c: CommandName) -> (v: Vec<ArgSpec>)
    ensures
        v@ == command_table(c),
{
    let mut v: Vec<ArgSpec> = Vec::new();
    match c {
        CommandName::Lookup => {
            put(&mut v, ArgName::Key, ArgKind::Positional, None, true, None);
        },
        CommandName::Resolve => {
            put(&mut v, ArgName::Key, ArgKind::Positional, None, true, None);
        },
        CommandName::Publish => {
            put(&mut v, ArgName::KeyFile, ArgKind::Value, Some('k'), false, None);
            put(&mut v, ArgName::Delegation, ArgKind::Value, Some('D'), false, None);
            put(&mut v, ArgName::Endpoint, ArgKind::List, Some('e'), true, None);
            put(&mut v, ArgName::Ttl, ArgKind::Value, None, false, None);
            put(&mut v, ArgName::Keepalive, ArgKind::Switch, None, false, None);
        },
        CommandName::Withdraw => {
            put(&mut v, ArgName::KeyFile, ArgKind::Value, Some('k'), false, None);
            put(&mut v, ArgName::Delegation, ArgKind::Value, Some('D'), false, None);
            put(&mut v, ArgName::Ttl, ArgKind::Value, None, false, None);
        },
        CommandName::Status => {
        },
        CommandName::Delegate => {
            put(&mut v, ArgName::IdentityKey, ArgKind::Value, Some('i'), false, None);
            put(&mut v, ArgName::ServiceKey, ArgKind::Value, None, false, None);
            put(&mut v, ArgName::Days, ArgKind::Value, None, false, None);
            put(&mut v, ArgName::NeverExpires, ArgKind::Switch, None, false, Some(ArgName::Days));
            put(&mut v, ArgName::Out, ArgKind::Value, Some('o'), false, None);
        },
        CommandName::Supersede => {
            put(&mut v, ArgName::OldKey, ArgKind::Value, None, true, None);
            put(&mut v, ArgName::NewKey, ArgKind::Value, None, true, None);
            put(&mut v, ArgName::IdentityKey, ArgKind::Value, Some('i'), false, None);
            put(&mut v, ArgName::Reason, ArgKind::Value, None, false, None);
        },
        CommandName::Revoke => {
            put(&mut v, ArgName::Key, ArgKind::Value, None, false, None);
            put(&mut v, ArgName::All, ArgKind::Switch, None, false, Some(ArgName::Key));
            put(&mut v, ArgName::IdentityKey, ArgKind::Value, Some('i'), false, None);
            put(&mut v, ArgName::Reason, ArgKind::Value, None, false, None);
            put(&mut v, ArgName::Yes, ArgKind::Switch, None, false, None);
        },
        CommandName::Identity => {
            put(&mut v, ArgName::Key, ArgKind::Positional, None, true, None);
        },
        CommandName::Keygen => {
            put(&mut v, ArgName::Out, ArgKind::Value, Some('o'), false, None);
            put(&mut v, ArgName::Identity, ArgKind::Switch, None, false, None);
            put(&mut v, ArgName::Force, ArgKind::Switch, None, false, None);
        },
    }
    assert(v@ =~= command_table(c));
    v
}

/// Every command.
pub fn commands() -> (v: Vec<CommandName>)
    ensures
        forall|c: CommandName| #[trigger] v@.contains(c),
        v@.no_duplicates(),
{
    let mut v: Vec<CommandName> = Vec::new();
    v.push(CommandName::Lookup);
    v.push(CommandName::Resolve);
    v.push(CommandName::Publish);
    v.push(CommandName::Withdraw);
    v.push(CommandName::Status);
    v.push(CommandName::Delegate);
    v.push(CommandName::Supersede);
    v.push(CommandName::Revoke);
    v.push(CommandName::Identity);
    v.push(CommandName::Keygen);
    proof {
        assert(v@[0] == CommandName::Lookup);
        assert(v@[1] == CommandName::Resolve);
        assert(v@[2] == CommandName::Publish);
        assert(v@[3] == CommandName::Withdraw);
        assert(v@[4] == CommandName::Status);
        assert(v@[5] == CommandName::Delegate);
        assert(v@[6] == CommandName::Supersede);
        assert(v@[7] == CommandName::Revoke);
        assert(v@[8] == CommandName::Identity);
        assert(v@[9] == CommandName::Keygen);
        assert forall|c: CommandName| #[trigger] v@.contains(c) by {
            let i: int = match c {
                CommandName::Lookup => 0,
                CommandName::Resolve => 1,
                CommandName::Publish => 2,
                CommandName::Withdraw => 3,
                CommandName::Status => 4,
                CommandName::Delegate => 5,
                CommandName::Supersede => 6,
                CommandName::Revoke => 7,
                CommandName::Identity => 8,
                CommandName::Keygen => 9,
            };
            assert(v@[i] == c);
        }
    }
    v
}

/// The word a command is given by.
pub open spec fn command_text(c: CommandName) -> Seq<char> {
    match c {
        CommandName::Lookup => "lookup"@,
        CommandName::Resolve => "resolve"@,
        CommandName::Publish => "publish"@,
        CommandName::Withdraw => "withdraw"@,
        CommandName::Status => "status"@,
        CommandName::Delegate => "delegate"@,
        CommandName::Supersede => "supersede"@,
        CommandName::Revoke => "revoke"@,
        CommandName::Identity => "identity"@,
        CommandName::Keygen => "keygen"@,
    }
}

/// The word an argument is given by.
pub open spec fn arg_text(a: ArgName) -> Seq<char> {
    match a {
        ArgName::Server => "server"@,
        ArgName::ClientKey => "client-key"@,
        ArgName::Timeout => "timeout"@,
        ArgName::NoRecurse => "no-recurse"@,
        ArgName::InsecureDns => "insecure-dns"@,
        ArgName::Key => "key"@,
        ArgName::KeyFile => "key-file"@,
        ArgName::Delegation => "delegation"@,
        ArgName::Endpoint => "endpoint"@,
        ArgName::Ttl => "ttl"@,
        ArgName::Keepalive => "keepalive"@,
        ArgName::IdentityKey => "identity-key"@,
        ArgName::ServiceKey => "service-key"@,
        ArgName::Days => "days"@,
        ArgName::NeverExpires => "never-expires"@,
        ArgName::Out => "out"@,
        ArgName::OldKey => "old-key"@,
        ArgName::NewKey => "new-key"@,
        ArgName::Reason => "reason"@,
        ArgName::All => "all"@,
        ArgName::Yes => "yes"@,
        ArgName::Identity => "identity"@,
        ArgName::Force => "force"@,
    }
}

/// What stands for an argument's value in a summary, if it has one.
pub open spec fn value_text(a: ArgName) -> Option<Seq<char>> {
    match a {
        ArgName::Server => Some("URL"@),
        ArgName::ClientKey => Some("FILE"@),
        ArgName::Timeout => Some("SECONDS"@),
        ArgName::Key => Some("KEY"@),
        ArgName::KeyFile => Some("FILE"@),
        ArgName::Delegation => Some("FILE"@),
        ArgName::Endpoint => Some("ADDR"@),
        ArgName::Ttl => Some("SECONDS"@),
        ArgName::IdentityKey => Some("FILE"@),
        ArgName::ServiceKey => Some("KEY|FILE"@),
        ArgName::Days => Some("DAYS"@),
        ArgName::Out => Some("FILE"@),
        ArgName::OldKey => Some("KEY"@),
        ArgName::NewKey => Some("KEY"@),
        ArgName::Reason => Some("TEXT"@),
        _ => None,
    }
}

/// What an argument is when it is not given, if there is such a value.
pub open spec fn default_text(c: CommandName, a: ArgName) -> Option<Seq<char>> {
    match (c, a) {
        (_, ArgName::Timeout) => Some("10"@),
        (_, ArgName::Ttl) => Some(dec(DEFAULT_TTL as nat)),
        (_, ArgName::Days) => Some(dec((DEFAULT_DELEGATION_LIFETIME / 86_400) as nat)),
        (CommandName::Supersede, ArgName::Reason) => Some("rotated"@),
        (CommandName::Revoke, ArgName::Reason) => Some("revoked by the key holder"@),
        _ => None,
    }
}

impl CommandName {
    /// The word this command is given by.
    pub fn text(&self) -> (s: &'static str)
        ensures
            s@ == command_text(*self),
    {
        match self {
            CommandName::Lookup => "lookup",
            CommandName::Resolve => "resolve",
            CommandName::Publish => "publish",
            CommandName::Withdraw => "withdraw",
            CommandName::Status => "status",
            CommandName::Delegate => "delegate",
            CommandName::Supersede => "supersede",
            CommandName::Revoke => "revoke",
            CommandName::Identity => "identity",
            CommandName::Keygen => "keygen",
        }
    }
}

impl ArgName {
    /// The word this argument is given by.
    pub fn text(&self) -> (s: &'static str)
        ensures
            s@ == arg_text(*self),
    {
        match self {
            ArgName::Server => "server",
            ArgName::ClientKey => "client-key",
            ArgName::Timeout => "timeout",
            ArgName::NoRecurse => "no-recurse",
            ArgName::InsecureDns => "insecure-dns",
            ArgName::Key => "key",
            ArgName::KeyFile => "key-file",
            ArgName::Delegation => "delegation",
            ArgName::Endpoint => "endpoint",
            ArgName::Ttl => "ttl",
            ArgName::Keepalive => "keepalive",
            ArgName::IdentityKey => "identity-key",
            ArgName::ServiceKey => "service-key",
            ArgName::Days => "days",
            ArgName::NeverExpires => "never-expires",
            ArgName::Out => "out",
            ArgName::OldKey => "old-key",
            ArgName::NewKey => "new-key",
            ArgName::Reason => "reason",
            ArgName::All => "all",
            ArgName::Yes => "yes",
            ArgName::Identity => "identity",
            ArgName::Force => "force",
        }
    }

    /// What stands for this argument's value in a summary, if it has one.
    pub fn value_name(&self) -> (s: Option<&'static str>)
        ensures
            match s {
                Some(s) => value_text(*self) == Some(s@),
                None => value_text(*self) is None,
            },
    {
        match self {
            ArgName::Server => Some("URL"),
            ArgName::ClientKey => Some("FILE"),
            ArgName::Timeout => Some("SECONDS"),
            ArgName::Key => Some("KEY"),
            ArgName::KeyFile => Some("FILE"),
            ArgName::Delegation => Some("FILE"),
            ArgName::Endpoint => Some("ADDR"),
            ArgName::Ttl => Some("SECONDS"),
            ArgName::IdentityKey => Some("FILE"),
            ArgName::ServiceKey => Some("KEY|FILE"),
            ArgName::Days => Some("DAYS"),
            ArgName::Out => Some("FILE"),
            ArgName::OldKey => Some("KEY"),
            ArgName::NewKey => Some("KEY"),
            ArgName::Reason => Some("TEXT"),
            _ => None,
        }
    }
}

/// What an argument is when it is not given, if there is such a value.
pub fn default_value(c: CommandName, a: ArgName) -> (s: Option<String>)
    ensures
        match s {
            Some(s) => default_text(c, a) == Some(s@),
            None => default_text(c, a) is None,
        },
{
    match (c, a) {
        (_, ArgName::Timeout) => Some(String::from_str("10")),
        (_, ArgName::Ttl) => Some(dec_text(DEFAULT_TTL as u64)),
        (_, ArgName::Days) => Some(dec_text(DEFAULT_DELEGATION_LIFETIME / 86_400)),
        (CommandName::Supersede, ArgName::Reason) => Some(String::from_str("rotated")),
        (CommandName::Revoke, ArgName::Reason) => Some(
            String::from_str("revoked by the key holder"),
        ),
        _ => None,
    }
}

/// Two arguments that can be told apart: by name, and by letter where both
/// have one.
pub open spec fn told_apart(a: ArgSpec, b: ArgSpec) -> bool {
    a.name != b.name && (a.short is Some && b.short is Some ==> a.short != b.short)
}

/// All arguments of a command.
pub open spec fn whole_table(c: CommandName) -> Seq<ArgSpec> {
    shared_table() + command_table(c)
}

/// No two arguments of a command clash, the arguments every command takes
/// included.
pub proof fn no_arguments_clash(c: CommandName, i: int, j: int)
    requires
        0 <= i < j < whole_table(c).len(),
    ensures
        told_apart(whole_table(c)[i], whole_table(c)[j]),
{
}

/// An argument conflicts only with another argument of the same command.
pub proof fn conflicts_are_within_a_command(c: CommandName, i: int)
    requires
        0 <= i < command_table(c).len(),
        command_table(c)[i].conflicts is Some,
    ensures
        exists|j: int|
            0 <= j < command_table(c).len() && j != i && (#[trigger] command_table(c)[j]).name
                == command_table(c)[i].conflicts->0,
{
    match c {
        CommandName::Delegate => {
            assert(command_table(c)[2].name == ArgName::Days);
        },
        CommandName::Revoke => {
            assert(command_table(c)[0].name == ArgName::Key);
        },
        _ => {},
    }
}

/// No two commands are given by the same word.
pub proof fn commands_are_told_apart(c: CommandName, d: CommandName)
    requires
        c != d,
    ensures
        command_text(c) != command_text(d),
{
    reveal_strlit("lookup");
    reveal_strlit("resolve");
    reveal_strlit("publish");
    reveal_strlit("withdraw");
    reveal_strlit("status");
    reveal_strlit("delegate");
    reveal_strlit("supersede");
    reveal_strlit("revoke");
    reveal_strlit("identity");
    reveal_strlit("keygen");
    assert(command_text(c) == command_text(d) ==> command_text(c)[0] == command_text(d)[0]);
    assert(command_text(c) == command_text(d) ==> command_text(c)[2] == command_text(d)[2]);
}

/// No two arguments are given by the same word.
pub proof fn arguments_are_told_apart(a: ArgName, b: ArgName)
    requires
        a != b,
    ensures
        arg_text(a) != arg_text(b),
{
    reveal_strlit("server");
    reveal_strlit("client-key");
    reveal_strlit("timeout");
    reveal_strlit("no-recurse");
    reveal_strlit("insecure-dns");
    reveal_strlit("key");
    reveal_strlit("key-file");
    reveal_strlit("delegation");
    reveal_strlit("endpoint");
    reveal_strlit("ttl");
    reveal_strlit("keepalive");
    reveal_strlit("identity-key");
    reveal_strlit("service-key");
    reveal_strlit("days");
    reveal_strlit("never-expires");
    reveal_strlit("out");
    reveal_strlit("old-key");
    reveal_strlit("new-key");
    reveal_strlit("reason");
    reveal_strlit("all");
    reveal_strlit("yes");
    reveal_strlit("identity");
    reveal_strlit("force");
    assert(arg_text(a) == arg_text(b) ==> arg_text(a).len() == arg_text(b).len());
    assert(arg_text(a) == arg_text(b) ==> arg_text(a)[0] == arg_text(b)[0]);
    assert(arg_text(a) == arg_text(b) ==> arg_text(a)[2] == arg_text(b)[2]);
}

/// An argument has the same letter wherever it is taken.
pub proof fn an_argument_has_one_letter(c: CommandName, d: CommandName, i: int, j: int)
    requires
        0 <= i < whole_table(c).len(),
        0 <= j < whole_table(d).len(),
        whole_table(c)[i].name == whole_table(d)[j].name,
    ensures
        whole_table(c)[i].short == whole_table(d)[j].short,
{
}

} // verus!
