//! The command line: which command the arguments ask for, with its
//! options, or the message that explains what is wrong with them.

use vstd::prelude::*;
use crate::numbers::{parse_u32, parse_u64, parsed_unsigned};
use crate::text::{chars_of, concat_str, extend_with_str, owned, same_text, string_from_chars};

verus! {

/// The help text.
pub const USAGE: &'static str = "Usage:
  cargo run -- serve                                   Start HTTP + GraphQL server
  cargo run -- monitor [config.json] [interval_secs]  Start autonomous monitor
  cargo run -- query \"<plain-English query>\"          Ask the local NLP agent
  cargo run -- holder-count <address> [chain]          Fetch holder count
  cargo run -- 24h-volume   <address> [chain]          Fetch 24h volume
  cargo run -- top-buyers   <address> [top_n] [chain]  Fetch top buyers

Examples:
  PORT=3001 cargo run -- serve
  cargo run -- monitor monitor.json 60
  cargo run -- query \"Show top 5 buyers of 0x445e9c...\"
  cargo run -- holder-count 0x445e9c... 8453
  cargo run -- 24h-volume   0x445e9c...
  cargo run -- top-buyers   0x445e9c... 5";

/// The help text.
pub fn usage() -> (r: &'static str)
    ensures
        r@ == USAGE@,
{
    USAGE
}

/// The monitor's configuration file when none is given.
pub const DEFAULT_MONITOR_CONFIG: &'static str = "monitor.json";

/// The monitor's polling interval, in seconds, when none is given.
pub const DEFAULT_INTERVAL_SECS: u64 = 60;

/// The number of top buyers asked for when none is given.
pub const DEFAULT_CLI_TOP_N: u32 = 10;

/// A command of the command line.
#[derive(Debug, Clone)]
pub enum Command {
    Help,
    Serve,
    Monitor { config: String, interval_secs: u64 },
    Query { query: String },
    HolderCount { address: String, chain: u64 },
    Volume24h { address: String, chain: u64 },
    TopBuyers { address: String, chain: u64, top_n: u32 },
}

/// A command with its texts as character sequences.
pub enum CommandView {
    Help,
    Serve,
    Monitor { config: Seq<char>, interval_secs: u64 },
    Query { query: Seq<char> },
    HolderCount { address: Seq<char>, chain: u64 },
    Volume24h { address: Seq<char>, chain: u64 },
    TopBuyers { address: Seq<char>, chain: u64, top_n: u32 },
}

impl View for Command {
    type V = CommandView;

    open spec fn view(&self) -> CommandView {
        match self {
            Command::Help => CommandView::Help,
            Command::Serve => CommandView::Serve,
            Command::Monitor { config, interval_secs } => CommandView::Monitor {
                config: config@,
                interval_secs: *interval_secs,
            },
            Command::Query { query } => CommandView::Query { query: query@ },
            Command::HolderCount { address, chain } => CommandView::HolderCount { address: address@, chain: *chain },
            Command::Volume24h { address, chain } => CommandView::Volume24h { address: address@, chain: *chain },
            Command::TopBuyers { address, chain, top_n } => CommandView::TopBuyers {
                address: address@,
                chain: *chain,
                top_n: *top_n,
            },
        }
    }
}

/// The texts of a list of arguments.
pub open spec fn texts(args: Seq<String>) -> Seq<Seq<char>> {
    args.map_values(|a: String| a@)
}

/// An argument that looks like an option: it starts with `--`.
pub open spec fn is_flag(a: Seq<char>) -> bool {
    a.len() >= 2 && a[0] == '-' && a[1] == '-'
}

/// The error for a missing argument.
pub open spec fn missing_arg_text(name: Seq<char>) -> Seq<char> {
    "missing required argument: "@ + name + "\n\n"@ + USAGE@
}

/// The error for an argument that is not a valid number.
pub open spec fn not_integer_text(name: Seq<char>) -> Seq<char> {
    name + " must be an integer"@
}

/// Reads the monitor's options from position `i` on, given what was read
/// before: `--config <file>`, `--interval <secs>`, and up to two positional
/// arguments (the file, then the interval); other options are ignored, and
/// an option's value is taken whatever it looks like.
pub open spec fn monitor_options(
    args: Seq<Seq<char>>,
    i: int,
    config: Seq<char>,
    interval: u64,
    positional: nat,
) -> Result<(Seq<char>, u64), Seq<char>>
    decreases args.len() - i,
{
    if i < 0 || i >= args.len() {
        Ok((config, interval))
    } else if args[i] == "--config"@ {
        if i + 1 < args.len() {
            monitor_options(args, i + 2, args[i + 1], interval, positional)
        } else {
            Ok((config, interval))
        }
    } else if args[i] == "--interval"@ {
        if i + 1 < args.len() {
            match parsed_unsigned(args[i + 1], u64::MAX as nat) {
                Some(n) => monitor_options(args, i + 2, config, n as u64, positional),
                None => Err("--interval must be an integer"@),
            }
        } else {
            Ok((config, interval))
        }
    } else if !is_flag(args[i]) {
        if positional == 0 {
            monitor_options(args, i + 1, args[i], interval, 1)
        } else if positional == 1 {
            match parsed_unsigned(args[i], u64::MAX as nat) {
                Some(n) => monitor_options(args, i + 1, config, n as u64, 2),
                None => Err("interval_secs must be an integer"@),
            }
        } else {
            monitor_options(args, i + 1, config, interval, positional + 1)
        }
    } else {
        monitor_options(args, i + 1, config, interval, positional)
    }
}

/// The words of a query joined by single spaces.
pub open spec fn joined(words: Seq<Seq<char>>) -> Seq<char>
    decreases words.len(),
{
    if words.len() == 0 {
        Seq::empty()
    } else if words.len() == 1 {
        words[0]
    } else {
        joined(words.drop_last()) + " "@ + words.last()
    }
}

/// An optional numeric argument at `index`: its value, `default` when it
/// is absent, or the error naming it when it is not a valid number.
pub open spec fn optional_number(
    args: Seq<Seq<char>>,
    index: int,
    default: nat,
    max: nat,
    name: Seq<char>,
) -> Result<nat, Seq<char>> {
    if index < args.len() {
        match parsed_unsigned(args[index], max) {
            Some(n) => Ok(n),
            None => Err(not_integer_text(name)),
        }
    } else {
        Ok(default)
    }
}

/// The command that `args` (the arguments after the program's name) ask
/// for, or the error explaining why they cannot be read.  `default_chain`
/// is the chain used when a command names none.
pub open spec fn command_of(args: Seq<Seq<char>>, default_chain: u64) -> Result<CommandView, Seq<char>> {
    if args.len() == 0 || args[0] == "-h"@ || args[0] == "--help"@ || args[0] == "help"@ {
        Ok(CommandView::Help)
    } else {
        let cmd = args[0];
        let rest = args.skip(1);
        if cmd == "serve"@ || cmd == "server"@ {
            Ok(CommandView::Serve)
        } else if cmd == "monitor"@ {
            match monitor_options(rest, 0, DEFAULT_MONITOR_CONFIG@, DEFAULT_INTERVAL_SECS, 0) {
                Ok((config, interval_secs)) => Ok(CommandView::Monitor { config, interval_secs }),
                Err(e) => Err(e),
            }
        } else if cmd == "query"@ || cmd == "ask"@ {
            if rest.len() == 0 {
                Err(missing_arg_text("query"@))
            } else {
                Ok(CommandView::Query { query: joined(rest) })
            }
        } else if cmd == "holder-count"@ || cmd == "get-holder-count"@ || cmd == "24h-volume"@ || cmd
            == "get-24h-volume"@ {
            if rest.len() == 0 {
                Err(missing_arg_text("address"@))
            } else {
                match optional_number(rest, 1, default_chain as nat, u64::MAX as nat, "chain"@) {
                    Ok(chain) => if cmd == "holder-count"@ || cmd == "get-holder-count"@ {
                        Ok(CommandView::HolderCount { address: rest[0], chain: chain as u64 })
                    } else {
                        Ok(CommandView::Volume24h { address: rest[0], chain: chain as u64 })
                    },
                    Err(e) => Err(e),
                }
            }
        } else if cmd == "top-buyers"@ || cmd == "get-top-buyers"@ {
            if rest.len() == 0 {
                Err(missing_arg_text("address"@))
            } else {
                match optional_number(rest, 1, DEFAULT_CLI_TOP_N as nat, u32::MAX as nat, "top_n"@) {
                    Ok(top_n) => match optional_number(rest, 2, default_chain as nat, u64::MAX as nat, "chain"@) {
                        Ok(chain) => Ok(
                            CommandView::TopBuyers { address: rest[0], chain: chain as u64, top_n: top_n as u32 },
                        ),
                        Err(e) => Err(e),
                    },
                    Err(e) => Err(e),
                }
            }
        } else {
            Err("unknown command: "@ + cmd + "\n\n"@ + USAGE@)
        }
    }
}

/// The error for a missing argument.
fn missing_arg(name: &str) -> (r: String)
    ensures
        r@ == missing_arg_text(name@),
{
    let mut v = chars_of("missing required argument: ");
    extend_with_str(&mut v, name);
    extend_with_str(&mut v, "\n\n");
    extend_with_str(&mut v, USAGE);
    string_from_chars(&v)
}

/// An optional `u64` argument at `index`: its value, `default` when it is
/// absent, or the error naming it.
pub fn optional_u64(args: &Vec<String>, index: usize, default: u64, name: &str) -> (r: Result<u64, String>)
    ensures
        match r {
            Ok(n) => optional_number(texts(args@), index as int, default as nat, u64::MAX as nat, name@) == Ok::<nat, Seq<char>>(n as nat),
            Err(e) => optional_number(texts(args@), index as int, default as nat, u64::MAX as nat, name@) == Err::<nat, Seq<char>>(e@),
        },
{
    if index < args.len() {
        assert(texts(args@)[index as int] == args@[index as int]@);
        match parse_u64(args[index].as_str()) {
            Some(n) => Ok(n),
            None => Err(concat_str(name, " must be an integer")),
        }
    } else {
        Ok(default)
    }
}

/// An optional `u32` argument at `index`: its value, `default` when it is
/// absent, or the error naming it.
pub fn optional_u32(args: &Vec<String>, index: usize, default: u32, name: &str) -> (r: Result<u32, String>)
    ensures
        match r {
            Ok(n) => optional_number(texts(args@), index as int, default as nat, u32::MAX as nat, name@) == Ok::<nat, Seq<char>>(n as nat),
            Err(e) => optional_number(texts(args@), index as int, default as nat, u32::MAX as nat, name@) == Err::<nat, Seq<char>>(e@),
        },
{
    if index < args.len() {
        assert(texts(args@)[index as int] == args@[index as int]@);
        match parse_u32(args[index].as_str()) {
            Some(n) => Ok(n),
            None => Err(concat_str(name, " must be an integer")),
        }
    } else {
        Ok(default)
    }
}

/// Whether an argument starts with `--`.
fn flag_like(a: &str) -> (b: bool)
    ensures
        b == is_flag(a@),
{
    let v = chars_of(a);
    v.len() >= 2 && v[0] == '-' && v[1] == '-'
}

/// Reads the monitor's options (see [`monitor_options`]).
fn parse_monitor_options(args: &Vec<String>) -> (r: Result<(String, u64), String>)
    ensures
        match r {
            Ok((config, interval)) => monitor_options(texts(args@), 0, DEFAULT_MONITOR_CONFIG@, DEFAULT_INTERVAL_SECS, 0)
                == Ok::<(Seq<char>, u64), Seq<char>>((config@, interval)),
            Err(e) => monitor_options(texts(args@), 0, DEFAULT_MONITOR_CONFIG@, DEFAULT_INTERVAL_SECS, 0) == Err::<(Seq<char>, u64), Seq<char>>(e@),
        },
{
    let ghost t = texts(args@);
    let mut config = owned(DEFAULT_MONITOR_CONFIG);
    let mut interval: u64 = DEFAULT_INTERVAL_SECS;
    let mut positional: usize = 0;
    let mut i: usize = 0;
    while i < args.len()
        invariant
            i <= args.len(),
            positional <= i,
            t == texts(args@),
            monitor_options(t, 0, DEFAULT_MONITOR_CONFIG@, DEFAULT_INTERVAL_SECS, 0) == monitor_options(
                t,
                i as int,
                config@,
                interval,
                positional as nat,
            ),
        decreases args.len() - i,
    {
        let a = args[i].as_str();
        assert(t[i as int] == a@);
        if same_text(a, "--config") {
            if i + 1 < args.len() {
                assert(t[i + 1] == args@[i + 1]@);
                config = args[i + 1].clone();
                i = i + 2;
            } else {
                i = args.len();
            }
        } else if same_text(a, "--interval") {
            if i + 1 < args.len() {
                assert(t[i + 1] == args@[i + 1]@);
                match parse_u64(args[i + 1].as_str()) {
                    Some(n) => {
                        interval = n;
                        i = i + 2;
                    },
                    None => return Err(owned("--interval must be an integer")),
                }
            } else {
                i = args.len();
            }
        } else if !flag_like(a) {
            if positional == 0 {
                config = owned(a);
            } else if positional == 1 {
                match parse_u64(a) {
                    Some(n) => {
                        interval = n;
                    },
                    None => return Err(owned("interval_secs must be an integer")),
                }
            }
            positional = positional + 1;
            i = i + 1;
        } else {
            i = i + 1;
        }
    }
    Ok((config, interval))
}

/// The words joined by single spaces.
fn join_words(words: &Vec<String>) -> (r: String)
    ensures
        r@ == joined(texts(words@)),
{
    let ghost t = texts(words@);
    let mut v: Vec<char> = Vec::new();
    let mut i: usize = 0;
    while i < words.len()
        invariant
            i <= words.len(),
            t == texts(words@),
            v@ == joined(t.take(i as int)),
        decreases words.len() - i,
    {
        proof {
            assert(t.take(i + 1).drop_last() == t.take(i as int));
            assert(t.take(i + 1).last() == words@[i as int]@);
            if i == 0 {
                assert(t.take(1) == seq![words@[0]@]);
            }
        }
        if i > 0 {
            extend_with_str(&mut v, " ");
        }
        extend_with_str(&mut v, words[i].as_str());
        i = i + 1;
    }
    assert(t.take(words.len() as int) == t);
    string_from_chars(&v)
}

/// A required argument at `index`, or the error naming it.
pub fn required_arg(args: &Vec<String>, index: usize, name: &str) -> (r: Result<String, String>)
    ensures
        match r {
            Ok(a) => index < args.len() && a@ == args@[index as int]@,
            Err(e) => index >= args.len() && e@ == missing_arg_text(name@),
        },
{
    if index < args.len() {
        Ok(args[index].clone())
    } else {
        Err(missing_arg(name))
    }
}

/// An optional chain argument at `index`, `default_chain` when absent.
pub fn optional_chain(args: &Vec<String>, index: usize, default_chain: u64) -> (r: Result<u64, String>)
    ensures
        match r {
            Ok(n) => optional_number(texts(args@), index as int, default_chain as nat, u64::MAX as nat, "chain"@) == Ok::<nat, Seq<char>>(n as nat),
            Err(e) => optional_number(texts(args@), index as int, default_chain as nat, u64::MAX as nat, "chain"@) == Err::<nat, Seq<char>>(e@),
        },
{
    optional_u64(args, index, default_chain, "chain")
}

impl Command {
    /// Reads the command line (see [`command_of`]): `args` are the
    /// arguments after the program's name, and `default_chain` the chain
    /// used when a command names none.
    pub fn parse(args: Vec<String>, default_chain: u64) -> (r: Result<Command, String>)
        ensures
            match r {
                Ok(c) => command_of(texts(args@), default_chain) == Ok::<CommandView, Seq<char>>(c@),
                Err(e) => command_of(texts(args@), default_chain) == Err::<CommandView, Seq<char>>(e@),
            },
    {
        let ghost t = texts(args@);
        if args.len() == 0 {
            return Ok(Command::Help);
        }
        assert(t[0] == args@[0]@);
        let first = args[0].as_str();
        if same_text(first, "-h") || same_text(first, "--help") || same_text(first, "help") {
            return Ok(Command::Help);
        }
        let mut rest = args;
        let command = rest.remove(0);
        assert(texts(rest@) == t.skip(1));
        let cmd = command.as_str();
        if same_text(cmd, "serve") || same_text(cmd, "server") {
            return Ok(Command::Serve);
        }
        if same_text(cmd, "monitor") {
            return match parse_monitor_options(&rest) {
                Ok((config, interval_secs)) => Ok(Command::Monitor { config, interval_secs }),
                Err(e) => Err(e),
            };
        }
        if same_text(cmd, "query") || same_text(cmd, "ask") {
            if rest.len() == 0 {
                return Err(missing_arg("query"));
            }
            return Ok(Command::Query { query: join_words(&rest) });
        }
        let holders = same_text(cmd, "holder-count") || same_text(cmd, "get-holder-count");
        let volume = same_text(cmd, "24h-volume") || same_text(cmd, "get-24h-volume");
        if holders || volume {
            let address = match required_arg(&rest, 0, "address") {
                Ok(a) => a,
                Err(e) => return Err(e),
            };
            assert(texts(rest@)[0] == rest@[0]@);
            let chain = match optional_chain(&rest, 1, default_chain) {
                Ok(n) => n,
                Err(e) => return Err(e),
            };
            if holders {
                return Ok(Command::HolderCount { address, chain });
            }
            return Ok(Command::Volume24h { address, chain });
        }
        if same_text(cmd, "top-buyers") || same_text(cmd, "get-top-buyers") {
            let address = match required_arg(&rest, 0, "address") {
                Ok(a) => a,
                Err(e) => return Err(e),
            };
            assert(texts(rest@)[0] == rest@[0]@);
            let top_n = match optional_u32(&rest, 1, DEFAULT_CLI_TOP_N, "top_n") {
                Ok(n) => n,
                Err(e) => return Err(e),
            };
            let chain = match optional_chain(&rest, 2, default_chain) {
                Ok(n) => n,
                Err(e) => return Err(e),
            };
            return Ok(Command::TopBuyers { address, chain, top_n });
        }
        let mut v = chars_of("unknown command: ");
        extend_with_str(&mut v, cmd);
        extend_with_str(&mut v, "\n\n");
        extend_with_str(&mut v, USAGE);
        Err(string_from_chars(&v))
    }
}

/// Law: the holder-count command takes the coin from its first argument
/// and the chain from its second, falling back to the default chain when
/// there is none and failing when it is not a number.
pub proof fn law_holder_count_reads_its_arguments(args: Seq<Seq<char>>, default_chain: u64)
    ensures
        args.len() == 2 && (args[0] == "holder-count"@ || args[0] == "get-holder-count"@) ==> command_of(
            args,
            default_chain,
        ) == Ok::<CommandView, Seq<char>>(CommandView::HolderCount { address: args[1], chain: default_chain }),
        args.len() >= 3 && (args[0] == "holder-count"@ || args[0] == "get-holder-count"@) ==> command_of(
            args,
            default_chain,
        ) == match parsed_unsigned(args[2], u64::MAX as nat) {
            Some(n) => Ok::<CommandView, Seq<char>>(CommandView::HolderCount { address: args[1], chain: n as u64 }),
            None => Err::<CommandView, Seq<char>>(not_integer_text("chain"@)),
        },
{
    reveal_strlit("-h");
    reveal_strlit("--help");
    reveal_strlit("help");
    reveal_strlit("serve");
    reveal_strlit("server");
    reveal_strlit("monitor");
    reveal_strlit("query");
    reveal_strlit("ask");
    reveal_strlit("holder-count");
    reveal_strlit("get-holder-count");
    reveal_strlit("24h-volume");
    reveal_strlit("get-24h-volume");
    reveal_strlit("top-buyers");
    reveal_strlit("get-top-buyers");
    if args.len() >= 2 && (args[0] == "holder-count"@ || args[0] == "get-holder-count"@) {
        assert("-h"@.len() == 2);
        assert("-h"@[0] == '-');
        assert(args[0] != "-h"@);
        assert("--help"@.len() == 6);
        assert("--help"@[0] == '-');
        assert(args[0] != "--help"@);
        assert("help"@.len() == 4);
        assert("help"@[0] == 'h');
        assert(args[0] != "help"@);
        assert("serve"@.len() == 5);
        assert("serve"@[0] == 's');
        assert(args[0] != "serve"@);
        assert("server"@.len() == 6);
        assert("server"@[0] == 's');
        assert(args[0] != "server"@);
        assert("monitor"@.len() == 7);
        assert("monitor"@[0] == 'm');
        assert(args[0] != "monitor"@);
        assert("query"@.len() == 5);
        assert("query"@[0] == 'q');
        assert(args[0] != "query"@);
        assert("ask"@.len() == 3);
        assert("ask"@[0] == 'a');
        assert(args[0] != "ask"@);
        assert("24h-volume"@.len() == 10);
        assert("24h-volume"@[0] == '2');
        assert(args[0] != "24h-volume"@);
        assert("get-24h-volume"@.len() == 14);
        assert("get-24h-volume"@[0] == 'g');
        assert(args[0] != "get-24h-volume"@);
        let rest = args.skip(1);
        assert(rest[0] == args[1]);
        if args.len() >= 3 {
            assert(rest[1] == args[2]);
        }
        if args.len() >= 4 {
            assert(rest[2] == args[3]);
        }
    }
}

/// Law: the 24-hour volume command takes the coin from its first argument
/// and the chain from its second, falling back to the default chain when
/// there is none and failing when it is not a number.
pub proof fn law_volume_reads_its_arguments(args: Seq<Seq<char>>, default_chain: u64)
    ensures
        args.len() == 2 && (args[0] == "24h-volume"@ || args[0] == "get-24h-volume"@) ==> command_of(
            args,
            default_chain,
        ) == Ok::<CommandView, Seq<char>>(CommandView::Volume24h { address: args[1], chain: default_chain }),
        args.len() >= 3 && (args[0] == "24h-volume"@ || args[0] == "get-24h-volume"@) ==> command_of(
            args,
            default_chain,
        ) == match parsed_unsigned(args[2], u64::MAX as nat) {
            Some(n) => Ok::<CommandView, Seq<char>>(CommandView::Volume24h { address: args[1], chain: n as u64 }),
            None => Err::<CommandView, Seq<char>>(not_integer_text("chain"@)),
        },
{
    reveal_strlit("-h");
    reveal_strlit("--help");
    reveal_strlit("help");
    reveal_strlit("serve");
    reveal_strlit("server");
    reveal_strlit("monitor");
    reveal_strlit("query");
    reveal_strlit("ask");
    reveal_strlit("holder-count");
    reveal_strlit("get-holder-count");
    reveal_strlit("24h-volume");
    reveal_strlit("get-24h-volume");
    reveal_strlit("top-buyers");
    reveal_strlit("get-top-buyers");
    if args.len() >= 2 && (args[0] == "24h-volume"@ || args[0] == "get-24h-volume"@) {
        assert("-h"@.len() == 2);
        assert("-h"@[0] == '-');
        assert(args[0] != "-h"@);
        assert("--help"@.len() == 6);
        assert("--help"@[0] == '-');
        assert(args[0] != "--help"@);
        assert("help"@.len() == 4);
        assert("help"@[0] == 'h');
        assert(args[0] != "help"@);
        assert("serve"@.len() == 5);
        assert("serve"@[0] == 's');
        assert(args[0] != "serve"@);
        assert("server"@.len() == 6);
        assert("server"@[0] == 's');
        assert(args[0] != "server"@);
        assert("monitor"@.len() == 7);
        assert("monitor"@[0] == 'm');
        assert(args[0] != "monitor"@);
        assert("query"@.len() == 5);
        assert("query"@[0] == 'q');
        assert(args[0] != "query"@);
        assert("ask"@.len() == 3);
        assert("ask"@[0] == 'a');
        assert(args[0] != "ask"@);
        assert("holder-count"@.len() == 12);
        assert("holder-count"@[0] == 'h');
        assert(args[0] != "holder-count"@);
        assert("get-holder-count"@.len() == 16);
        assert("get-holder-count"@[0] == 'g');
        assert(args[0] != "get-holder-count"@);
        let rest = args.skip(1);
        assert(rest[0] == args[1]);
        if args.len() >= 3 {
            assert(rest[1] == args[2]);
        }
        if args.len() >= 4 {
            assert(rest[2] == args[3]);
        }
    }
}

/// Law: the top-buyers command takes the coin from its first argument, the
/// count from its second (ten by default) and the chain from its third
/// (the default chain when there is none); a count that is not a number
/// fails.
pub proof fn law_top_buyers_reads_its_arguments(args: Seq<Seq<char>>, default_chain: u64)
    ensures
        args.len() == 2 && (args[0] == "top-buyers"@ || args[0] == "get-top-buyers"@) ==> command_of(
            args,
            default_chain,
        ) == Ok::<CommandView, Seq<char>>(
            CommandView::TopBuyers { address: args[1], chain: default_chain, top_n: DEFAULT_CLI_TOP_N },
        ),
        args.len() >= 4 && (args[0] == "top-buyers"@ || args[0] == "get-top-buyers"@) && parsed_unsigned(
            args[2],
            u32::MAX as nat,
        ) is Some && parsed_unsigned(args[3], u64::MAX as nat) is Some ==> command_of(args, default_chain) == Ok::<
            CommandView,
            Seq<char>,
        >(
            CommandView::TopBuyers {
                address: args[1],
                chain: parsed_unsigned(args[3], u64::MAX as nat).unwrap() as u64,
                top_n: parsed_unsigned(args[2], u32::MAX as nat).unwrap() as u32,
            },
        ),
        args.len() >= 3 && (args[0] == "top-buyers"@ || args[0] == "get-top-buyers"@) && parsed_unsigned(
            args[2],
            u32::MAX as nat,
        ) is None ==> command_of(args, default_chain) == Err::<CommandView, Seq<char>>(
            not_integer_text("top_n"@),
        ),
{
    reveal_strlit("-h");
    reveal_strlit("--help");
    reveal_strlit("help");
    reveal_strlit("serve");
    reveal_strlit("server");
    reveal_strlit("monitor");
    reveal_strlit("query");
    reveal_strlit("ask");
    reveal_strlit("holder-count");
    reveal_strlit("get-holder-count");
    reveal_strlit("24h-volume");
    reveal_strlit("get-24h-volume");
    reveal_strlit("top-buyers");
    reveal_strlit("get-top-buyers");
    if args.len() >= 2 && (args[0] == "top-buyers"@ || args[0] == "get-top-buyers"@) {
        assert("-h"@.len() == 2);
        assert("-h"@[0] == '-');
        assert(args[0] != "-h"@);
        assert("--help"@.len() == 6);
        assert("--help"@[0] == '-');
        assert(args[0] != "--help"@);
        assert("help"@.len() == 4);
        assert("help"@[0] == 'h');
        assert(args[0] != "help"@);
        assert("serve"@.len() == 5);
        assert("serve"@[0] == 's');
        assert(args[0] != "serve"@);
        assert("server"@.len() == 6);
        assert("server"@[0] == 's');
        assert(args[0] != "server"@);
        assert("monitor"@.len() == 7);
        assert("monitor"@[0] == 'm');
        assert(args[0] != "monitor"@);
        assert("query"@.len() == 5);
        assert("query"@[0] == 'q');
        assert(args[0] != "query"@);
        assert("ask"@.len() == 3);
        assert("ask"@[0] == 'a');
        assert(args[0] != "ask"@);
        assert("holder-count"@.len() == 12);
        assert("holder-count"@[0] == 'h');
        assert(args[0] != "holder-count"@);
        assert("get-holder-count"@.len() == 16);
        assert("get-holder-count"@[0] == 'g');
        assert(args[0] != "get-holder-count"@);
        assert("24h-volume"@.len() == 10);
        assert("24h-volume"@[0] == '2');
        assert(args[0] != "24h-volume"@);
        assert("get-24h-volume"@.len() == 14);
        assert("get-24h-volume"@[4] == '2');
        assert("get-top-buyers"@[4] == 't');
        assert("top-buyers"@.len() == 10);
        assert(args[0] != "get-24h-volume"@);
        let rest = args.skip(1);
        assert(rest[0] == args[1]);
        if args.len() >= 3 {
            assert(rest[1] == args[2]);
        }
        if args.len() >= 4 {
            assert(rest[2] == args[3]);
        }
    }
}

} // verus!
