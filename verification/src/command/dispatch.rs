//! What the command line asks for.
use crate::text::{find_part, has_part, same_text};
use vstd::prelude::*;
use vstd::string::*;

verus! {

/// What to do.
#[derive(Clone, Debug, PartialEq, Eq)]
pub enum Command {
    Help,
    Version,
    /// Mine, with the arguments that follow.
    Mine(Vec<String>),
    /// A command of the node, with the arguments that follow.
    Node(Vec<String>),
}

/// What to do with a node.
#[derive(Clone, Debug, PartialEq, Eq)]
pub enum NodeCommand {
    /// Create a database for a miner; the miner is named by a text, if at all.
    Init { path: String, miner: Option<String> },
    /// Run, with the arguments that follow.
    Run(Vec<String>),
    /// A command on the database, with the arguments that follow.
    Db(Vec<String>),
    /// Write a configuration file.
    Config { path: String },
    Info,
}

/// The arguments behind the first.
pub fn rest_of(args: &Vec<String>) -> (r: Vec<String>)
    ensures
        args@.len() == 0 ==> r@.len() == 0,
        args@.len() > 0 ==> r@ == args@.skip(1),
{
    let mut rest: Vec<String> = Vec::new();
    let mut i: usize = 1;
    while i < args.len()
        invariant
            1 <= i,
            args@.len() > 0 ==> i <= args@.len(),
            args@.len() == 0 ==> rest@.len() == 0 && i == 1,
            args@.len() > 0 ==> rest@ =~= args@.subrange(1, i as int),
        decreases args@.len() - i,
    {
        rest.push(args[i].clone());
        i = i + 1;
    }
    proof {
        if args@.len() > 0 {
            assert(args@.subrange(1, args@.len() as int) =~= args@.skip(1));
        }
    }
    rest
}

/// A text asks for help.
pub open spec fn asks_for_help(text: Seq<char>) -> bool {
    text == "-h"@ || text == "--help"@ || text == "help"@
}

/// A text asks for the version.
pub open spec fn asks_for_version(text: Seq<char>) -> bool {
    text == "-V"@ || text == "--version"@ || text == "version"@
}

/// Reads the command line.
pub fn run(args: &Vec<String>) -> (r: Result<Command, String>)
    ensures
        args@.len() == 0 ==> r == Ok::<Command, String>(Command::Help),
        args@.len() > 0 ==> {
            let first = args@[0]@;
            if asks_for_help(first) {
                r == Ok::<Command, String>(Command::Help)
            } else if asks_for_version(first) {
                r == Ok::<Command, String>(Command::Version)
            } else if first == "mine"@ {
                r matches Ok(Command::Mine(rest)) && rest@ == args@.skip(1)
            } else if first == "node"@ {
                r matches Ok(Command::Node(rest)) && rest@ == args@.skip(1)
            } else {
                r is Err && r->Err_0@ == "unknown command `"@ + first
                    + "`. Try `paqusd --help`."@
            }
        },
{
    if args.len() == 0 {
        return Ok(Command::Help);
    }
    let first = args[0].as_str();
    if same_text(first, "-h") || same_text(first, "--help") || same_text(first, "help") {
        return Ok(Command::Help);
    }
    if same_text(first, "-V") || same_text(first, "--version") || same_text(first, "version") {
        return Ok(Command::Version);
    }
    if same_text(first, "mine") {
        return Ok(Command::Mine(rest_of(args)));
    }
    if same_text(first, "node") {
        return Ok(Command::Node(rest_of(args)));
    }
    let mut text = String::from_str("unknown command `");
    text.append(first);
    text.append("`. Try `paqusd --help`.");
    Err(text)
}

/// The arguments of a run that names none: with a wallet at hand, mine for it.
pub fn default_run_args(wallet_path: Option<String>) -> (r: Vec<String>)
    ensures
        match wallet_path {
            None => r@.len() == 2 && r@[0]@ == "node"@ && r@[1]@ == "run"@,
            Some(path) => r@.len() == 5 && r@[0]@ == "node"@ && r@[1]@ == "run"@ && r@[2]@
                == "--wallet"@ && r@[3] == path && r@[4]@ == "--mine"@,
        },
{
    let mut args: Vec<String> = Vec::new();
    args.push(String::from_str("node"));
    args.push(String::from_str("run"));
    match wallet_path {
        Some(path) => {
            args.push(String::from_str("--wallet"));
            args.push(path);
            args.push(String::from_str("--mine"));
        },
        None => {},
    }
    args
}

/// The arguments of a run that mines: the wallet and the database are named, or the standard ones.
pub fn run_mine_shortcut(args: &Vec<String>, default_wallet: Option<String>) -> (r: Result<
    Vec<String>,
    String,
>)
    ensures
        args@.len() == 0 && default_wallet is None ==> r is Err && r->Err_0@
            == "mining wallet not found; create one with `cd ../wallet-cli && cargo run -- new ../wallet.json`"@,
        args@.len() > 0 || default_wallet is Some ==> {
            &&& r is Ok
            &&& r->Ok_0@.len() == 4
            &&& r->Ok_0@[0]@ == (if args@.len() > 1 {
                args@[1]@
            } else {
                "./data/paqus"@
            })
            &&& r->Ok_0@[1]@ == "--wallet"@
            &&& r->Ok_0@[2]@ == (if args@.len() > 0 {
                args@[0]@
            } else {
                default_wallet->Some_0@
            })
            &&& r->Ok_0@[3]@ == "--mine"@
        },
{
    let wallet_path = if args.len() > 0 {
        args[0].clone()
    } else {
        match default_wallet {
            Some(path) => path,
            None => {
                return Err(
                    String::from_str(
                        "mining wallet not found; create one with `cd ../wallet-cli && cargo run -- new ../wallet.json`",
                    ),
                );
            },
        }
    };
    let db_path = if args.len() > 1 {
        args[1].clone()
    } else {
        String::from_str("./data/paqus")
    };
    let mut run_args: Vec<String> = Vec::new();
    run_args.push(db_path);
    run_args.push(String::from_str("--wallet"));
    run_args.push(wallet_path);
    run_args.push(String::from_str("--mine"));
    Ok(run_args)
}

/// The argument at a position, or another text.
pub open spec fn arg_or(args: Seq<String>, i: int, other: Seq<char>) -> Seq<char> {
    if i < args.len() {
        args[i]@
    } else {
        other
    }
}

/// Reads a command of the node.
pub fn node_command(args: &Vec<String>) -> (r: Result<NodeCommand, String>)
    ensures
        args@.len() > 0 && args@[0]@ == "init"@ ==> if args@.len() > 3 {
            r is Err && r->Err_0@
                == "premine address is fixed by protocol and cannot be overridden"@
        } else {
            r matches Ok(NodeCommand::Init { path, miner }) && path@ == arg_or(
                args@,
                1,
                "./data/paqus"@,
            ) && (if args@.len() > 2 {
                miner is Some && miner->Some_0@ == args@[2]@
            } else {
                miner is None
            })
        },
        args@.len() > 0 && args@[0]@ == "run"@ ==> (r matches Ok(NodeCommand::Run(rest)) && rest@
            == args@.skip(1)),
        args@.len() > 0 && args@[0]@ == "db"@ ==> (r matches Ok(NodeCommand::Db(rest)) && rest@
            == args@.skip(1)),
        args@.len() > 0 && args@[0]@ == "config"@ ==> (r matches Ok(NodeCommand::Config { path })
            && path@ == arg_or(args@, 1, "./data/paqus/node.json"@)),
        args@.len() > 0 && args@[0]@ == "info"@ ==> r == Ok::<NodeCommand, String>(
            NodeCommand::Info,
        ),
        args@.len() == 0 || (args@[0]@ != "init"@ && args@[0]@ != "run"@ && args@[0]@ != "db"@
            && args@[0]@ != "config"@ && args@[0]@ != "info"@) ==> r is Err && r->Err_0@
            == "usage: paqus node <info|init|config|run|db> [options]"@,
{
    proof {
        reveal_strlit("init");
        reveal_strlit("run");
        reveal_strlit("db");
        reveal_strlit("config");
        reveal_strlit("info");
    }
    if args.len() == 0 {
        return Err(String::from_str("usage: paqus node <info|init|config|run|db> [options]"));
    }
    let first = args[0].as_str();
    proof {
        assert("init"@[2] == 'i' && "info"@[2] == 'f');
        assert("init"@.len() == 4 && "run"@.len() == 3 && "db"@.len() == 2);
        assert("config"@.len() == 6 && "info"@.len() == 4);
    }
    if same_text(first, "init") {
        if args.len() > 3 {
            return Err(
                String::from_str("premine address is fixed by protocol and cannot be overridden"),
            );
        }
        let path = if args.len() > 1 {
            args[1].clone()
        } else {
            String::from_str("./data/paqus")
        };
        let miner = if args.len() > 2 {
            Some(args[2].clone())
        } else {
            None
        };
        return Ok(NodeCommand::Init { path, miner });
    }
    if same_text(first, "run") {
        return Ok(NodeCommand::Run(rest_of(args)));
    }
    if same_text(first, "db") {
        return Ok(NodeCommand::Db(rest_of(args)));
    }
    if same_text(first, "config") {
        let path = if args.len() > 1 {
            args[1].clone()
        } else {
            String::from_str("./data/paqus/node.json")
        };
        return Ok(NodeCommand::Config { path });
    }
    if same_text(first, "info") {
        return Ok(NodeCommand::Info);
    }
    Err(String::from_str("usage: paqus node <info|init|config|run|db> [options]"))
}

/// What is said when a database cannot be opened.
pub open spec fn open_failure_text(path: Seq<char>, error: Seq<char>) -> Seq<char> {
    if has_part(error, "stored block failed validation"@) {
        "failed to open node storage: "@ + error
            + ". Existing data was created under a different protocol/genesis identity; reset this local node database with `rm -rf "@
            + path + "`"@
    } else {
        "failed to open node storage: "@ + error
    }
}

/// What is said when a database cannot be opened; data of another chain comes with advice.
pub fn open_failure(path: &str, error: &str) -> (r: String)
    ensures
        r@ == open_failure_text(path@, error@),
{
    let mut text = String::from_str("failed to open node storage: ");
    text.append(error);
    match find_part(error, "stored block failed validation") {
        Some(at) => {
            assert(crate::text::occurs_at(error@, "stored block failed validation"@, at as int));
            text.append(
                ". Existing data was created under a different protocol/genesis identity; reset this local node database with `rm -rf ",
            );
            text.append(path);
            text.append("`");
        },
        None => {},
    }
    text
}

} // verus!
