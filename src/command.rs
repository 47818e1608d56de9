use vstd::prelude::*;
use vstd::string::*;

verus! {

/// The port a receiver listens on.
pub const RECEIVE_PORT: u16 = 3333;

/// What the command line asks for.
#[derive(Debug, PartialEq, Eq)]
pub enum Command {
    /// No command given: show the usage text and stop with success.
    Usage,
    /// `--help`: show the usage text and stop with failure.
    Help,
    /// `send ADDRESS FILE`: send `path` to the receiver at `address`.
    Send { address: String, path: String },
    /// `rec [-o DIR]`: receive one file, into `output_dir` where given,
    /// else into the working directory.
    Receive { output_dir: Option<String> },
}

/// Why a command line was refused.
#[derive(Clone, Copy, Debug, PartialEq, Eq, Structural)]
pub enum ArgError {
    /// `send` without an address.
    MissingAddress,
    /// `send ADDRESS` without a file.
    MissingFile,
    /// `rec -o` without a directory.
    MissingOutputDir,
    /// A command other than `send`, `rec` and `--help`.
    UnknownCommand,
}

/// Reads the command line `args`, whose first entry is the program name.
pub fn parse_args(args: &Vec<String>) -> (r: Result<Command, ArgError>)
    ensures
        args@.len() < 2 ==> r matches Ok(Command::Usage),
        args@.len() >= 2 && args@[1]@ == "send"@ ==> {
            if args@.len() < 3 {
                r matches Err(ArgError::MissingAddress)
            } else if args@.len() < 4 {
                r matches Err(ArgError::MissingFile)
            } else {
                r matches Ok(Command::Send { address, path }) && address@ == args@[2]@ && path@
                    == args@[3]@
            }
        },
        args@.len() >= 2 && args@[1]@ == "rec"@ ==> {
            if args@.len() >= 3 && args@[2]@ == "-o"@ {
                if args@.len() < 4 {
                    r matches Err(ArgError::MissingOutputDir)
                } else {
                    r matches Ok(Command::Receive { output_dir: Some(dir) }) && dir@ == args@[3]@
                }
            } else {
                r matches Ok(Command::Receive { output_dir: None })
            }
        },
        args@.len() >= 2 && args@[1]@ == "--help"@ ==> r matches Ok(Command::Help),
        args@.len() >= 2 && args@[1]@ != "send"@ && args@[1]@ != "rec"@ && args@[1]@
            != "--help"@ ==> r matches Err(ArgError::UnknownCommand),
{
    proof {
        reveal_strlit("send");
        reveal_strlit("rec");
        reveal_strlit("--help");
        reveal_strlit("-o");
        assert("send"@.len() == 4 && "rec"@.len() == 3 && "--help"@.len() == 6);
    }
    if args.len() < 2 {
        return Ok(Command::Usage);
    }
    let send = String::from_str("send");
    let rec = String::from_str("rec");
    let help = String::from_str("--help");
    if args[1] == send {
        if args.len() < 3 {
            return Err(ArgError::MissingAddress);
        }
        if args.len() < 4 {
            return Err(ArgError::MissingFile);
        }
        Ok(Command::Send { address: args[2].clone(), path: args[3].clone() })
    } else if args[1] == rec {
        let flag = String::from_str("-o");
        if args.len() >= 3 && args[2] == flag {
            if args.len() < 4 {
                return Err(ArgError::MissingOutputDir);
            }
            Ok(Command::Receive { output_dir: Some(args[3].clone()) })
        } else {
            Ok(Command::Receive { output_dir: None })
        }
    } else if args[1] == help {
        Ok(Command::Help)
    } else {
        Err(ArgError::UnknownCommand)
    }
}

} // verus!
