//! The user-facing client's command line: parsing the argument list into a
//! command, and building the memos the client sends.
use vstd::prelude::*;
use crate::strutil::{has_prefix, join_with, str_eq};

verus! {

/// A command of the user client.
#[derive(Debug)]
pub enum UserCommand {
    Connect { coordinator: String },
    Register { coordinator: String, reply_address: String },
    Auth { coordinator: String, challenge: String, signature: String },
    Command { coordinator: String, memo: String },
    Poll,
}

/// The usage text shown for a missing or unknown command.
pub open spec fn usage_text() -> Seq<char> {
    "ZatBoard User CLI\n\nCommands:\n  zatboard connect <coordinator_address>\n  zatboard register <coordinator_address> <reply_address>\n  zatboard auth <coordinator_address> <challenge> <signature>\n  zatboard command <coordinator_address> <memo_command>\n  zatboard poll\n\nEnvironment:\n  ZATBOARD_DATA_DIR  default ./client_data\n  ZATBOARD_SERVER    default http://127.0.0.1:9067"@
}

pub fn usage() -> (r: &'static str)
    ensures
        r@ == usage_text(),
{
    "ZatBoard User CLI\n\nCommands:\n  zatboard connect <coordinator_address>\n  zatboard register <coordinator_address> <reply_address>\n  zatboard auth <coordinator_address> <challenge> <signature>\n  zatboard command <coordinator_address> <memo_command>\n  zatboard poll\n\nEnvironment:\n  ZATBOARD_DATA_DIR  default ./client_data\n  ZATBOARD_SERVER    default http://127.0.0.1:9067"
}

/// What `parse_cli` yields for every argument list (the first argument is
/// the program name).
pub open spec fn parse_cli_post(args: Seq<Seq<char>>, r: Result<UserCommand, String>) -> bool {
    let n = args.len();
    if n < 2 {
        r matches Err(e) && e@ == usage_text()
    } else if args[1] == "connect"@ {
        if n != 3 {
            r matches Err(e) && e@ == "Usage: zatboard connect <coordinator_address>"@
        } else {
            r matches Ok(UserCommand::Connect { coordinator }) && coordinator@ == args[2]
        }
    } else if args[1] == "register"@ {
        if n != 4 {
            r matches Err(e) && e@ == "Usage: zatboard register <coordinator_address> <reply_address>"@
        } else {
            r matches Ok(UserCommand::Register { coordinator, reply_address }) && coordinator@
                == args[2] && reply_address@ == args[3]
        }
    } else if args[1] == "auth"@ {
        if n != 5 {
            r matches Err(e) && e@
                == "Usage: zatboard auth <coordinator_address> <challenge> <signature>"@
        } else {
            r matches Ok(UserCommand::Auth { coordinator, challenge, signature }) && coordinator@
                == args[2] && challenge@ == args[3] && signature@ == args[4]
        }
    } else if args[1] == "command"@ {
        if n < 4 {
            r matches Err(e) && e@ == "Usage: zatboard command <coordinator_address> <memo_command>"@
        } else {
            r matches Ok(UserCommand::Command { coordinator, memo }) && coordinator@ == args[2]
                && memo@ == join_with(args.skip(3), " "@)
        }
    } else if args[1] == "poll"@ {
        if n != 2 {
            r matches Err(e) && e@ == "Usage: zatboard poll"@
        } else {
            r matches Ok(UserCommand::Poll)
        }
    } else {
        r matches Err(e) && e@ == usage_text()
    }
}

/// Parses the argument list of the user client.
pub fn parse_cli(args: &[String]) -> (r: Result<UserCommand, String>)
    ensures
        parse_cli_post(args.deep_view(), r),
{
    proof {
        assert(forall|i: int|
            0 <= i < args@.len() ==> args.deep_view()[i] == (#[trigger] args@[i])@);
    }
    if args.len() < 2 {
        return Err(usage().to_owned());
    }
    if str_eq(args[1].as_str(), "connect") {
        if args.len() != 3 {
            return Err("Usage: zatboard connect <coordinator_address>".to_owned());
        }
        return Ok(UserCommand::Connect { coordinator: args[2].clone() });
    }
    if str_eq(args[1].as_str(), "register") {
        if args.len() != 4 {
            return Err("Usage: zatboard register <coordinator_address> <reply_address>".to_owned());
        }
        return Ok(UserCommand::Register {
            coordinator: args[2].clone(),
            reply_address: args[3].clone(),
        });
    }
    if str_eq(args[1].as_str(), "auth") {
        if args.len() != 5 {
            return Err(
                "Usage: zatboard auth <coordinator_address> <challenge> <signature>".to_owned(),
            );
        }
        return Ok(UserCommand::Auth {
            coordinator: args[2].clone(),
            challenge: args[3].clone(),
            signature: args[4].clone(),
        });
    }
    if str_eq(args[1].as_str(), "command") {
        if args.len() < 4 {
            return Err("Usage: zatboard command <coordinator_address> <memo_command>".to_owned());
        }
        let mut rest: Vec<String> = Vec::new();
        let mut i: usize = 3;
        while i < args.len()
            invariant
                3 <= i <= args@.len(),
                rest.deep_view() == args.deep_view().subrange(3, i as int),
            decreases args@.len() - i,
        {
            let ghost pre = rest.deep_view();
            rest.push(args[i].clone());
            proof {
                assert(rest.deep_view() =~= pre.push(args.deep_view()[i as int]));
                assert(rest.deep_view() =~= args.deep_view().subrange(3, i + 1));
            }
            i += 1;
        }
        let memo = crate::strutil::join_strings(&rest, " ");
        proof {
            assert(args.deep_view().subrange(3, args@.len() as int) =~= args.deep_view().skip(3));
        }
        return Ok(UserCommand::Command { coordinator: args[2].clone(), memo });
    }
    if str_eq(args[1].as_str(), "poll") {
        if args.len() != 2 {
            return Err("Usage: zatboard poll".to_owned());
        }
        return Ok(UserCommand::Poll);
    }
    Err(usage().to_owned())
}

/// The memo a REGISTER sends: the prefix and the reply identity.
pub fn build_register_memo(reply_address: &str) -> (r: String)
    ensures
        r@ == "REGISTER:"@ + reply_address@,
        has_prefix(r@, "REGISTER:"@),
{
    let m = "REGISTER:".to_owned();
    let r = m.concat(reply_address);
    proof {
        assert(("REGISTER:")@.is_prefix_of(r@)) by {
            assert(r@.subrange(0, ("REGISTER:")@.len() as int) =~= ("REGISTER:")@);
        }
    }
    r
}

/// The memo an AUTH sends: the prefix and the signed challenge.
pub fn build_auth_memo(challenge: &str) -> (r: String)
    ensures
        r@ == "AUTH:"@ + challenge@,
        has_prefix(r@, "AUTH:"@),
{
    let m = "AUTH:".to_owned();
    let r = m.concat(challenge);
    proof {
        assert(("AUTH:")@.is_prefix_of(r@)) by {
            assert(r@.subrange(0, ("AUTH:")@.len() as int) =~= ("AUTH:")@);
        }
    }
    r
}

} // verus!
