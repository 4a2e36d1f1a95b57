//! The administrator's command line: which request a command makes, and what
//! it prints.

use vstd::prelude::*;
use vstd::string::*;

verus! {

/// A command that talks to a running daemon.
pub enum CliCommand {
    Status,
    IssueToken,
    IssuePeer { label: String },
    RevokePeer { peer_id: String },
    ListPeers,
    Seal { master_password: String },
}

/// The request that a command makes: its method, and its one parameter where
/// it has one.
pub struct CliRequest {
    pub method: &'static str,
    pub param: Option<(&'static str, String)>,
}

/// The method of a command.
pub open spec fn method_of(command: CliCommand) -> Seq<char> {
    match command {
        CliCommand::Status => "status"@,
        CliCommand::IssueToken => "admin_token_issue"@,
        CliCommand::IssuePeer { .. } => "admin_peer_issue"@,
        CliCommand::RevokePeer { .. } => "admin_peer_revoke"@,
        CliCommand::ListPeers => "admin_peer_list"@,
        CliCommand::Seal { .. } => "admin_seal"@,
    }
}

/// The parameter of a command.
pub open spec fn param_of(command: CliCommand) -> Option<(Seq<char>, Seq<char>)> {
    match command {
        CliCommand::IssuePeer { label } => Some(("label"@, label@)),
        CliCommand::RevokePeer { peer_id } => Some(("peer_id"@, peer_id@)),
        CliCommand::Seal { master_password } => Some(("master_password"@, master_password@)),
        _ => None,
    }
}

/// The request that a command makes.
pub fn cli_request(command: &CliCommand) -> (r: CliRequest)
    ensures
        r.method@ == method_of(*command),
        match r.param {
            Some((name, value)) => param_of(*command) == Some((name@, value@)),
            None => param_of(*command) is None,
        },
{
    match command {
        CliCommand::Status => CliRequest { method: "status", param: None },
        CliCommand::IssueToken => CliRequest { method: "admin_token_issue", param: None },
        CliCommand::IssuePeer { label } => CliRequest {
            method: "admin_peer_issue",
            param: Some(("label", label.clone())),
        },
        CliCommand::RevokePeer { peer_id } => CliRequest {
            method: "admin_peer_revoke",
            param: Some(("peer_id", peer_id.clone())),
        },
        CliCommand::ListPeers => CliRequest { method: "admin_peer_list", param: None },
        CliCommand::Seal { master_password } => CliRequest {
            method: "admin_seal",
            param: Some(("master_password", master_password.clone())),
        },
    }
}

/// What came back: the response as JSON, the message of its error, its result
/// as JSON, and the texts of the result that commands look at.
pub struct CliReply {
    pub response: String,
    pub error: Option<String>,
    pub result: Option<String>,
    pub token: Option<String>,
    pub peer_id: Option<String>,
}

/// What a command prints: a line on the standard output, and one on the error
/// output.
pub struct CliOutput {
    pub stdout: Option<String>,
    pub stderr: Option<String>,
}

/// What a command prints, or why it failed.
pub open spec fn output_of(command: CliCommand, reply: CliReply) -> Result<
    (Option<Seq<char>>, Option<Seq<char>>),
    Seq<char>,
> {
    match reply.error {
        Some(m) => Err(m@),
        None => match command {
            CliCommand::Status => Ok((Some(reply.response@), None)),
            CliCommand::IssueToken => match reply.token {
                Some(token) => Ok((Some(token@), None)),
                None => Err("admin_token_issue returned no token"@),
            },
            CliCommand::IssuePeer { .. } => match (reply.result, reply.token, reply.peer_id) {
                (None, _, _) => Err("admin_peer_issue returned no result"@),
                (Some(_), None, _) => Err("admin_peer_issue returned no token"@),
                (Some(_), Some(_), None) => Err("admin_peer_issue returned no peer_id"@),
                (Some(_), Some(token), Some(peer_id)) => Ok((Some(token@), Some(peer_id@))),
            },
            CliCommand::ListPeers => match reply.result {
                Some(result) => Ok((Some(result@), None)),
                None => Err("admin_peer_list returned no result"@),
            },
            CliCommand::RevokePeer { .. } => Ok((None, None)),
            CliCommand::Seal { .. } => Ok((None, None)),
        },
    }
}

/// What a command prints, or why it failed. A token goes to the standard
/// output alone, so that it can be sent into a file.
pub fn cli_output(command: &CliCommand, reply: CliReply) -> (r: Result<CliOutput, String>)
    ensures
        match output_of(*command, reply) {
            Ok((stdout, stderr)) => r matches Ok(output) && crate::text::opt_text(output.stdout)
                == stdout && crate::text::opt_text(output.stderr) == stderr,
            Err(m) => r matches Err(e) && e@ == m,
        },
{
    match reply.error {
        Some(m) => {
            return Err(m);
        },
        None => {},
    }
    match command {
        CliCommand::Status => Ok(CliOutput { stdout: Some(reply.response), stderr: None }),
        CliCommand::IssueToken => match reply.token {
            Some(token) => Ok(CliOutput { stdout: Some(token), stderr: None }),
            None => Err("admin_token_issue returned no token".to_owned()),
        },
        CliCommand::IssuePeer { .. } => {
            if reply.result.is_none() {
                return Err("admin_peer_issue returned no result".to_owned());
            }
            match (reply.token, reply.peer_id) {
                (None, _) => Err("admin_peer_issue returned no token".to_owned()),
                (Some(_), None) => Err("admin_peer_issue returned no peer_id".to_owned()),
                (Some(token), Some(peer_id)) => Ok(
                    CliOutput { stdout: Some(token), stderr: Some(peer_id) },
                ),
            }
        },
        CliCommand::ListPeers => match reply.result {
            Some(result) => Ok(CliOutput { stdout: Some(result), stderr: None }),
            None => Err("admin_peer_list returned no result".to_owned()),
        },
        CliCommand::RevokePeer { .. } => Ok(CliOutput { stdout: None, stderr: None }),
        CliCommand::Seal { .. } => Ok(CliOutput { stdout: None, stderr: None }),
    }
}

/// Every command but the status needs the administrative requests.
pub proof fn law_commands_are_administrative(command: CliCommand)
    ensures
        !(command is Status) <==> "admin_"@.is_prefix_of(method_of(command)),
{
    reveal_strlit("admin_");
    reveal_strlit("status");
    reveal_strlit("admin_token_issue");
    reveal_strlit("admin_peer_issue");
    reveal_strlit("admin_peer_revoke");
    reveal_strlit("admin_peer_list");
    reveal_strlit("admin_seal");
    let m = method_of(command);
    if command is Status {
        assert("admin_"@[0] != m[0]);
    } else {
        assert(m.subrange(0, 6) =~= "admin_"@);
    }
}

/// Each command makes its own request, with the one text that it was given.
pub proof fn law_commands_make_their_requests(command: &CliCommand, request: CliRequest)
    requires
        call_ensures(cli_request, (command,), request),
    ensures
        *command is Status ==> request.method@ == "status"@ && request.param is None,
        *command is IssueToken ==> request.method@ == "admin_token_issue"@ && request.param is None,
        *command is ListPeers ==> request.method@ == "admin_peer_list"@ && request.param is None,
        *command matches CliCommand::IssuePeer { label } ==> request.method@ == "admin_peer_issue"@
            && request.param is Some && (request.param->0).0@ == "label"@ && (request.param->0).1@
            == label@,
        *command matches CliCommand::RevokePeer { peer_id } ==> request.method@
            == "admin_peer_revoke"@ && request.param is Some && (request.param->0).0@ == "peer_id"@
            && (request.param->0).1@ == peer_id@,
        *command matches CliCommand::Seal { master_password } ==> request.method@ == "admin_seal"@
            && request.param is Some && (request.param->0).0@ == "master_password"@
            && (request.param->0).1@ == master_password@,
{
}

/// A command that failed prints nothing and says why. One that made a token
/// prints the token alone; the id of a peer goes to the error output.
pub proof fn law_replies_are_printed(
    command: &CliCommand,
    reply: CliReply,
    printed: Result<CliOutput, String>,
)
    requires
        call_ensures(cli_output, (command, reply), printed),
    ensures
        reply.error matches Some(m) ==> (printed matches Err(e) && e@ == m@),
        reply.error is None ==> {
            &&& *command is Status ==> (printed matches Ok(o) && o.stdout is Some && o.stdout->0@
                == reply.response@ && o.stderr is None)
            &&& *command is IssueToken && reply.token is Some ==> (printed matches Ok(o)
                && o.stdout is Some && o.stdout->0@ == reply.token->0@ && o.stderr is None)
            &&& *command is IssueToken && reply.token is None ==> printed is Err
            &&& *command is IssuePeer && reply.result is Some && reply.token is Some
                && reply.peer_id is Some ==> (printed matches Ok(o) && o.stdout is Some
                && o.stdout->0@ == reply.token->0@ && o.stderr is Some && o.stderr->0@
                == reply.peer_id->0@)
            &&& *command is IssuePeer && (reply.result is None || reply.token is None
                || reply.peer_id is None) ==> printed is Err
            &&& *command is ListPeers && reply.result is Some ==> (printed matches Ok(o)
                && o.stdout is Some && o.stdout->0@ == reply.result->0@ && o.stderr is None)
            &&& *command is ListPeers && reply.result is None ==> printed is Err
            &&& *command is RevokePeer || *command is Seal ==> (printed matches Ok(o)
                && o.stdout is None && o.stderr is None)
        },
{
}

} // verus!
