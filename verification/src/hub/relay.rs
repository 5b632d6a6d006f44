//! The front door: who may call, and how the outcome of a call is reported.
//!
//! The transport hands over what it read from a request and sends what these
//! functions return; looking up users and waiting for a runner happen in
//! between.

use vstd::prelude::*;
use crate::channel::sender_of;
use crate::hub::manager::{ClientManager, ClientManagerError, Ticket};
use crate::model::{CommandResult, CommandSpec};
use crate::text::{begins_with, join, remove_all, same_text, starts_with, without_all};

verus! {

/// The kinds of refusal the front door gives.
#[derive(Debug, Clone, Copy, PartialEq, Eq, Structural)]
pub enum Code {
    /// The caller did not present a credential that is known.
    Unauthenticated,
    /// The call cannot be served now: no runner, or none that answered.
    Unavailable,
    /// The operation does not exist.
    Unimplemented,
}

/// A refusal: its kind and a message for the caller.
#[derive(Debug, PartialEq, Eq)]
pub struct Status {
    pub code: Code,
    pub message: String,
}

/// The reply to an administrative call.
#[derive(Debug, PartialEq, Eq)]
pub struct GenericResponse {
    pub success: bool,
    pub error: String,
}

/// The reply to an automatic test submission.
#[derive(Debug, PartialEq, Eq)]
pub struct AutoTestSubmissionResponse {
    pub test_name: String,
    pub text_exit_code: i64,
    pub test_output: String,
}

/// The credential in an authorization header: what is left of a value that
/// begins with `Bearer ` once every `Bearer ` is taken out of it.
pub open spec fn bearer_of(header: Seq<char>) -> Option<Seq<char>> {
    if begins_with(header, "Bearer "@) {
        Some(without_all(header, "Bearer "@))
    } else {
        None
    }
}

/// The credential that an authorization header presents, if it presents one.
pub fn bearer_token(header: &str) -> (token: Option<String>)
    ensures
        match bearer_of(header@) {
            Some(text) => token.is_some() && token.unwrap()@ == text,
            None => token.is_none(),
        },
{
    if !starts_with(header, "Bearer ") {
        return None;
    }
    proof {
        reveal_strlit("Bearer ");
    }
    Some(remove_all(header, "Bearer "))
}

/// The authorization header that presents `token`.
pub fn bearer_header(token: &str) -> (header: String)
    ensures
        header@ == "Bearer "@ + token@,
{
    join("Bearer ", token)
}

/// The header made for a token presents that token, but for every `Bearer `
/// in the token itself.
pub proof fn lemma_header_presents_token(token: Seq<char>)
    ensures
        bearer_of("Bearer "@ + token) == Some(without_all(token, "Bearer "@)),
{
    let prefix = "Bearer "@;
    let header = prefix + token;
    reveal_strlit("Bearer ");
    assert(header.subrange(0, prefix.len() as int) =~= prefix);
    assert(header.skip(prefix.len() as int) =~= token);
}

/// Whether an authorization header presents the administrative secret.
/// `None` where it presents no credential at all.
pub fn is_admin(header: &str, secret: &str) -> (admin: Option<bool>)
    ensures
        admin == match bearer_of(header@) {
            Some(text) => Some(text == secret@),
            None => None,
        },
{
    match bearer_token(header) {
        Some(token) => Some(same_text(token.as_str(), secret)),
        None => None,
    }
}

/// The relay service.
#[derive(Debug, Default)]
pub struct Relay {}

impl Relay {
    /// Forwards a command for the caller who authenticated as `zid`.
    ///
    /// A caller who did not authenticate is refused as `Unauthenticated`. A
    /// caller for whom no runner is registered is refused as `Unavailable`
    /// with the message `NoRunner`, and nothing changes. With a runner
    /// registered, the call is refused only where the id drawn for the task is
    /// pending already, so never while no task is pending. Otherwise the task
    /// is filed under the id on the ticket, with the slot that the ticket's
    /// receiver waits on.
    pub fn command(
        &self,
        manager: &mut ClientManager,
        zid: Option<String>,
        request: CommandSpec,
    ) -> (r: Result<Ticket, Status>)
        ensures
            final(manager).peers@ == old(manager).peers@,
            zid.is_none() ==> (r matches Err(status) && status.code == Code::Unauthenticated
                && status.message@ == "You must be authenticated to use this service."@)
                && final(manager).tasks@ == old(manager).tasks@,
            zid.is_some() && !ClientManager::has_runner(old(manager).peers@, zid.unwrap()@) ==> (
            r matches Err(status) && status.code == Code::Unavailable && status.message@
                == "NoRunner"@) && final(manager).tasks@ == old(manager).tasks@,
            zid.is_some() && ClientManager::has_runner(old(manager).peers@, zid.unwrap()@)
                ==> match r {
                Ok(ticket) => {
                    &&& !old(manager).tasks@.dom().contains(ticket.task_id@)
                    &&& final(manager).tasks@ == old(manager).tasks@.insert(
                        ticket.task_id@,
                        sender_of(ticket.receiver),
                    )
                },
                Err(status) => status.code == Code::Unavailable && status.message@
                    == "DuplicateTask"@ && final(manager).tasks@ == old(manager).tasks@ && (
                exists|id: Seq<char>| old(manager).tasks@.dom().contains(id)),
            },
    {
        let zid = match zid {
            Some(zid) => zid,
            None => {
                return Err(
                    Status {
                        code: Code::Unauthenticated,
                        message: String::from_str(
                            "You must be authenticated to use this service.",
                        ),
                    },
                );
            },
        };
        match manager.forward_task(zid.as_str(), request) {
            Ok(ticket) => Ok(ticket),
            Err(ClientManagerError::NoRunner) => Err(
                Status { code: Code::Unavailable, message: String::from_str("NoRunner") },
            ),
            Err(ClientManagerError::DuplicateTask) => Err(
                Status { code: Code::Unavailable, message: String::from_str("DuplicateTask") },
            ),
        }
    }

    /// What the caller of a command gets once the wait on its ticket is over.
    /// `outcome` is `None` where the slot was dropped unfulfilled, and holds
    /// `None` where the runner's response carried no result: both are
    /// reported as `Unavailable`.
    pub fn command_reply(&self, outcome: Option<Option<CommandResult>>) -> (r: Result<
        CommandResult,
        Status,
    >)
        ensures
            match outcome {
                Some(Some(result)) => r == Ok::<CommandResult, Status>(result),
                _ => r matches Err(status) && status.code == Code::Unavailable
                    && status.message@ == "NoResult"@,
            },
    {
        match outcome {
            Some(Some(result)) => Ok(result),
            _ => Err(Status { code: Code::Unavailable, message: String::from_str("NoResult") }),
        }
    }

    /// Lets an administrative call pass only if the caller presented the
    /// administrative secret.
    pub fn validate_admin(&self, admin: Option<bool>) -> (r: Result<(), Status>)
        ensures
            admin == Some(true) ==> r.is_ok(),
            admin != Some(true) ==> (r matches Err(status) && status.code
                == Code::Unauthenticated && status.message@
                == "You must be authenticated as an admin to use this service."@),
    {
        match admin {
            Some(true) => Ok(()),
            _ => Err(
                Status {
                    code: Code::Unauthenticated,
                    message: String::from_str(
                        "You must be authenticated as an admin to use this service.",
                    ),
                },
            ),
        }
    }

    /// The reply to a request to store a user, given what the store said: the
    /// error text where it failed. A reply always has `success` set; a failure
    /// shows in `error`.
    pub fn upsert_user(&self, outcome: Result<(), String>) -> (reply: GenericResponse)
        ensures
            reply.success,
            reply.error@ == match outcome {
                Ok(_) => Seq::<char>::empty(),
                Err(why) => "failed to upsert user: "@ + why@,
            },
    {
        match outcome {
            Ok(_) => GenericResponse { success: true, error: String::new() },
            Err(why) => GenericResponse {
                success: true,
                error: join("failed to upsert user: ", why.as_str()),
            },
        }
    }

    /// The reply to a request to delete a user, given what the store said.
    pub fn delete_user(&self, outcome: Result<(), String>) -> (reply: GenericResponse)
        ensures
            reply.success,
            reply.error@ == match outcome {
                Ok(_) => Seq::<char>::empty(),
                Err(why) => "failed to delete user: "@ + why@,
            },
    {
        match outcome {
            Ok(_) => GenericResponse { success: true, error: String::new() },
            Err(why) => GenericResponse {
                success: true,
                error: join("failed to delete user: ", why.as_str()),
            },
        }
    }

    /// The reply to an automatic test submission: the service does not run
    /// tests.
    pub fn perform_auto_test(&self, test_name: String) -> (reply: AutoTestSubmissionResponse)
        ensures
            reply.test_name@ == test_name@,
            reply.text_exit_code == 1,
            reply.test_output@ == "This service has not been implemented."@,
    {
        AutoTestSubmissionResponse {
            test_name,
            text_exit_code: 1,
            test_output: String::from_str("This service has not been implemented."),
        }
    }

    /// The reply to a submission of work: the operation does not exist.
    pub fn submit_work(&self) -> (status: Status)
        ensures
            status.code == Code::Unimplemented,
            status.message@ == "not implemented"@,
    {
        Status { code: Code::Unimplemented, message: String::from_str("not implemented") }
    }
}

} // verus!
