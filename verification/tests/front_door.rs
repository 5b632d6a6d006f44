use futures::channel::mpsc::unbounded;
use vlab_relay::hub::manager::{ClientManager, Reaction, User};
use vlab_relay::hub::relay::{
    bearer_header, bearer_token, is_admin, Code, GenericResponse, Relay, Status,
};
use vlab_relay::model::{CommandResult, CommandSpec, Identity};
use vlab_relay::text::{join, same_text, starts_with};

fn ls() -> CommandSpec {
    CommandSpec { executable: "ls".to_string(), arguments: vec![], working_tree: None }
}

#[test]
fn same_text_compares_by_content() {
    assert!(same_text("", ""));
    assert!(same_text("alice", "alice"));
    assert!(!same_text("alice", "alicE"));
    assert!(!same_text("alice", "alic"));
    assert!(!same_text("", "a"));
    assert!(same_text("données", "données"));
    assert!(!same_text("donnees", "données"));
}

#[test]
fn join_puts_one_text_after_the_other() {
    assert_eq!(join("ws://", "host"), "ws://host");
    assert_eq!(join("", ""), "");
    assert_eq!(join("é", "ü"), "éü");
}

#[test]
fn starts_with_looks_at_the_front() {
    assert!(starts_with("Bearer abc", "Bearer "));
    assert!(starts_with("Bearer ", "Bearer "));
    assert!(starts_with("anything", ""));
    assert!(!starts_with("Bearer", "Bearer "));
    assert!(!starts_with("bearer abc", "Bearer "));
    assert!(!starts_with(" Bearer abc", "Bearer "));
    assert!(starts_with("éa", "é"));
}

#[test]
fn bearer_token_reads_the_credential() {
    assert_eq!(bearer_token("Bearer secret1"), Some("secret1".to_string()));
    assert_eq!(bearer_token("Bearer "), Some(String::new()));
    assert_eq!(bearer_token("Bearer x Bearer y"), Some("x y".to_string()));
    assert_eq!(bearer_token("Bearer Bearer Bearer"), Some("Bearer".to_string()));
    assert_eq!(bearer_token("Bearer BeBearer arer "), Some("Bearer ".to_string()));
    assert_eq!(bearer_token("Bearer  x"), Some(" x".to_string()));
    assert_eq!(bearer_token("Basic secret1"), None);
    assert_eq!(bearer_token("bearer secret1"), None);
    assert_eq!(bearer_token("secret1"), None);
    assert_eq!(bearer_token(""), None);
}

#[test]
fn is_admin_compares_with_the_secret() {
    assert_eq!(is_admin("Bearer root-secret", "root-secret"), Some(true));
    assert_eq!(is_admin("Bearer other", "root-secret"), Some(false));
    assert_eq!(is_admin("Bearer ", "root-secret"), Some(false));
    assert_eq!(is_admin("root-secret", "root-secret"), None);
}

#[test]
fn a_caller_without_identity_is_unauthenticated() {
    let mut manager = ClientManager::new();
    let refused = Relay::default().command(&mut manager, None, ls());
    assert_eq!(
        refused.err(),
        Some(Status {
            code: Code::Unauthenticated,
            message: "You must be authenticated to use this service.".to_string(),
        })
    );
}

#[test]
fn a_caller_without_runner_is_told_no_runner() {
    let mut manager = ClientManager::new();
    let refused = Relay::default().command(&mut manager, Some("bob".to_string()), ls());
    assert_eq!(
        refused.err(),
        Some(Status { code: Code::Unavailable, message: "NoRunner".to_string() })
    );
    assert_eq!(manager.tasks.len(), 0);
}

#[test]
fn a_caller_with_a_runner_gets_a_ticket() {
    let mut manager = ClientManager::new();
    let (tx, _rx) = unbounded();
    manager.accept(1, tx);
    let who = Identity { handle: "alice".to_string(), credential: "secret1".to_string() };
    let record = User { zid: "alice".to_string(), token: "secret1".to_string() };
    assert_eq!(manager.handle_registration(1, who, Some(record)), Reaction::Registered);
    let ticket = Relay::default().command(&mut manager, Some("alice".to_string()), ls()).unwrap();
    assert!(ticket.sent);
    assert!(manager.tasks.is_pending(&ticket.task_id));
}

#[test]
fn the_reply_to_a_command_is_its_result() {
    let relay = Relay::default();
    let result = CommandResult { combined_output: "hi\n".to_string(), exit_code: 0 };
    assert_eq!(
        relay.command_reply(Some(Some(result))),
        Ok(CommandResult { combined_output: "hi\n".to_string(), exit_code: 0 })
    );
    let missing = Status { code: Code::Unavailable, message: "NoResult".to_string() };
    assert_eq!(relay.command_reply(Some(None)).err(), Some(missing));
    let missing = Status { code: Code::Unavailable, message: "NoResult".to_string() };
    assert_eq!(relay.command_reply(None).err(), Some(missing));
}

#[test]
fn only_the_admin_passes() {
    let relay = Relay::default();
    assert_eq!(relay.validate_admin(Some(true)), Ok(()));
    for admin in [Some(false), None] {
        assert_eq!(
            relay.validate_admin(admin),
            Err(Status {
                code: Code::Unauthenticated,
                message: "You must be authenticated as an admin to use this service.".to_string(),
            })
        );
    }
}

#[test]
fn administrative_replies_carry_the_error_text() {
    let relay = Relay::default();
    assert_eq!(
        relay.upsert_user(Ok(())),
        GenericResponse { success: true, error: String::new() }
    );
    assert_eq!(
        relay.upsert_user(Err("timeout".to_string())),
        GenericResponse { success: true, error: "failed to upsert user: timeout".to_string() }
    );
    assert_eq!(
        relay.delete_user(Ok(())),
        GenericResponse { success: true, error: String::new() }
    );
    assert_eq!(
        relay.delete_user(Err("timeout".to_string())),
        GenericResponse { success: true, error: "failed to delete user: timeout".to_string() }
    );
}

#[test]
fn the_test_service_is_not_there() {
    let relay = Relay::default();
    let reply = relay.perform_auto_test("lab01".to_string());
    assert_eq!(reply.test_name, "lab01");
    assert_eq!(reply.text_exit_code, 1);
    assert_eq!(reply.test_output, "This service has not been implemented.");
    assert_eq!(
        relay.submit_work(),
        Status { code: Code::Unimplemented, message: "not implemented".to_string() }
    );
}

#[test]
fn a_header_presents_its_token() {
    assert_eq!(bearer_header("secret1"), "Bearer secret1");
    assert_eq!(bearer_header(""), "Bearer ");
    assert_eq!(bearer_token(&bearer_header("secret1")), Some("secret1".to_string()));
    assert_eq!(bearer_token(&bearer_header("")), Some(String::new()));
    // a token that holds the scheme itself loses it
    assert_eq!(bearer_token(&bearer_header("a Bearer b")), Some("a b".to_string()));
}
