use esl_rs::command::{
    api_command, auth_command, bgapi_command, send_command, subscribe_all_command,
    subscribe_command, unsubscribe_all_command, unsubscribe_command,
};
use esl_rs::error::EslError;

#[test]
fn commands_carry_the_protocol_terminator() {
    assert_eq!(send_command("status"), "status\n\n");
    assert_eq!(api_command("reloadxml"), "api reloadxml\n\n");
    assert_eq!(auth_command("secret"), "auth secret\n\n");
    assert_eq!(subscribe_all_command(), "event json all\n\n");
    assert_eq!(unsubscribe_all_command(), "nixevent all\n\n");
}

#[test]
fn subscribe_joins_event_names_with_spaces() {
    let names = vec!["CHANNEL_CREATE".to_string(), "CHANNEL_ANSWER".to_string()];
    assert_eq!(
        subscribe_command(&names),
        "event json CHANNEL_CREATE CHANNEL_ANSWER\n\n"
    );
    assert_eq!(unsubscribe_command(&names), "nixevent CHANNEL_CREATE CHANNEL_ANSWER\n\n");
    let one = vec!["HEARTBEAT".to_string()];
    assert_eq!(subscribe_command(&one), "event json HEARTBEAT\n\n");
    let none: Vec<String> = Vec::new();
    assert_eq!(subscribe_command(&none), "event json \n\n");
}

#[test]
fn bgapi_embeds_its_job_identifier_verbatim() {
    let (wire, id) = bgapi_command("originate user/1001 &echo");
    assert_eq!(id.len(), 36);
    assert_eq!(
        wire,
        format!("bgapi originate user/1001 &echo\njob-uuid:{}\n\n", id)
    );
}

#[test]
fn two_bgapi_calls_return_distinct_identifiers() {
    let (wire_a, id_a) = bgapi_command("status");
    let (wire_b, id_b) = bgapi_command("status");
    assert_ne!(id_a, id_b);
    // Each command line carries its own identifier, never the other's.
    assert_eq!(wire_a, format!("bgapi status\njob-uuid:{}\n\n", id_a));
    assert_eq!(wire_b, format!("bgapi status\njob-uuid:{}\n\n", id_b));
}

#[test]
fn error_messages_describe_each_case() {
    assert_eq!(EslError::AuthFailed.message(), "Wrong password.");
    assert_eq!(EslError::AclRejected.message(), "Acl rejected.");
    assert_eq!(EslError::EmptyEvent.message(), "empty event");
    assert_eq!(
        EslError::ConnectionError("disconnected".to_string()).message(),
        "Unable to connect to destination server: disconnected"
    );
    assert_eq!(
        EslError::ApiError("bad frame".to_string()).message(),
        "Api error: bad frame"
    );
    assert_eq!(
        EslError::InternalError("io".to_string()).message(),
        "unknown error: io"
    );
}

#[test]
fn errors_compare_by_case_and_detail() {
    assert_eq!(EslError::AuthFailed, EslError::AuthFailed);
    assert_ne!(EslError::AuthFailed, EslError::AclRejected);
    assert_eq!(
        EslError::ApiError("x".to_string()),
        EslError::ApiError("x".to_string())
    );
    assert_ne!(
        EslError::ApiError("x".to_string()),
        EslError::ApiError("y".to_string())
    );
}
