use webhook_archiver::front::{acknowledge, health};
use webhook_archiver::publish::{plan_publish, Transfer};
use webhook_archiver::sync::{conclude_sync, plan_sync, CommandOutput, SyncCommand, SyncResult};

#[test]
fn missing_repository_is_not_updated() {
    assert_eq!(plan_sync("./test/webhook-test", false), None);
}

#[test]
fn existing_repository_is_pulled() {
    assert_eq!(
        plan_sync("./test/webhook-test", true),
        Some(SyncCommand {
            program: "git".to_string(),
            arguments: vec!["-C".to_string(), "./test/webhook-test".to_string(), "pull".to_string()],
        })
    );
}

#[test]
fn no_run_means_skipped() {
    assert_eq!(conclude_sync(None), SyncResult::Skipped);
}

#[test]
fn zero_exit_means_succeeded_with_standard_output() {
    let run = CommandOutput {
        success: true,
        stdout: "Already up to date.\n".to_string(),
        stderr: "warning".to_string(),
    };
    assert_eq!(conclude_sync(Some(run)), SyncResult::Succeeded("Already up to date.\n".to_string()));
}

#[test]
fn nonzero_exit_means_failed_with_standard_error() {
    let run = CommandOutput {
        success: false,
        stdout: "partial".to_string(),
        stderr: "fatal: not a git repository\n".to_string(),
    };
    assert_eq!(
        conclude_sync(Some(run)),
        SyncResult::Failed("fatal: not a git repository\n".to_string())
    );
}

#[test]
fn health_reports_ok() {
    let reply = health();
    assert_eq!(reply.status, 200);
    assert_eq!(reply.body.status, "ok");
}

#[test]
fn health_body_is_the_status_object() {
    let mut body = serde_json::Map::new();
    body.insert("status".to_string(), serde_json::Value::from(health().body.status));
    assert_eq!(
        serde_json::to_string(&serde_json::Value::Object(body)).unwrap(),
        r#"{"status":"ok"}"#
    );
}

#[test]
fn notification_is_acknowledged_with_success() {
    let reply = acknowledge();
    assert_eq!(reply.status, 200);
    assert_eq!(reply.body, "Webhook processed");
}

#[test]
fn publishing_is_skipped_when_disabled() {
    assert_eq!(plan_publish(false, "docs"), None);
}

#[test]
fn publishing_sends_the_archive_to_its_remote_name() {
    assert_eq!(
        plan_publish(true, "a/b"),
        Some(Transfer {
            local_path: "./a_b.zip".to_string(),
            remote_path: "/remote/path/a_b.zip".to_string(),
        })
    );
}
