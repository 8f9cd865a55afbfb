use rapidcron::config::{DatabaseConfig, LogFormat, LogOutput, LoggingConfig};
use rapidcron::error::RapidCronError;
use rapidcron::types::{
    CreateTaskRequest, ExecutionLogFilter, Schedule, TaskFilter, TaskInstanceFilter, TaskPayload,
    TaskType, UpdateTaskRequest,
};

fn logging(output: &str, format: &str) -> LoggingConfig {
    LoggingConfig {
        level: "debug".to_string(),
        format: format.to_string(),
        output: output.to_string(),
        log_file: "logs".to_string(),
    }
}

fn database(username: &str, password: &str) -> DatabaseConfig {
    DatabaseConfig {
        uri: "mongodb://localhost:27017".to_string(),
        database_name: "rapidcron".to_string(),
        username: username.to_string(),
        password: password.to_string(),
    }
}

#[test]
fn output_kinds() {
    assert_eq!(logging("stdout", "json").output_kind().unwrap(), LogOutput::Stdout);
    assert_eq!(logging("file", "json").output_kind().unwrap(), LogOutput::File);
    assert_eq!(logging("both", "json").output_kind().unwrap(), LogOutput::Both);
    for odd in ["", "Stdout", "files", "syslog", " both"] {
        match logging(odd, "json").output_kind() {
            Err(RapidCronError::Config(d)) => assert_eq!(d, format!("Unsupported log output: {}", odd)),
            other => panic!("unexpected {:?}", other),
        }
    }
}

#[test]
fn format_kinds() {
    assert_eq!(logging("stdout", "json").format_kind().unwrap(), LogFormat::Json);
    assert_eq!(logging("stdout", "plain").format_kind().unwrap(), LogFormat::Plain);
    for odd in ["", "JSON", "text"] {
        match logging("stdout", odd).format_kind() {
            Err(RapidCronError::Config(d)) => assert_eq!(d, format!("Unsupported log format: {}", odd)),
            other => panic!("unexpected {:?}", other),
        }
    }
}

#[test]
fn file_outputs_need_a_directory() {
    assert!(!LogOutput::Stdout.writes_file());
    assert!(LogOutput::File.writes_file());
    assert!(LogOutput::Both.writes_file());
}

#[test]
fn default_directive_names_the_level() {
    assert_eq!(logging("stdout", "json").default_directive(), "rapidcron=debug");
}

#[test]
fn credentials_need_user_and_password() {
    assert!(database("admin", "secret").uses_credentials());
    assert!(!database("admin", "").uses_credentials());
    assert!(!database("", "secret").uses_credentials());
    assert!(!database("", "").uses_credentials());
}

#[test]
fn error_messages() {
    let cases = vec![
        (RapidCronError::Config("x".to_string()), "Configuration error: x"),
        (RapidCronError::Database("x".to_string()), "Database error: x"),
        (RapidCronError::Serialization("x".to_string()), "Serialization error: x"),
        (RapidCronError::Io("x".to_string()), "IO error: x"),
        (RapidCronError::Scheduling("x".to_string()), "Task scheduling error: x"),
        (RapidCronError::Execution("x".to_string()), "Task execution error: x"),
        (RapidCronError::Network("x".to_string()), "Network error: x"),
        (RapidCronError::Validation("".to_string()), "Validation error: "),
    ];
    for (error, text) in cases {
        assert_eq!(error.message(), text);
    }
}

#[test]
fn default_requests_and_filters() {
    let c = CreateTaskRequest::default();
    assert_eq!(c.name, "");
    assert!(c.description.is_none() && c.dependency_ids.is_empty());
    assert_eq!(c.task_type, TaskType::Command);
    assert!(!c.enabled);
    assert!(c.timeout_seconds.is_none() && c.max_retries.is_none());
    assert!(matches!(&c.payload, TaskPayload::Command { command, timeout_seconds: None } if command.is_empty()));
    assert!(matches!(&c.schedule, Schedule::Cron(e) if e.is_empty()));

    let u = UpdateTaskRequest::default();
    assert!(u.name.is_none() && u.description.is_none() && u.dependency_ids.is_none());
    assert!(u.schedule.is_none() && u.enabled.is_none() && u.payload.is_none());
    assert!(u.timeout_seconds.is_none() && u.max_retries.is_none());

    let f = TaskFilter::default();
    assert!(f.name.is_none() && f.enabled.is_none() && f.task_type.is_none());
    assert_eq!(f.deleted, Some(false));

    let i = TaskInstanceFilter::default();
    assert!(i.task_id.is_none() && i.status.is_none() && i.executor_id.is_none());
    assert!(i.start_after.is_none() && i.start_before.is_none());

    let l = ExecutionLogFilter::default();
    assert!(l.task_id.is_none() && l.status.is_none() && l.triggered_by.is_none());
    assert!(l.end_after.is_none() && l.end_before.is_none());
}

#[test]
fn payload_knows_its_type() {
    let c = TaskPayload::Command { command: "x".to_string(), timeout_seconds: None };
    let h = TaskPayload::Http {
        url: "http://x/".to_string(),
        method: None,
        headers: None,
        body: None,
        timeout_seconds: None,
    };
    assert_eq!(c.task_type(), TaskType::Command);
    assert_eq!(h.task_type(), TaskType::Http);
}
