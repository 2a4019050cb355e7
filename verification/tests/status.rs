use job_core::status::{Status, UnknownStatus};

#[test]
fn test_status_as_str() {
    assert_eq!(Status::Pending.as_str(), "pending");
    assert_eq!(Status::Running.as_str(), "running");
    assert_eq!(Status::Completed.as_str(), "completed");
    assert_eq!(Status::Failed.as_str(), "failed");
    assert_eq!(Status::Stopped.as_str(), "stopped");
    assert_eq!(Status::Interrupted.as_str(), "interrupted");
}

#[test]
fn test_status_is_terminal() {
    assert!(!Status::Pending.is_terminal());
    assert!(!Status::Running.is_terminal());
    assert!(Status::Completed.is_terminal());
    assert!(Status::Failed.is_terminal());
    assert!(Status::Stopped.is_terminal());
    assert!(Status::Interrupted.is_terminal());
}

#[test]
fn test_status_from_str() {
    assert_eq!("pending".parse::<Status>().unwrap(), Status::Pending);
    assert_eq!("running".parse::<Status>().unwrap(), Status::Running);
    assert_eq!("completed".parse::<Status>().unwrap(), Status::Completed);
    assert_eq!("failed".parse::<Status>().unwrap(), Status::Failed);
    assert_eq!("stopped".parse::<Status>().unwrap(), Status::Stopped);
    assert_eq!(
        "interrupted".parse::<Status>().unwrap(),
        Status::Interrupted
    );
}

#[test]
fn test_status_from_str_case_insensitive() {
    assert_eq!("PENDING".parse::<Status>().unwrap(), Status::Pending);
    assert_eq!("Running".parse::<Status>().unwrap(), Status::Running);
    assert_eq!("COMPLETED".parse::<Status>().unwrap(), Status::Completed);
}

#[test]
fn test_status_from_str_invalid() {
    assert!("invalid".parse::<Status>().is_err());
    assert!("".parse::<Status>().is_err());
}

#[test]
fn test_status_display() {
    assert_eq!(Status::Running.to_string(), "running");
    assert_eq!(Status::Failed.to_string(), "failed");
}

#[test]
fn status_parse_names_every_status() {
    let all = [
        Status::Pending,
        Status::Running,
        Status::Completed,
        Status::Failed,
        Status::Stopped,
        Status::Interrupted,
    ];
    for status in all {
        assert_eq!(Status::parse(status.as_str()), Ok(status));
        assert_eq!(Status::from_name(status.as_str()), Some(status));
    }
}

#[test]
fn status_from_name_is_exact_about_case() {
    assert_eq!(Status::from_name("Pending"), None);
    assert_eq!(Status::from_name("pending "), None);
    assert_eq!(Status::parse("pending "), Err(UnknownStatus));
    assert_eq!(Status::parse("StOpPeD"), Ok(Status::Stopped));
    assert_eq!(Status::parse("INTERRUPTED"), Ok(Status::Interrupted));
}
