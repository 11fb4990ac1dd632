use listent::daemon::{
    daemon_launch_mode, is_daemon_command_line, is_daemon_invocation, parse_pid_lines, status_advice,
    stop_daemon, LaunchMode, StatusAdvice,
};
use listent::ipc::{process_message, ConfigUpdate, IpcMessage, IpcResponse};
use listent::logging::{DaemonLogger, LogLevel, LoggerError};
use listent::logging_backup;
use listent::logging_backup::LogLevel as FourLevel;

#[test]
fn pid_lines() {
    assert_eq!(parse_pid_lines("123\n456\n"), vec![123, 456]);
    assert_eq!(parse_pid_lines(" 7 \r\nabc\n\n8"), vec![7, 8]);
    assert_eq!(parse_pid_lines(""), Vec::<u32>::new());
    assert_eq!(parse_pid_lines("4294967296\n1"), vec![1]);
}

#[test]
fn daemon_command_lines() {
    assert!(is_daemon_command_line("/usr/local/bin/listent --daemon --monitor /Applications"));
    assert!(!is_daemon_command_line("sudo listent --daemon --monitor"));
    assert!(!is_daemon_command_line("/usr/local/bin/listent --monitor"));
    assert!(!is_daemon_command_line("other --daemon --monitor"));
    assert!(is_daemon_invocation("x --daemon --monitor"));
    assert!(!is_daemon_invocation("x --daemon"));
}

#[test]
fn status_advice_cases() {
    assert_eq!(status_advice(true, Some(true)), StatusAdvice::RunningAsService);
    assert_eq!(status_advice(true, None), StatusAdvice::RunningDirectly);
    assert_eq!(status_advice(false, Some(false)), StatusAdvice::ServiceWithoutProcess);
    assert_eq!(status_advice(false, Some(true)), StatusAdvice::ServiceWithoutProcess);
    assert_eq!(status_advice(false, None), StatusAdvice::NotRunning);
    assert_eq!(status_advice(true, Some(false)), StatusAdvice::Inconsistent);
}

#[test]
fn launch_mode_and_stop() {
    assert_eq!(daemon_launch_mode(true, false), LaunchMode::RunHere);
    assert_eq!(daemon_launch_mode(false, true), LaunchMode::RunHere);
    assert_eq!(daemon_launch_mode(false, false), LaunchMode::SpawnChild);
    assert!(stop_daemon().is_ok());
}

#[test]
fn ipc_replies() {
    let r = process_message(IpcMessage::UpdateConfig {
        updates: vec![
            ConfigUpdate { key: "daemon.polling_interval".to_string(), value: "2.0".to_string() },
            ConfigUpdate { key: "daemon.auto_start".to_string(), value: "true".to_string() },
        ],
        request_id: "r1".to_string(),
    });
    assert_eq!(
        r,
        IpcResponse::Error {
            request_id: "r1".to_string(),
            code: 501,
            message: "Configuration updates not yet implemented".to_string(),
            details: Some("Requested 2 updates".to_string()),
        }
    );
    let r = process_message(IpcMessage::Shutdown { request_id: "r2".to_string() });
    assert_eq!(
        r,
        IpcResponse::Error {
            request_id: "r2".to_string(),
            code: 501,
            message: "Shutdown not yet implemented".to_string(),
            details: None,
        }
    );
    let r = process_message(IpcMessage::GetStatus { request_id: "r3".to_string() });
    assert!(matches!(r, IpcResponse::Error { ref message, .. } if message == "Status reporting not yet implemented"));
}

#[test]
fn two_level_logger() {
    assert_eq!(
        DaemonLogger::new("nodots", "daemon", LogLevel::Info),
        Err(LoggerError::SubsystemNotReverseDns)
    );
    let lg = DaemonLogger::new("com.example.app", "daemon", LogLevel::Error).unwrap();
    assert!(lg.should_log(LogLevel::Error));
    assert!(!lg.should_log(LogLevel::Info));
    assert_eq!(lg.structured_line(LogLevel::Info, "m", "{}"), None);
    assert_eq!(lg.structured_line(LogLevel::Error, "boom", "{\"a\":1}"), Some("boom | {\"a\":1}".to_string()));
    let lg = DaemonLogger::new("com.example.app", "daemon", LogLevel::Info).unwrap();
    assert!(lg.should_log(LogLevel::Info));
}

#[test]
fn four_level_logger() {
    assert_eq!(FourLevel::Warn.as_str(), "default");
    assert_eq!(FourLevel::Error.as_str(), "error");
    assert_eq!(FourLevel::from_str("WARNING"), Ok(FourLevel::Warn));
    assert_eq!(FourLevel::from_str("Debug"), Ok(FourLevel::Debug));
    assert_eq!(FourLevel::from_str("info"), Ok(FourLevel::Info));
    assert!(FourLevel::from_str("verbose").is_err());
    assert_eq!(logging_backup::level_from_lowercase("WARN", "warn"), Ok(FourLevel::Warn));
    assert_eq!(
        logging_backup::level_from_lowercase("Trace", "trace").unwrap_err().name,
        "Trace".to_string()
    );
    assert!(logging_backup::level_from_lowercase("ERROR", "ERROR").is_err());
    let mut lg = logging_backup::DaemonLogger::new("com.a.b".to_string(), "c".to_string(), FourLevel::Warn).unwrap();
    assert!(lg.should_log(FourLevel::Error));
    assert!(lg.should_log(FourLevel::Warn));
    assert!(!lg.should_log(FourLevel::Info));
    lg.set_level(FourLevel::Debug);
    assert_eq!(lg.level(), FourLevel::Debug);
    assert!(lg.should_log(FourLevel::Debug));
}

#[test]
fn level_names_are_read_whatever_their_case() {
    assert_eq!(FourLevel::from_str("error"), Ok(FourLevel::Error));
    assert_eq!(FourLevel::from_str("WARN"), Ok(FourLevel::Warn));
    assert_eq!(FourLevel::from_str("Warning"), Ok(FourLevel::Warn));
    assert_eq!(FourLevel::from_str("Info"), Ok(FourLevel::Info));
    assert_eq!(FourLevel::from_str("DEBUG"), Ok(FourLevel::Debug));
    assert_eq!(FourLevel::from_str("trace").unwrap_err().message(), "Invalid log level: trace");
    assert_eq!(FourLevel::from_str("").unwrap_err().message(), "Invalid log level: ");
}

#[test]
fn detection_record_names_the_executable() {
    assert_eq!(
        listent::logging::process_detection_message("/usr/bin/nc"),
        "New process detected: /usr/bin/nc"
    );
}
