use mcstatus_http::{
    interpret_run, probe_backend, Endpoint, FetchError, IpAddress, ParseError,
};

fn target() -> Endpoint {
    Endpoint { ip: IpAddress::V4(0x0102_0304), port: 25565 }
}

const REPORT: &str = "1.2.3.4:25565 : version=1.20.1 online=3 max=20 motd='A Minecraft Server'";

#[test]
fn clean_run_reads_report() {
    let s = interpret_run(target(), Some(0), REPORT.as_bytes().to_vec(), vec![]).unwrap();
    assert_eq!(s.requested_url, target());
    assert_eq!(s.exit_code, 0);
    assert!(s.error.is_none());
    let out = s.output.unwrap();
    assert_eq!(out.version, "1.20.1");
    assert_eq!(out.motd, "A Minecraft Server");
}

#[test]
fn reported_failure_keeps_error_text() {
    let s = interpret_run(target(), Some(1), b"junk".to_vec(), "connection refused\n".as_bytes().to_vec())
        .unwrap();
    assert_eq!(s.exit_code, 1);
    assert!(s.output.is_none());
    assert_eq!(s.error.as_deref(), Some("connection refused\n"));
}

#[test]
fn non_text_streams_fail() {
    let r = interpret_run(target(), Some(0), vec![], vec![0xff, 0xfe]);
    assert!(matches!(r, Err(FetchError::NonTextStderr)));
    let r = interpret_run(target(), Some(0), vec![0xc3], vec![]);
    assert!(matches!(r, Err(FetchError::NonTextStdout)));
}

#[test]
fn decodes_multibyte_error_text() {
    let s = interpret_run(target(), Some(2), vec![], "délai dépassé".as_bytes().to_vec()).unwrap();
    assert_eq!(s.error.as_deref(), Some("délai dépassé"));
}

#[test]
fn abnormal_exit_fails() {
    let r = interpret_run(target(), None, REPORT.as_bytes().to_vec(), vec![]);
    assert!(matches!(r, Err(FetchError::AbnormalExit)));
    let r = interpret_run(target(), Some(256), REPORT.as_bytes().to_vec(), vec![]);
    assert!(matches!(r, Err(FetchError::ExitCodeOutOfRange(256))));
    let r = interpret_run(target(), Some(-1), REPORT.as_bytes().to_vec(), vec![]);
    assert!(matches!(r, Err(FetchError::ExitCodeOutOfRange(-1))));
}

#[test]
fn malformed_report_fails_as_parse_error() {
    let r = interpret_run(target(), Some(0), b"no separator here".to_vec(), vec![]);
    assert!(matches!(r, Err(FetchError::Parse(ParseError::MissingSeparator))));
}

#[test]
fn only_the_tool_backend_exists() {
    assert!(probe_backend(true).is_ok());
    assert!(matches!(probe_backend(false), Err(FetchError::NotImplemented)));
}
