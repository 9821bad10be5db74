use mcstatus_http::{parse_u16, Field, MonitorOutput, ParseError};

#[test]
fn parses_a_full_report() {
    let out = MonitorOutput::parse(
        "1.2.3.4:25565 : version=1.20.1 online=3 max=20 motd='A Minecraft Server'",
    )
    .unwrap();
    assert_eq!(out.version, "1.20.1");
    assert_eq!(out.online_player_count, 3);
    assert_eq!(out.max_player_count, 20);
    assert_eq!(out.motd, "A Minecraft Server");
}

#[test]
fn rejects_missing_separator() {
    let r = MonitorOutput::parse("1.2.3.4:25565 version=1.20.1 online=3 max=20 motd='x'");
    assert_eq!(r.unwrap_err(), ParseError::MissingSeparator);
}

#[test]
fn rejects_non_numeric_online_count() {
    let r = MonitorOutput::parse("h : version=1.20.1 online=abc max=20 motd='x'");
    assert_eq!(r.unwrap_err(), ParseError::InvalidPlayerCount(Field::Online));
}

#[test]
fn rejects_non_numeric_max_count() {
    let r = MonitorOutput::parse("h : version=1.20.1 online=1 max=-2 motd='x'");
    assert_eq!(r.unwrap_err(), ParseError::InvalidPlayerCount(Field::Max));
}

#[test]
fn rejects_count_over_sixteen_bits() {
    let r = MonitorOutput::parse("h : version=1 online=65536 max=20 motd='x'");
    assert_eq!(r.unwrap_err(), ParseError::InvalidPlayerCount(Field::Online));
    let ok = MonitorOutput::parse("h : version=1 online=65535 max=0 motd='x'").unwrap();
    assert_eq!(ok.online_player_count, 65535);
    assert_eq!(ok.max_player_count, 0);
}

#[test]
fn rejects_report_ending_early() {
    assert_eq!(
        MonitorOutput::parse("h : version=1").unwrap_err(),
        ParseError::UnexpectedEnd(Field::Version)
    );
    assert_eq!(
        MonitorOutput::parse("h : version=1 online=2").unwrap_err(),
        ParseError::UnexpectedEnd(Field::Online)
    );
    assert_eq!(
        MonitorOutput::parse("h : version=1 online=2 max=3").unwrap_err(),
        ParseError::UnexpectedEnd(Field::Max)
    );
}

#[test]
fn rejects_segment_without_equals() {
    assert_eq!(
        MonitorOutput::parse("h : version online=2 max=3 motd='x'").unwrap_err(),
        ParseError::MissingEquals(Field::Version)
    );
    assert_eq!(
        MonitorOutput::parse("h : version=1 online=2 max=3 motd").unwrap_err(),
        ParseError::MissingEquals(Field::Motd)
    );
}

#[test]
fn rejects_wrong_field_names() {
    assert_eq!(
        MonitorOutput::parse("h : versio=1 online=2 max=3 motd='x'").unwrap_err(),
        ParseError::UnexpectedKey(Field::Version)
    );
    assert_eq!(
        MonitorOutput::parse("h : version=1 players=2 max=3 motd='x'").unwrap_err(),
        ParseError::UnexpectedKey(Field::Online)
    );
    assert_eq!(
        MonitorOutput::parse("h : version=1 online=2 maximum=3 motd='x'").unwrap_err(),
        ParseError::UnexpectedKey(Field::Max)
    );
    assert_eq!(
        MonitorOutput::parse("h : version=1 online=2 max=3 title='x'").unwrap_err(),
        ParseError::UnexpectedKey(Field::Motd)
    );
}

#[test]
fn rejects_unquoted_motd() {
    assert_eq!(
        MonitorOutput::parse("h : version=1 online=2 max=3 motd=plain").unwrap_err(),
        ParseError::UnquotedMotd
    );
    assert_eq!(
        MonitorOutput::parse("h : version=1 online=2 max=3 motd=").unwrap_err(),
        ParseError::UnquotedMotd
    );
    assert_eq!(
        MonitorOutput::parse("h : version=1 online=2 max=3 motd='").unwrap_err(),
        ParseError::UnquotedMotd
    );
}

#[test]
fn keeps_motd_verbatim() {
    let out = MonitorOutput::parse("h : version=a=b online=+7 max=8 motd='' it's = ok''").unwrap();
    assert_eq!(out.version, "a=b");
    assert_eq!(out.online_player_count, 7);
    assert_eq!(out.motd, "' it's = ok'");
    let empty = MonitorOutput::parse("h : version=1 online=2 max=3 motd=''").unwrap();
    assert_eq!(empty.motd, "");
}

#[test]
fn reads_u16_like_std() {
    assert_eq!(parse_u16("0"), Some(0));
    assert_eq!(parse_u16("+12"), Some(12));
    assert_eq!(parse_u16("0065535"), Some(65535));
    assert_eq!(parse_u16("65536"), None);
    assert_eq!(parse_u16(""), None);
    assert_eq!(parse_u16("+"), None);
    assert_eq!(parse_u16("-1"), None);
    assert_eq!(parse_u16("1a"), None);
    assert_eq!(parse_u16("99999999999999999999"), None);
}
