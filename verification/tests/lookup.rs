use toon_settings::lookup::{
    fetch_character_name, interpret_reply, lookup_url, status_is_success, BodyParse,
    LookupFailure, LookupReply, LOOKUP_TIMEOUT_SECS,
};
use toon_settings::record::ResolutionStatus;

fn answered(status: u16, status_line: &str, body: BodyParse) -> LookupReply {
    LookupReply::Answered { status, status_line: status_line.to_string(), body }
}

#[test]
fn lookup_url_holds_the_identifier() {
    assert_eq!(
        lookup_url("90000001"),
        "https://esi.evetech.net/latest/characters/90000001/?datasource=tranquility"
    );
    assert_eq!(
        lookup_url(""),
        "https://esi.evetech.net/latest/characters//?datasource=tranquility"
    );
}

#[test]
fn lookup_timeout_is_ten_seconds() {
    assert_eq!(LOOKUP_TIMEOUT_SECS, 10);
}

#[test]
fn success_statuses_are_200_to_299() {
    assert!(!status_is_success(199));
    assert!(status_is_success(200));
    assert!(status_is_success(204));
    assert!(status_is_success(299));
    assert!(!status_is_success(300));
    assert!(!status_is_success(404));
    assert!(!status_is_success(0));
}

#[test]
fn a_readable_answer_resolves_the_name() {
    let reply = answered(200, "200 OK", BodyParse::Name("Ann Example".to_string()));
    assert_eq!(interpret_reply(&reply), Ok("Ann Example".to_string()));
    assert_eq!(
        fetch_character_name(&reply),
        ResolutionStatus::Resolved("Ann Example".to_string())
    );
}

#[test]
fn an_unreadable_answer_is_a_parse_error() {
    let reply = answered(200, "200 OK", BodyParse::Malformed("missing field `name`".to_string()));
    assert_eq!(
        interpret_reply(&reply),
        Err(LookupFailure::ParseError("Parse error: missing field `name`".to_string()))
    );
    assert_eq!(
        fetch_character_name(&reply),
        ResolutionStatus::Failed("Parse error: missing field `name`".to_string())
    );
}

#[test]
fn status_404_is_not_found() {
    let reply = answered(404, "404 Not Found", BodyParse::Malformed("eof".to_string()));
    assert_eq!(interpret_reply(&reply), Err(LookupFailure::NotFound));
    assert_eq!(
        fetch_character_name(&reply),
        ResolutionStatus::Failed("Character not found".to_string())
    );
}

#[test]
fn status_404_is_not_found_whatever_the_body_holds() {
    let reply = answered(404, "404 Not Found", BodyParse::Name("Ann".to_string()));
    assert_eq!(interpret_reply(&reply), Err(LookupFailure::NotFound));
}

#[test]
fn another_status_is_a_transport_error() {
    let reply = answered(
        500,
        "500 Internal Server Error",
        BodyParse::Name("Ann".to_string()),
    );
    assert_eq!(
        interpret_reply(&reply),
        Err(LookupFailure::TransportError("HTTP 500 Internal Server Error".to_string()))
    );
    assert_eq!(
        fetch_character_name(&reply),
        ResolutionStatus::Failed("HTTP 500 Internal Server Error".to_string())
    );
    let redirect = answered(304, "304 Not Modified", BodyParse::Malformed("eof".to_string()));
    assert_eq!(
        fetch_character_name(&redirect),
        ResolutionStatus::Failed("HTTP 304 Not Modified".to_string())
    );
}

#[test]
fn a_request_without_answer_is_a_transport_error() {
    let reply = LookupReply::RequestFailed { detail: "operation timed out".to_string() };
    assert_eq!(
        interpret_reply(&reply),
        Err(LookupFailure::TransportError("Request failed: operation timed out".to_string()))
    );
    assert_eq!(
        fetch_character_name(&reply),
        ResolutionStatus::Failed("Request failed: operation timed out".to_string())
    );
}

#[test]
fn a_missing_client_is_a_client_build_error() {
    let reply = LookupReply::ClientUnavailable { detail: "no TLS backend".to_string() };
    assert_eq!(
        interpret_reply(&reply),
        Err(LookupFailure::ClientBuildError("Client error: no TLS backend".to_string()))
    );
    assert_eq!(
        fetch_character_name(&reply),
        ResolutionStatus::Failed("Client error: no TLS backend".to_string())
    );
}

#[test]
fn failure_reasons() {
    assert_eq!(LookupFailure::NotFound.reason(), "Character not found");
    assert_eq!(
        LookupFailure::TransportError("HTTP 502 Bad Gateway".to_string()).reason(),
        "HTTP 502 Bad Gateway"
    );
    assert_eq!(LookupFailure::ParseError("Parse error: x".to_string()).reason(), "Parse error: x");
    assert_eq!(
        LookupFailure::ClientBuildError("Client error: y".to_string()).reason(),
        "Client error: y"
    );
}

#[test]
fn a_reply_never_leaves_a_lookup_pending() {
    let replies = vec![
        answered(200, "200 OK", BodyParse::Name("A".to_string())),
        answered(200, "200 OK", BodyParse::Malformed("m".to_string())),
        answered(404, "404 Not Found", BodyParse::Malformed("m".to_string())),
        answered(503, "503 Service Unavailable", BodyParse::Malformed("m".to_string())),
        LookupReply::RequestFailed { detail: "d".to_string() },
        LookupReply::ClientUnavailable { detail: "d".to_string() },
    ];
    for reply in replies.iter() {
        assert!(fetch_character_name(reply).is_terminal());
    }
    assert!(!ResolutionStatus::Pending.is_terminal());
}
