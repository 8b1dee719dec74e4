use logic_paint::session::{session_payload, session_string, SessionStringError};

#[test]
fn session_string_puts_tag_before_base64() {
    assert_eq!(session_string(&vec![1, 2, 3]), "LPS1:AQID");
    assert_eq!(session_string(&vec![]), "LPS1:");
}

#[test]
fn session_payload_refuses_other_tags() {
    assert_eq!(session_payload("LPS2:xxxAQID"), Err(SessionStringError::NotVersion1));
    assert_eq!(session_payload("LPS"), Err(SessionStringError::NotVersion1));
    assert_eq!(session_payload(""), Err(SessionStringError::NotVersion1));
    assert_eq!(session_payload("lps1:xxxAQID"), Err(SessionStringError::NotVersion1));
}

#[test]
fn session_payload_reads_from_byte_eight() {
    assert_eq!(session_payload("LPS1:xxxAQID"), Ok(vec![1, 2, 3]));
    assert_eq!(session_payload("LPS1:xxx"), Ok(vec![]));
}

#[test]
fn session_payload_refuses_short_strings() {
    assert_eq!(session_payload("LPS1:"), Err(SessionStringError::Malformed));
    assert_eq!(session_payload("LPS1:ab"), Err(SessionStringError::Malformed));
}

#[test]
fn session_payload_cuts_on_character_boundaries() {
    // Two bytes of 'é' and one of 'a' end exactly at byte eight.
    assert_eq!(session_payload("LPS1:éaAQID"), Ok(vec![1, 2, 3]));
    // Three bytes of '€' end exactly at byte eight.
    assert_eq!(session_payload("LPS1:€"), Ok(vec![]));
    // Byte eight falls inside the second 'é'.
    assert_eq!(session_payload("LPS1:éé"), Err(SessionStringError::Malformed));
}

#[test]
fn session_payload_reports_bad_base64() {
    match session_payload("LPS1:xxxA") {
        Err(SessionStringError::Base64(m)) => assert!(!m.is_empty()),
        other => panic!("unexpected {:?}", other),
    }
    // Read from byte eight, the payload that `session_string` writes loses its first three
    // characters.
    assert!(matches!(
        session_payload(&session_string(&vec![1, 2, 3])),
        Err(SessionStringError::Base64(_))
    ));
}

#[test]
fn session_error_messages() {
    assert_eq!(
        SessionStringError::NotVersion1.message(),
        "String is not valid LogicPaint Session Version 1 data."
    );
    assert_eq!(
        SessionStringError::Base64(String::new()).message(),
        "Data is not valid Base64. Are you missing some characters at the end?"
    );
}
