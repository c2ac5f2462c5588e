use base64::Engine;
use sayjp::serve::{is_request_line, serve_reply, ServeOutcome, ServeReply};

#[test]
fn blank_lines_are_skipped() {
    assert!(!is_request_line(""));
    assert!(!is_request_line("  \t "));
    assert!(is_request_line(r#"{"text":"こんにちは"}"#));
}

#[test]
fn audio_is_sent_as_standard_base64() {
    let wav = vec![0u8, 1, 2, 250, 251];
    match serve_reply(ServeOutcome::Audio(wav.clone())) {
        ServeReply::Audio { wav_base64 } => {
            assert_eq!(wav_base64, "AAEC+vs=");
            assert_eq!(base64::engine::general_purpose::STANDARD.decode(wav_base64).unwrap(), wav);
        }
        other => panic!("{:?}", other),
    }
}

#[test]
fn failures_carry_their_message() {
    match serve_reply(ServeOutcome::Failed("合成失敗".to_string())) {
        ServeReply::Failure { error } => assert_eq!(error, "合成失敗"),
        other => panic!("{:?}", other),
    }
    match serve_reply(ServeOutcome::BadRequest("EOF while parsing".to_string())) {
        ServeReply::Failure { error } => assert_eq!(error, "不正なリクエスト JSON: EOF while parsing"),
        other => panic!("{:?}", other),
    }
}
