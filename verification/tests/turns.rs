use edge_tts_rs::protocol::{find_audio_offset, run_turn, Frame, StepOutcome, TTSError, Turn, TurnState};

fn hdr(payload: &[u8]) -> Vec<u8> {
    let mut v = Vec::new();
    v.extend_from_slice(b"X-RequestId:0\r\nContent-Type:audio/mpeg\r\nPath:audio\r\n");
    v.extend_from_slice(payload);
    v
}

fn start_text() -> Frame {
    Frame::Text(String::from(
        "X-RequestId:0\r\nContent-Type:application/json; charset=utf-8\r\nPath:turn.start\r\n\r\n{}",
    ))
}

fn end_text() -> Frame {
    Frame::Text(String::from(
        "X-RequestId:0\r\nContent-Type:application/json; charset=utf-8\r\nPath:turn.end\r\n\r\n{}",
    ))
}

#[test]
fn turn_accumulates_audio_in_order() {
    let frames = vec![
        start_text(),
        Frame::Binary(hdr(b"AB")),
        Frame::Binary(hdr(b"CD")),
        end_text(),
    ];
    let audio = run_turn(&frames).unwrap();
    assert_eq!(audio, b"ABCD".to_vec());
}

#[test]
fn binary_before_turn_start_is_discarded() {
    let frames = vec![
        Frame::Binary(hdr(b"XX")),
        start_text(),
        Frame::Binary(hdr(b"YY")),
        end_text(),
    ];
    let audio = run_turn(&frames).unwrap();
    assert_eq!(audio, b"YY".to_vec());
}

#[test]
fn close_without_reason_gives_generic_message() {
    let frames = vec![Frame::Close(None)];
    match run_turn(&frames) {
        Err(TTSError::RemoteClosed(reason)) => assert_eq!(reason, "the socket closed"),
        other => panic!("expected RemoteClosed, got {:?}", other),
    }
}

#[test]
fn close_mid_turn_surfaces_peer_reason() {
    let frames = vec![
        start_text(),
        Frame::Binary(hdr(b"AB")),
        Frame::Close(Some(String::from("going away"))),
    ];
    match run_turn(&frames) {
        Err(TTSError::RemoteClosed(reason)) => assert_eq!(reason, "going away"),
        other => panic!("expected RemoteClosed, got {:?}", other),
    }
}

#[test]
fn unrecognized_frame_ends_turn_softly() {
    let frames = vec![start_text(), Frame::Binary(hdr(b"AB")), Frame::Other];
    let audio = run_turn(&frames).unwrap();
    assert_eq!(audio, b"AB".to_vec());
}

#[test]
fn unrelated_text_causes_no_transition() {
    let frames = vec![
        Frame::Text(String::from("Path:response\r\n\r\n{}")),
        Frame::Text(String::from("Path:audio.metadata\r\n\r\n{}")),
        Frame::Binary(hdr(b"ZZ")),
        start_text(),
        Frame::Binary(hdr(b"OK")),
        end_text(),
    ];
    let audio = run_turn(&frames).unwrap();
    assert_eq!(audio, b"OK".to_vec());
}

#[test]
fn text_with_both_markers_counts_as_start() {
    let frames = vec![
        Frame::Text(String::from("turn.start and also turn.end")),
        Frame::Binary(hdr(b"AB")),
        end_text(),
    ];
    let audio = run_turn(&frames).unwrap();
    assert_eq!(audio, b"AB".to_vec());
}

#[test]
fn empty_sequence_yields_empty_audio() {
    let frames: Vec<Frame> = Vec::new();
    let audio = run_turn(&frames).unwrap();
    assert!(audio.is_empty());
}

#[test]
fn successive_turns_share_no_state() {
    let first = vec![start_text(), Frame::Binary(hdr(b"AB")), end_text()];
    let second = vec![start_text(), Frame::Binary(hdr(b"CD")), end_text()];
    assert_eq!(run_turn(&first).unwrap(), b"AB".to_vec());
    assert_eq!(run_turn(&second).unwrap(), b"CD".to_vec());
}

#[test]
fn stepping_by_hand_matches_replay() {
    let mut turn = Turn::new();
    assert!(matches!(turn.state, TurnState::Idle));
    assert!(matches!(turn.step(&start_text()), StepOutcome::Continue));
    assert!(matches!(turn.state, TurnState::InTurn));
    assert!(matches!(turn.step(&Frame::Binary(hdr(b"AB"))), StepOutcome::Continue));
    assert!(matches!(turn.step(&end_text()), StepOutcome::Finished));
    assert!(matches!(turn.state, TurnState::Done));
    assert_eq!(turn.audio, b"AB".to_vec());
}

#[test]
fn audio_offset_slices_after_first_marker() {
    assert_eq!(find_audio_offset(&hdr(b"AB")), hdr(b"").len());
    let mut doubled = hdr(b"AB");
    doubled.extend_from_slice(b"Path:audio\r\nCD");
    assert_eq!(find_audio_offset(&doubled), hdr(b"").len());
    let bare = b"Path:audio\r\n".to_vec();
    assert_eq!(find_audio_offset(&bare), bare.len());
}

#[test]
fn missing_marker_falls_back_to_offset_zero() {
    let payload = b"no header here at all".to_vec();
    assert_eq!(find_audio_offset(&payload), 0);
    let frames = vec![start_text(), Frame::Binary(payload.clone()), end_text()];
    let audio = run_turn(&frames).unwrap();
    assert_eq!(audio, payload);
}

#[test]
fn short_and_partial_payloads_have_offset_zero() {
    assert_eq!(find_audio_offset(&Vec::new()), 0);
    assert_eq!(find_audio_offset(&b"Path:audio".to_vec()), 0);
    assert_eq!(find_audio_offset(&b"Path:audio\r".to_vec()), 0);
}
