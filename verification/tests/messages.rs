use edge_tts_rs::config::{build_request_message, build_request_message_at, EdgeTTS, EdgeTTSConfig};
use edge_tts_rs::text::{i16_dec, u128_dec};
use edge_tts_rs::util::gen_request_id;

fn default_config() -> EdgeTTSConfig {
    EdgeTTSConfig::default()
}

#[test]
fn default_config_values() {
    let cfg = default_config();
    assert_eq!(cfg.output_format, "audio-24khz-96kbitrate-mono-mp3");
    assert_eq!(cfg.voice_name, "zh-CN-XiaoxiaoNeural");
    assert_eq!(cfg.rate, 0);
    assert_eq!(cfg.pitch, 0);
}

#[test]
fn config_message_exact() {
    let cfg = default_config();
    let msg = cfg.to_config_message_at(0);
    assert_eq!(
        msg,
        "X-Timestamp:0\r\nContent-Type:application/json; charset=utf-8\r\nPath:speech.config\r\n\r\n{\"context\": {\"synthesis\": {\"audio\": {\"metadataoptions\": {\"sentenceBoundaryEnabled\": \"false\",\"wordBoundaryEnabled\": \"false\"},\"outputFormat\": \"audio-24khz-96kbitrate-mono-mp3\"}}}}"
    );
}

#[test]
fn config_message_single_header_block() {
    let mut cfg = default_config();
    cfg.output_format = String::from("some-format");
    let msg = cfg.to_config_message_at(1234567890123);
    assert_eq!(msg.matches("\r\n\r\n").count(), 1);
    let body = &msg[msg.find("\r\n\r\n").unwrap() + 4..];
    assert!(body.contains("\"outputFormat\": \"some-format\""));
    assert!(msg.starts_with("X-Timestamp:1234567890123\r\n"));
}

#[test]
fn config_message_stamped_with_clock() {
    let cfg = default_config();
    let msg = cfg.to_config_message();
    assert!(msg.starts_with("X-Timestamp:"));
    assert_eq!(msg.matches("\r\n\r\n").count(), 1);
}

#[test]
fn ssml_envelope_exact() {
    let mut cfg = default_config();
    cfg.voice_name = String::from("en-US-GuyNeural");
    cfg.rate = -10;
    cfg.pitch = 5;
    let ssml = cfg.to_ssml(String::from("Hello"));
    assert_eq!(
        ssml,
        "<speak xmlns=\"http://www.w3.org/2001/10/synthesis\" xmlns:mstts=\"http://www.w3.org/2001/mstts\" xmlns:emo=\"http://www.w3.org/2009/10/emotionml\" version=\"1.0\" xml:lang=\"en-US\"><voice name=\"en-US-GuyNeural\"><prosody rate=\"-10%\" pitch=\"5%\">Hello</prosody ></voice > </speak >"
    );
}

#[test]
fn ssml_envelope_single_voice_and_prosody() {
    let mut cfg = default_config();
    cfg.voice_name = String::from("fr-FR-DeniseNeural");
    cfg.rate = 25;
    cfg.pitch = -3;
    let ssml = cfg.to_ssml(String::from("Bonjour tout le monde"));
    assert_eq!(ssml.matches("<voice name=\"fr-FR-DeniseNeural\">").count(), 1);
    assert_eq!(ssml.matches("<prosody rate=\"25%\" pitch=\"-3%\">").count(), 1);
    assert!(ssml.contains(">Bonjour tout le monde</prosody "));
}

#[test]
fn config_message_first_separator_ends_header_for_any_format() {
    let mut cfg = default_config();
    cfg.output_format = String::from("odd\r\n\r\nformat");
    let msg = cfg.to_config_message_at(7);
    let i = msg.find("\r\n\r\n").unwrap();
    let body = &msg[i + 4..];
    assert!(body.starts_with("{\"context\""));
    assert!(body.contains("\"outputFormat\": \"odd\r\n\r\nformat\""));
}

#[test]
fn ssml_content_markup_forges_no_second_element() {
    let mut cfg = default_config();
    cfg.voice_name = String::from("en-GB-SoniaNeural");
    let ssml = cfg.to_ssml(String::from("1 < 2 <break/> done"));
    assert_eq!(ssml.matches("<voice").count(), 1);
    assert_eq!(ssml.matches("<prosody").count(), 1);
    assert!(ssml.contains(">1 < 2 <break/> done</prosody "));
}

#[test]
fn request_message_exact() {
    let msg = build_request_message_at("<speak>s</speak>", "deadbeef", 42);
    assert_eq!(
        msg,
        "X-Timestamp:42\r\nX-RequestId:deadbeef\r\nContent-Type:application/ssml+xml\r\nPath:ssml\r\n\r\n<speak>s</speak>"
    );
}

#[test]
fn request_message_fresh_id() {
    let msg = build_request_message("<speak>s</speak>");
    assert!(msg.starts_with("X-Timestamp:"));
    assert!(msg.contains("\r\nX-RequestId:"));
    assert!(msg.ends_with("\r\nContent-Type:application/ssml+xml\r\nPath:ssml\r\n\r\n<speak>s</speak>"));
    let id = msg
        .split("X-RequestId:")
        .nth(1)
        .unwrap()
        .split("\r\n")
        .next()
        .unwrap();
    assert_eq!(id.len(), 32);
    assert!(id.chars().all(|c| c.is_ascii_hexdigit() && !c.is_ascii_uppercase()));
}

#[test]
fn generated_id_is_bare_hex() {
    let id = gen_request_id();
    assert_eq!(id.len(), 32);
    assert!(!id.contains('-'));
    assert!(id.chars().all(|c| ('0'..='9').contains(&c) || ('a'..='f').contains(&c)));
    let other = gen_request_id();
    assert_ne!(id, other);
}

#[test]
fn connect_url_carries_connection_id() {
    let tts = EdgeTTS::new(default_config());
    let url = tts.connect_url();
    assert!(url.starts_with(
        "wss://speech.platform.bing.com/consumer/speech/synthesize/readaloud/edge/v1?TrustedClientToken=6A5AA1D4EAFF4E9FB37E23D68491D6F4&ConnectionId="
    ));
    assert!(url.ends_with(tts.connection_id()));
    assert_eq!(tts.connection_id().len(), 32);
}

#[test]
fn decimal_rendering_exact() {
    assert_eq!(u128_dec(0), "0");
    assert_eq!(u128_dec(7), "7");
    assert_eq!(u128_dec(1234567890123), "1234567890123");
    assert_eq!(u128_dec(u128::MAX), "340282366920938463463374607431768211455");
    assert_eq!(i16_dec(0), "0");
    assert_eq!(i16_dec(-1), "-1");
    assert_eq!(i16_dec(i16::MIN), "-32768");
    assert_eq!(i16_dec(i16::MAX), "32767");
}
