use std::collections::HashMap;

use apexos::gateway::{
    anthropic_models_reply, audio_content_type, audio_only, backend_change, butt_in_message,
    council_start_body, count_filled_lines, gateway_council_id, is_audio_file, make_session_init,
    media_list_json, media_url, models_url, night_mode, oai_models_reply, on_socket_frame,
    parse_range, policy_rules_json, power_command, recent_limits, requested_key, requested_keys,
    requested_mode, requested_model, session_counts_json, session_entry, session_file_id,
    session_message, session_preview_text, shell_command, soul_content, speak_text, static_route,
    stream_name, token_accepted, transcript_text, urlencoding_simple, FrameAction,
};
use apexos::json::JsonValue;
use apexos::order::{sort_by_name, sort_desc_by_key};
use apexos::policy::{Mode, PolicyConfig, PolicyEngine, Rule};
use apexos::types::{ContentBlock, Message};

fn obj(fields: &[(&str, JsonValue)]) -> JsonValue {
    JsonValue::object(fields.iter().map(|(k, v)| (k.to_string(), v.deep_copy())).collect())
}

fn s(v: &str) -> JsonValue {
    JsonValue::string(v)
}

#[test]
fn url_encoding_keeps_unreserved_and_escapes_the_rest() {
    assert_eq!(urlencoding_simple("My Song-1_a.b~.mp3"), "My+Song-1_a.b~.mp3");
    assert_eq!(urlencoding_simple("a&b/c"), "a%26b%2Fc");
    assert_eq!(urlencoding_simple("caf\u{e9}"), "caf%E9");
    assert_eq!(urlencoding_simple("\u{20ac}"), "%20AC");
    assert_eq!(urlencoding_simple("\n"), "%0A");
    assert_eq!(media_url("a b.mp3"), "/api/sonus/stream?name=a+b.mp3");
}

#[test]
fn static_files_and_their_types() {
    let r = |p: &str| static_route(p).map(|(n, t)| (n, t));
    assert_eq!(r("/"), Some(("index.html".into(), "text/html; charset=utf-8".into())));
    assert_eq!(r("//mobile"), Some(("mobile.html".into(), "text/html; charset=utf-8".into())));
    assert_eq!(
        r("/lib/x.js"),
        Some(("lib/x.js".into(), "application/javascript; charset=utf-8".into()))
    );
    assert_eq!(r("/lib/x.png"), None);
    assert_eq!(r("/../etc/passwd"), None);
    assert_eq!(r("/secret.txt"), None);
    assert_eq!(r("/desktop-app.js"), Some(("desktop-app.js".into(), "application/javascript; charset=utf-8".into())));
}

#[test]
fn media_names_types_and_ranges() {
    assert!(is_audio_file("Track.MP3"));
    assert!(is_audio_file("x.opus"));
    assert!(!is_audio_file("notes.txt"));
    assert!(is_audio_file("mp3"));
    assert_eq!(audio_content_type("a.Ogg"), "audio/ogg");
    assert_eq!(audio_content_type("a.m4a"), "audio/mp4");
    assert_eq!(audio_content_type("a.bin"), "application/octet-stream");
    assert_eq!(stream_name(None), Err("missing name".to_string()));
    assert_eq!(stream_name(Some("   ")), Err("missing name".to_string()));
    assert_eq!(stream_name(Some("../x.mp3")), Err("invalid name".to_string()));
    assert_eq!(stream_name(Some("a\\b.mp3")), Err("invalid name".to_string()));
    assert_eq!(stream_name(Some(" song.mp3 ")), Ok("song.mp3".to_string()));
    assert_eq!(parse_range("bytes=0-99", 1000), Some((0, 99)));
    assert_eq!(parse_range("bytes=500-", 1000), Some((500, 999)));
    assert_eq!(parse_range("bytes=-", 10), Some((0, 9)));
    assert_eq!(parse_range("bytes=5-5000", 10), Some((5, 9)));
    assert_eq!(parse_range("bytes=20-30", 10), None);
    assert_eq!(parse_range("bytes=x-3", 10), Some((0, 3)));
    assert_eq!(parse_range("items=0-3", 10), None);
    assert_eq!(parse_range("bytes=0-", 0), None);
}

#[test]
fn media_listing_is_audio_only_and_sorted_by_name() {
    let files = vec![
        ("b.mp3".to_string(), 2u64),
        ("notes.txt".to_string(), 1),
        ("a.wav".to_string(), 3),
    ];
    let audio = sort_by_name(audio_only(files));
    let names: Vec<&str> = audio.iter().map(|f| f.0.as_str()).collect();
    assert_eq!(names, vec!["a.wav", "b.mp3"]);
    let listed = media_list_json(&audio);
    let first = &listed.as_array().unwrap()[0];
    assert_eq!(first.get_u64("size"), Some(3));
    assert_eq!(first.get_str("url").unwrap(), "/api/sonus/stream?name=a.wav");
}

#[test]
fn session_files_and_listings() {
    assert_eq!(session_file_id("12.jsonl"), Some(12));
    assert_eq!(session_file_id("+7.jsonl"), Some(7));
    assert_eq!(session_file_id("12.json"), None);
    assert_eq!(session_file_id(".jsonl"), None);
    assert_eq!(session_file_id("a.jsonl"), None);
    assert_eq!(session_file_id("99999999999999999999.jsonl"), None);
    assert_eq!(count_filled_lines("a\n\n  \nb\n"), 2);
    let history = vec![
        Message::Assistant { content: vec![ContentBlock::Text { text: "no".into() }] },
        Message::User { content: vec![ContentBlock::Thinking { thinking: "t".into(), signature: "s".into() }] },
        Message::User { content: vec![ContentBlock::Text { text: "first prompt".into() }] },
    ];
    assert_eq!(session_preview_text(&history), "first prompt");
    let e = session_entry(4, 100, "x\ny\n", &history).unwrap();
    assert_eq!(e.get_u64("message_count"), Some(2));
    assert_eq!(e.get_str("preview").unwrap(), "first prompt");
    assert!(session_entry(4, 100, "\n \n", &history).is_none());
    let sorted = sort_desc_by_key(vec![(1u64, "a"), (9, "b"), (5, "c"), (9, "d")]);
    assert_eq!(sorted, vec![(9, "b"), (9, "d"), (5, "c"), (1, "a")]);
    let counts = session_counts_json(&vec![(3, 10), (1, 2)]);
    assert_eq!(counts.as_array().unwrap()[0].get_u64("session_id"), Some(3));
}

#[test]
fn request_bodies() {
    assert_eq!(requested_mode(&obj(&[("mode", s(" yolo "))])), Ok("yolo".to_string()));
    assert_eq!(requested_mode(&obj(&[("mode", s("YOLO"))])), Err("unknown mode".to_string()));
    assert_eq!(requested_mode(&JsonValue::Null), Err("unknown mode".to_string()));
    assert_eq!(requested_key(&obj(&[("key", s("  "))])), Err("empty key".to_string()));
    assert_eq!(requested_key(&obj(&[("key", s(" sk "))])), Ok("sk".to_string()));
    assert_eq!(requested_keys(&obj(&[("oai", s("k2"))])), (None, Some("k2".to_string())));
    assert_eq!(requested_model(&obj(&[])), Err("empty model".to_string()));
    let change = backend_change(&obj(&[("backend", s(" Ollama ")), ("model", s("llama"))])).unwrap();
    assert_eq!(change.backend, "ollama");
    assert_eq!(change.model.as_deref(), Some("llama"));
    assert!(change.oai_base_url.is_none());
    assert_eq!(backend_change(&obj(&[])).unwrap_err(), "missing backend");
    assert_eq!(power_command(&obj(&[("action", s("shutdown"))])), Ok("poweroff".to_string()));
    assert_eq!(power_command(&obj(&[("action", s("halt"))])), Err("unknown action".to_string()));
    assert_eq!(soul_content(&obj(&[])), Err("missing content".to_string()));
    assert_eq!(soul_content(&obj(&[("content", s(""))])), Ok(String::new()));
    assert_eq!(session_message(&obj(&[("message", s(" hi "))])), Ok(" hi ".to_string()));
    assert_eq!(session_message(&obj(&[("message", s("  "))])), Err("missing message".to_string()));
    assert_eq!(speak_text(&obj(&[("text", s("hello"))])), Some("hello".to_string()));
    assert_eq!(butt_in_message(&obj(&[("message", s(" "))])), Some(" ".to_string()));
    assert_eq!(butt_in_message(&obj(&[])), None);
}

#[test]
fn shell_endpoint_refuses_denied_patterns() {
    assert_eq!(shell_command(&obj(&[])), Err("missing command".to_string()));
    assert_eq!(shell_command(&obj(&[("command", s(" mkfs.ext4 /dev/sda "))])), Err("command denied".to_string()));
    assert_eq!(shell_command(&obj(&[("command", s(" ls -l "))])), Ok("ls -l".to_string()));
}

#[test]
fn small_switches() {
    assert!(night_mode(Some("1")));
    assert!(night_mode(Some("true")));
    assert!(!night_mode(Some("yes")));
    assert!(!night_mode(None));
    assert!(token_accepted("", None));
    assert!(token_accepted("t", Some("t")));
    assert!(!token_accepted("t", Some("u")));
    assert!(!token_accepted("t", None));
    assert_eq!(recent_limits(None, None), (24, 500));
    assert_eq!(recent_limits(Some(500), Some(5000)), (168, 2000));
    assert_eq!(gateway_council_id(3), "gw3");
    assert_eq!(models_url("http://h/v1//"), "http://h/v1/models");
}

#[test]
fn transcripts_join_kept_lines() {
    assert_eq!(transcript_text(" hello \n\n world\r\n", false), "hello world");
    assert_eq!(transcript_text("[BLANK_AUDIO]\nhi\n", true), "hi");
    assert_eq!(transcript_text("[BLANK_AUDIO]\nhi\n", false), "[BLANK_AUDIO] hi");
    assert_eq!(transcript_text("", true), "");
}

#[test]
fn socket_frames_resume_or_stamp() {
    let mut histories: HashMap<u64, Vec<Message>> = HashMap::new();
    histories.insert(42, vec![Message::user_text("old".into())]);
    let mut sid = 5u64;
    let hello = obj(&[("type", s("hello")), ("resume_session", JsonValue::uint(42))]);
    match on_socket_frame(&mut sid, hello, &histories) {
        FrameAction::Init { session_id, history } => {
            assert_eq!(session_id, 42);
            assert_eq!(history.len(), 1);
        },
        other => panic!("unexpected {:?}", other),
    }
    assert_eq!(sid, 42);
    let unknown = obj(&[("type", s("hello")), ("resume_session", JsonValue::uint(7))]);
    match on_socket_frame(&mut sid, unknown, &histories) {
        FrameAction::Init { session_id, history } => {
            assert_eq!(session_id, 42);
            assert!(history.is_empty());
        },
        other => panic!("unexpected {:?}", other),
    }
    let prompt = obj(&[("type", s("user_prompt")), ("session", JsonValue::uint(1)), ("text", s("hi"))]);
    match on_socket_frame(&mut sid, prompt, &histories) {
        FrameAction::Emit(f) => {
            assert_eq!(f.get_u64("session"), Some(42));
            assert_eq!(f.get_str("text").unwrap(), "hi");
        },
        other => panic!("unexpected {:?}", other),
    }
    let init = make_session_init(9, &histories[&42]);
    assert_eq!(init.get_str("type").unwrap(), "session_init");
    assert_eq!(init.get_u64("session_id"), Some(9));
    let h = init.get("history").unwrap().as_array().unwrap();
    assert_eq!(h[0].get_str("role").unwrap(), "user");
    let block = &h[0].get("content").unwrap().as_array().unwrap()[0];
    assert_eq!(block.get_str("type").unwrap(), "text");
    assert_eq!(block.get_str("text").unwrap(), "old");
}

#[test]
fn policy_rules_and_models() {
    let engine = PolicyEngine::new(PolicyConfig {
        mode: Mode::Suggest,
        rules: vec![("fs.read".into(), Rule::Allow), ("fs.write".into(), Rule::Workspace)],
        ..Default::default()
    });
    let r = policy_rules_json(&engine);
    let rules = r.get("rules").unwrap();
    assert_eq!(rules.get_str("fs.read").unwrap(), "allow");
    assert_eq!(rules.get_str("fs.write").unwrap(), "workspace");
    let catalogue = vec![("m-a".to_string(), "Model A".to_string()), ("m-b".to_string(), "Model B".to_string())];
    let a = anthropic_models_reply("anthropic", "m-a", &catalogue);
    let listed = a.get("models").unwrap().as_array().unwrap();
    assert_eq!(listed.len(), 2);
    assert_eq!(listed[1].get_str("name").unwrap(), "Model B");
    let listing = obj(&[(
        "data",
        JsonValue::array(vec![obj(&[("id", s("m1"))]), obj(&[("name", s("x"))]), obj(&[("id", s("m2"))])]),
    )]);
    let o = oai_models_reply("ollama", "http://h", "m0", Some(&listing));
    let models = o.get("models").unwrap().as_array().unwrap();
    assert_eq!(models.len(), 2);
    assert_eq!(models[1].get_str("name").unwrap(), "m2");
    let fallback = oai_models_reply("ollama", "http://h", "m0", None);
    let models = fallback.get("models").unwrap().as_array().unwrap();
    assert_eq!(models[0].get_str("id").unwrap(), "m0");
    let body = council_start_body(obj(&[("topic", s("t"))]), "gw1");
    assert_eq!(body.get_str("council_id").unwrap(), "gw1");
    assert_eq!(body.get_str("topic").unwrap(), "t");
}

fn form_decode(e: &str) -> String {
    let b: Vec<char> = e.chars().collect();
    let mut out = String::new();
    let mut i = 0;
    while i < b.len() {
        if b[i] == '+' {
            out.push(' ');
            i += 1;
        } else if b[i] == '%' && i + 2 < b.len() && b[i + 1].is_ascii_hexdigit() && b[i + 2].is_ascii_hexdigit() {
            let v = u32::from_str_radix(&format!("{}{}", b[i + 1], b[i + 2]), 16).unwrap();
            out.push(char::from_u32(v).unwrap());
            i += 3;
        } else {
            out.push(b[i]);
            i += 1;
        }
    }
    out
}

#[test]
fn url_encoding_reads_back() {
    for name in ["My Song (live) #2.mp3", "a&b/c?d=e%f+g", "\t~ok~\n"] {
        let enc = urlencoding_simple(name);
        assert!(enc.is_ascii());
        assert_eq!(form_decode(&enc), name);
    }
    assert!(urlencoding_simple("é").is_ascii());
}
