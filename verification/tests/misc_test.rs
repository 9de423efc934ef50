use bongo_cat::config::{TTSConfig, VoiceConfig};
use bongo_cat::keyed::{KeyedList, StringMap};
use bongo_cat::model3d::{add_motion, remove_model, Model3DInfo};
use bongo_cat::text::split_whitespace;
use bongo_cat::tts::{
    archive_file_name, archive_file_name_with, audio_url, check_speak_request, emotion_text, file_url, filter_emotions,
    get_tts_replay_paths, resolve_voice, TTSAudioFile, TTSMeta, TtsFileData, SPEED_ONE_BITS,
};
use bongo_cat::window::{
    chat_window_position, find_monitor_at_point, sync_target, windows_to_lower, MonitorArea, WindowFollower,
    WindowPosition,
};

#[test]
fn a_read_gives_back_what_was_written() {
    let mut m: StringMap = KeyedList::new();
    assert!(m.is_empty());
    m.insert("a".to_string(), "1".to_string());
    m.insert("b".to_string(), "2".to_string());
    m.insert("a".to_string(), "3".to_string());
    assert_eq!(m.len(), 2);
    assert_eq!(m.get("a"), Some(&"3".to_string()));
    assert_eq!(m.get("b"), Some(&"2".to_string()));
    assert_eq!(m.position("b"), Some(1));
    assert!(m.remove("a"));
    assert_eq!(m.get("a"), None);
    assert_eq!(m.get("b"), Some(&"2".to_string()));
    assert!(!m.remove("a"));
    assert!(!m.contains_key("a"));
    assert!(m.contains_key("b"));
}

#[test]
fn each_key_is_held_once() {
    let mut m: KeyedList<i32> = KeyedList::new();
    for (i, k) in ["x", "y", "x", "z", "y", "x"].iter().enumerate() {
        m.insert(k.to_string(), i as i32);
    }
    let keys: Vec<&str> = m.entries.iter().map(|(k, _)| k.as_str()).collect();
    assert_eq!(keys, vec!["x", "y", "z"]);
    assert_eq!(m.get("x"), Some(&5));
    m.remove("y");
    assert_eq!(m.len(), 2);
}

#[test]
fn words_are_split_on_white_space() {
    assert_eq!(split_whitespace("  a bc\t d\n"), vec!["a".to_string(), "bc".to_string(), "d".to_string()]);
    assert!(split_whitespace("   ").is_empty());
}

fn area(x: i32, y: i32, w: u32, h: u32) -> MonitorArea {
    MonitorArea { x, y, width: w, height: h }
}

#[test]
fn the_monitor_under_a_point_is_found() {
    let monitors = [area(0, 0, 1920, 1080), area(1920, 0, 1280, 1024)];
    assert_eq!(find_monitor_at_point(&monitors, 2000, 10).map(|m| m.x), Some(1920));
    assert_eq!(find_monitor_at_point(&monitors, 10, 10).map(|m| m.x), Some(0));
    assert!(find_monitor_at_point(&monitors, 5000, 10).is_none());
    assert_eq!(find_monitor_at_point(&monitors, 1920, 0).map(|m| m.x), Some(1920));
}

#[test]
fn chat_window_goes_below_or_above_and_stays_on_screen() {
    let screen = area(0, 0, 1920, 1080);
    let main = WindowPosition { x: 100, y: 100, width: 200, height: 200 };
    assert_eq!(chat_window_position(main, 300, 400, screen), (50, 312));
    let low = WindowPosition { x: 100, y: 800, width: 200, height: 200 };
    assert_eq!(chat_window_position(low, 300, 400, screen), (50, 388));
    let corner = WindowPosition { x: -100, y: 1000, width: 50, height: 50 };
    let (x, y) = chat_window_position(corner, 300, 400, screen);
    assert_eq!((x, y), (0, 588));
    let right = WindowPosition { x: 1900, y: 0, width: 100, height: 100 };
    let (x2, _) = chat_window_position(right, 300, 400, screen);
    assert_eq!(x2, 1620);
}

#[test]
fn activating_a_window_lowers_the_others() {
    assert_eq!(windows_to_lower("chat"), vec!["preference".to_string(), "comprehensive_function".to_string()]);
    assert_eq!(windows_to_lower("main").len(), 3);
}

#[test]
fn following_state() {
    let mut f = WindowFollower::default();
    assert!(!f.should_sync());
    f.enable_follow();
    assert!(!f.should_sync());
    f.set_chat_visible(true);
    assert!(f.should_sync());
    assert!(!f.toggle_chat(true));
    assert!(!f.enabled && !f.chat_visible);
    assert!(f.toggle_chat(false));
    assert!(f.enabled && f.chat_visible);
}

#[test]
fn speaking_needs_speech_on_and_text() {
    assert_eq!(check_speak_request(false, "x").err(), Some("TTS is disabled".to_string()));
    assert_eq!(check_speak_request(true, "").err(), Some("Text is empty".to_string()));
    assert!(check_speak_request(true, "x").is_ok());
}

#[test]
fn voices_are_chosen_in_order() {
    let mut tts = TTSConfig::default();
    let p = resolve_voice(&tts, None);
    assert_eq!(p.speaker, "苏瑶");
    assert_eq!(p.emo, "高兴.wav");
    assert_eq!(p.emo_method, "使用情感描述文本控制");
    assert_eq!(p.speed_bits, SPEED_ONE_BITS);
    tts.save_voice(
        "v1".to_string(),
        VoiceConfig { speaker: "A".to_string(), emo: "平静.wav".to_string(), emo_method: None, speed_bits: Some(1.5f32.to_bits()) },
    );
    let q = resolve_voice(&tts, Some("v1"));
    assert_eq!(q.speaker, "A");
    assert_eq!(f32::from_bits(q.speed_bits), 1.5);
    let r = resolve_voice(&tts, Some("unknown"));
    assert_eq!(r.speaker, "苏瑶");
}

#[test]
fn a_saved_voice_is_read_back_and_can_be_deleted() {
    let mut tts = TTSConfig::default();
    assert_eq!(tts.get_voice_config("x").err(), Some("Voice 'x' not found".to_string()));
    let default_voice = tts.get_voice_config("suyao").ok().unwrap();
    assert_eq!(default_voice.speaker, "");
    tts.save_voice(
        "x".to_string(),
        VoiceConfig { speaker: "S".to_string(), emo: "E".to_string(), emo_method: Some("M".to_string()), speed_bits: None },
    );
    let v = tts.get_voice_config("x").ok().unwrap();
    assert_eq!(v.speaker, "S");
    assert_eq!(v.emo_method, Some("M".to_string()));
    assert!(tts.delete_voice("x").is_ok());
    assert!(tts.get_voice_config("x").is_err());
    assert_eq!(tts.delete_voice("suyao").err(), Some("Cannot delete the default voice".to_string()));
}

#[test]
fn emotion_files_lose_their_extension() {
    assert_eq!(emotion_text("高兴.wav"), "高兴");
    assert_eq!(emotion_text("a.wavb.wav"), "ab");
    assert_eq!(emotion_text("plain"), "plain");
    assert_eq!(
        filter_emotions(vec!["请选择情绪".to_string(), "高兴".to_string()]),
        vec!["高兴".to_string()]
    );
}

#[test]
fn the_audio_address_comes_from_the_answer() {
    let with_path = Some(Some(TtsFileData { path: Some("/tmp/a.wav".to_string()), url: None }));
    assert_eq!(audio_url("http://h:9880//", with_path).ok(), Some("http://h:9880/file=/tmp/a.wav".to_string()));
    let with_url = Some(Some(TtsFileData { path: Some("p".to_string()), url: Some("http://u".to_string()) }));
    assert_eq!(audio_url("http://h", with_url).ok(), Some("http://u".to_string()));
    assert_eq!(audio_url("http://h", None).err(), Some("No output in response".to_string()));
    assert_eq!(audio_url("http://h", Some(None)).err(), Some("No output_1 in response".to_string()));
    let empty = Some(Some(TtsFileData { path: None, url: None }));
    assert_eq!(audio_url("http://h", empty).err(), Some("No audio URL or path in response".to_string()));
}

#[test]
fn archive_names_and_replay_paths() {
    assert_eq!(archive_file_name(&Some("msg".to_string()), Some(7)), "msg_007.wav");
    let fresh = archive_file_name(&None, Some(7));
    assert_eq!(fresh.len(), 40);
    assert!(fresh.ends_with(".wav"));
    assert_eq!(fresh.as_bytes()[8], b'-');
    assert_ne!(fresh, archive_file_name(&Some("m".to_string()), None));
    assert_eq!(file_url("/a/b.wav"), "file:///a/b.wav");
    let meta = TTSMeta {
        audio_files: vec![
            TTSAudioFile { seq: 0, path: "/x/0.wav".to_string(), text: "a".to_string() },
            TTSAudioFile { seq: 1, path: "/x/1.wav".to_string(), text: "b".to_string() },
        ],
    };
    assert_eq!(
        get_tts_replay_paths(Some(meta)).ok(),
        Some(vec!["file:///x/0.wav".to_string(), "file:///x/1.wav".to_string()])
    );
    assert_eq!(get_tts_replay_paths(None).err(), Some("No TTS meta found for this message".to_string()));
}

fn model(id: &str) -> Model3DInfo {
    Model3DInfo {
        id: id.to_string(),
        name: format!("model {}", id),
        pmx_path: format!("/models/{}/model.pmx", id),
        motions: KeyedList::new(),
        added_at: "2024-03-08 10:00:00".to_string(),
    }
}

#[test]
fn models_are_removed_and_given_motions() {
    let mut models = vec![model("a"), model("b"), model("a")];
    add_motion(&mut models, "a", "wave".to_string(), "/m/wave.vmd".to_string());
    assert_eq!(models[0].motions.get("wave"), Some(&"/m/wave.vmd".to_string()));
    assert!(models[2].motions.get("wave").is_none());
    add_motion(&mut models, "zzz", "x".to_string(), "y".to_string());
    assert_eq!(models.len(), 3);
    remove_model(&mut models, "a");
    assert_eq!(models.len(), 1);
    assert_eq!(models[0].id, "b");
}

#[test]
fn the_chat_window_follows_only_when_shown_and_followed() {
    let main = WindowPosition { x: 100, y: 100, width: 200, height: 200 };
    let screens = [area(0, 0, 1920, 1080), area(1920, 0, 1280, 1024)];
    let mut f = WindowFollower::new();
    assert_eq!(sync_target(&f, main, 300, 400, &screens, None), Ok(None));
    f.enable_follow();
    f.set_chat_visible(true);
    assert_eq!(sync_target(&f, main, 300, 400, &screens, None), Ok(Some((50, 312))));
    let right = WindowPosition { x: 2000, y: 100, width: 200, height: 200 };
    assert_eq!(sync_target(&f, right, 300, 400, &screens, None), Ok(Some((1950, 312))));
    let lost = WindowPosition { x: 9000, y: 100, width: 200, height: 200 };
    assert_eq!(sync_target(&f, lost, 300, 400, &screens, Some(screens[1])), Ok(Some((2900, 312))));
    assert_eq!(sync_target(&f, lost, 300, 400, &screens, None), Ok(Some((1620, 312))));
    assert_eq!(sync_target(&f, lost, 300, 400, &[], None), Err("No monitor available".to_string()));
}

#[test]
fn archive_names_use_the_given_id_when_needed() {
    assert_eq!(archive_file_name_with(&Some("m".to_string()), Some(12), "u"), "m_012.wav");
    assert_eq!(archive_file_name_with(&Some("m".to_string()), None, "u"), "u.wav");
    assert_eq!(archive_file_name_with(&None, Some(3), "u"), "u.wav");
    assert_eq!(archive_file_name_with(&Some("m".to_string()), Some(1234), "u"), "m_1234.wav");
}
