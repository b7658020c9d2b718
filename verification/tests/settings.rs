use read_text::member::{get_display_name, Command, Member, User};
use read_text::settings::{UserConfig, VoiceType};
use read_text::voice::{VoiceVoxAPI, WebVoiceVoxAPI};

#[test]
fn new_user_has_the_usual_settings() {
    let config = UserConfig::from_user_id(42);
    assert_eq!(config.user_id, 42);
    assert_eq!(config.hello, "こんにちは");
    assert_eq!(config.bye, "ばいばい");
    assert_eq!(config.voice_type, 1);
    assert_eq!(config.generator_type, 0);
    assert_eq!(config.read_nickname, None);
}

#[test]
fn voice_type_can_be_copied() {
    let voice = VoiceType {
        name: "四国めたん".to_string(),
        style_id: 2,
        style_name: "ノーマル".to_string(),
        generator_type: 0,
    };
    let copy = voice.clone();
    assert_eq!(copy.name, voice.name);
    assert_eq!(copy.style_id, 2);
    assert_eq!(copy.style_name, voice.style_name);
    assert_eq!(copy.generator_type, 0);
}

#[test]
fn engine_knows_its_addresses() {
    let api = VoiceVoxAPI::new("http://localhost:50021".to_string(), 3);
    assert_eq!(api.voice_type(), 3);
    assert_eq!(api.audio_query_url(), "http://localhost:50021/audio_query");
    assert_eq!(api.synthesis_url(), "http://localhost:50021/synthesis");
}

#[test]
fn web_service_keeps_what_it_was_made_with() {
    let api = WebVoiceVoxAPI::new("https://example.com/audio/".to_string(), "key".to_string(), 8);
    assert_eq!(api.url(), "https://example.com/audio/");
    assert_eq!(api.api_key(), "key");
    assert_eq!(api.voice_type(), 8);
}

fn command(nick: Option<&str>) -> Command {
    Command {
        member: Some(Member {
            nick: nick.map(|n| n.to_string()),
            user: User { name: "account".to_string() },
        }),
        user: User { name: "account".to_string() },
    }
}

#[test]
fn display_name_is_the_nickname() {
    assert_eq!(get_display_name(&command(Some("あだな"))), "あだな");
}

#[test]
fn display_name_without_nickname_is_the_account_name() {
    assert_eq!(get_display_name(&command(None)), "account");
}
