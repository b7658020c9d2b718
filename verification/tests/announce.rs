use read_text::announce::{
    greeting, greeting_text, read_name, should_read, speakable, voice_state_reaction,
    with_read_name, Greeting, Reaction, VoiceState,
};
use read_text::member::pick_index;
use read_text::settings::{
    choose_voice, voice_menus, voice_types_of, Speaker, Style, UserConfig, VoiceType, MENU_SIZE,
};

fn at(channel: u64) -> VoiceState {
    VoiceState { channel_id: Some(channel) }
}

fn nowhere() -> VoiceState {
    VoiceState { channel_id: None }
}

#[test]
fn name_is_put_before_the_text() {
    let name = "たろう".to_string();
    assert_eq!(with_read_name(Some(&name), "こんにちは".to_string()), "たろう こんにちは");
    assert_eq!(with_read_name(None, "こんにちは".to_string()), "こんにちは");
    assert_eq!(with_read_name(Some(&name), String::new()), "たろう ");
}

#[test]
fn marks_alone_are_not_read() {
    for text in ["", " ", "!?", "……", "、。", "( ^_^ )", "♪"] {
        assert_eq!(speakable(text.to_string()), "", "{:?}", text);
    }
}

#[test]
fn text_with_a_letter_or_a_number_is_read() {
    for text in ["a", "!?1", "あ", "漢", "ハロー ワールドゥ", "…え？", "٣"] {
        assert_eq!(speakable(text.to_string()), text, "{:?}", text);
    }
}

#[test]
fn member_who_comes_is_greeted() {
    assert_eq!(greeting(&None, &at(7), 7), Some(Greeting::Hello));
    assert_eq!(greeting(&Some(nowhere()), &at(7), 7), Some(Greeting::Hello));
    assert_eq!(greeting(&Some(at(3)), &at(7), 7), Some(Greeting::Hello));
}

#[test]
fn member_who_goes_is_seen_off() {
    assert_eq!(greeting(&Some(at(7)), &nowhere(), 7), Some(Greeting::Bye));
    assert_eq!(greeting(&Some(at(7)), &at(3), 7), Some(Greeting::Bye));
}

#[test]
fn member_who_stays_or_is_elsewhere_is_not_greeted() {
    assert_eq!(greeting(&Some(at(7)), &at(7), 7), None);
    assert_eq!(greeting(&Some(at(3)), &at(4), 7), None);
    assert_eq!(greeting(&Some(at(3)), &nowhere(), 7), None);
    assert_eq!(greeting(&None, &at(3), 7), None);
    assert_eq!(greeting(&None, &nowhere(), 7), None);
    assert_eq!(greeting(&Some(nowhere()), &nowhere(), 7), None);
}

#[test]
fn bot_leaves_when_nobody_listens() {
    assert_eq!(voice_state_reaction(0, false, &Some(at(7)), &nowhere(), 7), Reaction::Leave);
    assert_eq!(voice_state_reaction(0, true, &None, &at(7), 7), Reaction::Leave);
}

#[test]
fn bot_does_not_greet_itself() {
    assert_eq!(voice_state_reaction(2, true, &None, &at(7), 7), Reaction::Nothing);
}

#[test]
fn bot_greets_the_others() {
    assert_eq!(
        voice_state_reaction(1, false, &None, &at(7), 7),
        Reaction::Greet(Greeting::Hello)
    );
    assert_eq!(
        voice_state_reaction(1, false, &Some(at(7)), &nowhere(), 7),
        Reaction::Greet(Greeting::Bye)
    );
    assert_eq!(voice_state_reaction(1, false, &Some(at(7)), &at(7), 7), Reaction::Nothing);
}

#[test]
fn greeting_names_the_user_as_chosen() {
    let mut config = UserConfig::from_user_id(1);
    assert_eq!(read_name(&config, "account"), "account");
    assert_eq!(greeting_text(&config, "account", Greeting::Hello), "accountさん、こんにちは");
    assert_eq!(greeting_text(&config, "account", Greeting::Bye), "accountさん、ばいばい");
    config.read_nickname = Some("たろう".to_string());
    config.hello = "やあ".to_string();
    assert_eq!(read_name(&config, "account"), "たろう");
    assert_eq!(greeting_text(&config, "account", Greeting::Hello), "たろうさん、やあ");
}

#[test]
fn message_is_read_in_the_read_channel_only() {
    assert!(should_read(Some(5), 5, true, false));
    assert!(!should_read(Some(5), 6, true, false));
    assert!(!should_read(None, 5, true, false));
    assert!(!should_read(Some(5), 5, false, false));
    assert!(!should_read(Some(5), 5, true, true));
}

fn speaker(name: &str, styles: &[(&str, u64)]) -> Speaker {
    Speaker {
        name: name.to_string(),
        styles: styles.iter().map(|(n, id)| Style { name: n.to_string(), id: *id }).collect(),
    }
}

#[test]
fn voices_are_listed_speaker_by_speaker() {
    let speakers = vec![
        speaker("めたん", &[("ノーマル", 2), ("あまあま", 0)]),
        speaker("だれか", &[]),
        speaker("ずんだもん", &[("ノーマル", 3)]),
    ];
    let voices = voice_types_of(&speakers, 4);
    let seen: Vec<(&str, u64, &str, i64)> = voices
        .iter()
        .map(|v| (v.name.as_str(), v.style_id, v.style_name.as_str(), v.generator_type))
        .collect();
    assert_eq!(
        seen,
        vec![
            ("めたん", 2, "ノーマル", 4),
            ("めたん", 0, "あまあま", 4),
            ("ずんだもん", 3, "ノーマル", 4),
        ]
    );
    assert!(voice_types_of(&vec![], 0).is_empty());
}

fn voices(n: usize) -> Vec<VoiceType> {
    (0..n)
        .map(|i| VoiceType {
            name: format!("s{}", i),
            style_id: i as u64,
            style_name: format!("t{}", i),
            generator_type: 0,
        })
        .collect()
}

#[test]
fn menus_hold_twenty_five_voices_each() {
    assert_eq!(MENU_SIZE, 25);
    for (n, sizes) in [
        (0, vec![]),
        (1, vec![1]),
        (25, vec![25]),
        (26, vec![25, 1]),
        (60, vec![25, 25, 10]),
    ] {
        let menus = voice_menus(&voices(n));
        let got: Vec<usize> = menus.iter().map(|m| m.len()).collect();
        assert_eq!(got, sizes);
    }
}

#[test]
fn menu_lines_stand_for_the_place_of_their_voice() {
    let menus = voice_menus(&voices(30));
    assert_eq!(menus[0][0].value, 0);
    assert_eq!(menus[0][0].label, "s0 t0");
    assert_eq!(menus[0][24].value, 24);
    assert_eq!(menus[1][0].value, 25);
    assert_eq!(menus[1][4].value, 29);
    assert_eq!(menus[1][4].label, "s29 t29");
}

#[test]
fn chosen_voice_is_kept_in_the_settings() {
    let mut config = UserConfig::from_user_id(9);
    config.read_nickname = Some("n".to_string());
    let voice = VoiceType {
        name: "s".to_string(),
        style_id: 14,
        style_name: "t".to_string(),
        generator_type: 2,
    };
    choose_voice(&mut config, &voice);
    assert_eq!(config.voice_type, 14);
    assert_eq!(config.generator_type, 2);
    assert_eq!(config.user_id, 9);
    assert_eq!(config.hello, "こんにちは");
    assert_eq!(config.bye, "ばいばい");
    assert_eq!(config.read_nickname, Some("n".to_string()));
}

#[test]
fn chosen_voice_with_a_huge_number_wraps() {
    let mut config = UserConfig::from_user_id(9);
    let voice = VoiceType {
        name: "s".to_string(),
        style_id: u64::MAX,
        style_name: "t".to_string(),
        generator_type: 0,
    };
    choose_voice(&mut config, &voice);
    assert_eq!(config.voice_type, -1);
}

#[test]
fn member_is_picked_by_the_remainder() {
    assert_eq!(pick_index(7, 3), 1);
    assert_eq!(pick_index(0, 1), 0);
    assert_eq!(pick_index(usize::MAX, 10), usize::MAX % 10);
}
