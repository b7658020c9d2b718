//! What the bot remembers: how a user is greeted and voiced, which voices
//! there are, and how words of the user dictionary are to be read.

use vstd::prelude::*;
use vstd::string::StringExecFns;

verus! {

/// How one user is greeted, named and voiced.
#[derive(Debug)]
pub struct UserConfig {
    pub user_id: i64,
    pub hello: String,
    pub bye: String,
    pub voice_type: i64,
    pub generator_type: i64,
    pub read_nickname: Option<String>,
}

impl UserConfig {
    /// The settings of a user who has chosen none yet.
    pub fn from_user_id(user_id: i64) -> (config: Self)
        ensures
            config.user_id == user_id,
            config.hello@ == "こんにちは"@,
            config.bye@ == "ばいばい"@,
            config.voice_type == 1,
            config.generator_type == 0,
            config.read_nickname is None,
    {
        UserConfig {
            user_id,
            hello: String::from_str("こんにちは"),
            bye: String::from_str("ばいばい"),
            voice_type: 1,
            generator_type: 0,
            read_nickname: None,
        }
    }
}

/// One voice of one speech generator.
#[derive(Debug, Clone)]
pub struct VoiceType {
    pub name: String,
    pub style_id: u64,
    pub style_name: String,
    pub generator_type: i64,
}

/// An entry of the user dictionary: `word` is to be read as `read_word`.
#[derive(Debug)]
pub struct Dict {
    pub word: String,
    pub read_word: String,
}

/// One way of speaking that a speaker of a speech generator offers.
#[derive(Debug)]
pub struct Style {
    pub name: String,
    pub id: u64,
}

/// A speaker of a speech generator, with the ways of speaking it offers.
#[derive(Debug)]
pub struct Speaker {
    pub name: String,
    pub styles: Vec<Style>,
}

/// The voice that `style` of `speaker` is, on the generator `generator_type`.
pub open spec fn voice_of(speaker: Speaker, style: Style, generator_type: i64) -> VoiceType {
    VoiceType {
        name: speaker.name,
        style_id: style.id,
        style_name: style.name,
        generator_type,
    }
}

/// The voices of the first `upto` styles of `speaker`.
pub open spec fn speaker_voices(speaker: Speaker, upto: int, generator_type: i64) -> Seq<VoiceType>
    decreases upto,
{
    if upto <= 0 {
        Seq::empty()
    } else {
        speaker_voices(speaker, upto - 1, generator_type).push(
            voice_of(speaker, speaker.styles[upto - 1], generator_type),
        )
    }
}

/// The voices of `speakers`: speaker by speaker, each with its styles in order.
pub open spec fn voices_of(speakers: Seq<Speaker>, generator_type: i64) -> Seq<VoiceType>
    decreases speakers.len(),
{
    if speakers.len() == 0 {
        Seq::empty()
    } else {
        voices_of(speakers.drop_last(), generator_type) + speaker_voices(
            speakers.last(),
            speakers.last().styles.len() as int,
            generator_type,
        )
    }
}

/// Lists the voices that the speakers of one generator offer.
pub fn voice_types_of(speakers: &Vec<Speaker>, generator_type: i64) -> (voices: Vec<VoiceType>)
    ensures
        voices@ == voices_of(speakers@, generator_type),
{
    let mut voices: Vec<VoiceType> = Vec::new();
    let mut i: usize = 0;
    while i < speakers.len()
        invariant
            i <= speakers.len(),
            voices@ == voices_of(speakers@.take(i as int), generator_type),
        decreases speakers.len() - i,
    {
        let speaker = &speakers[i];
        let ghost before = voices@;
        let mut j: usize = 0;
        while j < speaker.styles.len()
            invariant
                j <= speaker.styles.len(),
                voices@ == before + speaker_voices(*speaker, j as int, generator_type),
            decreases speaker.styles.len() - j,
        {
            let style = &speaker.styles[j];
            voices.push(
                VoiceType {
                    name: speaker.name.clone(),
                    style_id: style.id,
                    style_name: style.name.clone(),
                    generator_type,
                },
            );
            j += 1;
        }
        proof {
            assert(speakers@.take(i + 1).drop_last() =~= speakers@.take(i as int));
            assert(speakers@.take(i + 1).last() == *speaker);
        }
        i += 1;
    }
    proof {
        assert(speakers@.take(speakers.len() as int) =~= speakers@);
    }
    voices
}

/// How many voices one menu offers at most.
pub const MENU_SIZE: usize = 25;

/// A line of a menu of voices: what it shows and the number it stands for.
#[derive(Debug)]
pub struct MenuOption {
    pub label: String,
    pub value: usize,
}

/// What a menu shows for `voice`: the speaker's name, a blank, the style's name.
pub open spec fn menu_label(voice: VoiceType) -> Seq<char> {
    voice.name@ + " "@ + voice.style_name@
}

/// `menus` offers the voices `voices` in order, `MENU_SIZE` to a menu and
/// the rest in the last one; each line stands for the place of its voice.
pub open spec fn is_menu_of(menus: Seq<Vec<MenuOption>>, voices: Seq<VoiceType>) -> bool {
    &&& menus.len() * MENU_SIZE >= voices.len() > (menus.len() - 1) * MENU_SIZE
    &&& forall|m: int|
        0 <= m < menus.len() ==> (#[trigger] menus[m]).len() == if m + 1 < menus.len() {
            MENU_SIZE as int
        } else {
            voices.len() - m * MENU_SIZE
        }
    &&& forall|m: int, k: int|
        0 <= m < menus.len() && 0 <= k < menus[m].len() ==> {
            &&& (#[trigger] menus[m][k]).value == m * MENU_SIZE + k
            &&& menus[m][k].label@ == menu_label(voices[m * MENU_SIZE + k])
        }
}

/// Lays the voices out in menus of `MENU_SIZE` lines.
pub fn voice_menus(voices: &Vec<VoiceType>) -> (menus: Vec<Vec<MenuOption>>)
    ensures
        is_menu_of(menus@, voices@),
{
    let mut menus: Vec<Vec<MenuOption>> = Vec::new();
    let mut menu: Vec<MenuOption> = Vec::new();
    let mut i: usize = 0;
    while i < voices.len()
        invariant
            i <= voices.len(),
            menu.len() < MENU_SIZE,
            i == menus.len() * MENU_SIZE + menu.len(),
            forall|m: int| 0 <= m < menus.len() ==> (#[trigger] menus[m]).len() == MENU_SIZE,
            forall|m: int, k: int|
                0 <= m < menus.len() && 0 <= k < menus[m].len() ==> {
                    &&& (#[trigger] menus[m][k]).value == m * MENU_SIZE + k
                    &&& menus[m][k].label@ == menu_label(voices[m * MENU_SIZE + k])
                },
            forall|k: int|
                0 <= k < menu.len() ==> {
                    &&& (#[trigger] menu[k]).value == menus.len() * MENU_SIZE + k
                    &&& menu[k].label@ == menu_label(voices[menus.len() * MENU_SIZE + k])
                },
        decreases voices.len() - i,
    {
        let voice = &voices[i];
        let label = voice.name.clone().concat(" ").concat(voice.style_name.as_str());
        menu.push(MenuOption { label, value: i });
        i += 1;
        if menu.len() == MENU_SIZE {
            menus.push(menu);
            menu = Vec::new();
        }
    }
    if menu.len() > 0 {
        menus.push(menu);
    }
    menus
}

/// Makes `voice` the voice of the user of `config`.
pub fn choose_voice(config: &mut UserConfig, voice: &VoiceType)
    ensures
        final(config).generator_type == voice.generator_type,
        final(config).voice_type == voice.style_id as i64,
        final(config).user_id == old(config).user_id,
        final(config).hello == old(config).hello,
        final(config).bye == old(config).bye,
        final(config).read_nickname == old(config).read_nickname,
{
    config.generator_type = voice.generator_type;
    config.voice_type = #[verifier::truncate]
    (voice.style_id as i64);
}

} // verus!
