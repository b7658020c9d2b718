//! What the bot says, and when: messages of the channel it reads, and
//! greetings for those who come and go.

use vstd::prelude::*;
use vstd::string::StringExecFns;
use crate::charset::to_chars;
use crate::settings::UserConfig;

verus! {

/// What `char::is_alphanumeric` says of `c`: a letter or a number of Unicode.
pub uninterp spec fn alphanumeric(c: char) -> bool;

/// `char::is_alphanumeric` looks `c` up in the tables of Unicode.
pub assume_specification[ char::is_alphanumeric ](c: char) -> (b: bool)
    ensures
        b == alphanumeric(c),
;

/// `text` behind the name of its sender, where the name is read out.
pub open spec fn named(read_name: Option<Seq<char>>, text: Seq<char>) -> Seq<char> {
    match read_name {
        Some(name) => name + " "@ + text,
        None => text,
    }
}

/// Puts the name of the sender and a blank before `text`, where a name is given.
pub fn with_read_name(read_name: Option<&String>, text: String) -> (out: String)
    ensures
        out@ == named(
            match read_name {
                Some(name) => Some(name@),
                None => None,
            },
            text@,
        ),
{
    match read_name {
        Some(name) => name.clone().concat(" ").concat(text.as_str()),
        None => text,
    }
}

/// There is something in `text` to read aloud: a letter or a number.
pub open spec fn has_sound(text: Seq<char>) -> bool {
    exists|i: int| 0 <= i < text.len() && alphanumeric(#[trigger] text[i])
}

/// Hands `text` on where it holds a letter or a number, and the empty text
/// where it holds none: marks alone are not read aloud.
pub fn speakable(text: String) -> (out: String)
    ensures
        out@ == (if has_sound(text@) {
            text@
        } else {
            Seq::<char>::empty()
        }),
{
    let s = to_chars(text.as_str());
    let mut i: usize = 0;
    while i < s.len()
        invariant
            i <= s.len(),
            s@ == text@,
            forall|k: int| 0 <= k < i ==> !alphanumeric(#[trigger] text@[k]),
        decreases s.len() - i,
    {
        if s[i].is_alphanumeric() {
            return text;
        }
        i += 1;
    }
    String::new()
}

/// A voice channel as a member is in it, or none.
pub struct VoiceState {
    pub channel_id: Option<u64>,
}

/// The two greetings.
#[derive(Debug, Clone, Copy, PartialEq, Eq, Structural)]
pub enum Greeting {
    Hello,
    Bye,
}

/// What the bot does when a member's voice state has changed.
#[derive(Debug, Clone, Copy, PartialEq, Eq, Structural)]
pub enum Reaction {
    /// Leave the voice channel: nobody is left to listen.
    Leave,
    /// Greet the member.
    Greet(Greeting),
    /// Stay silent.
    Nothing,
}

/// The greeting that a change from `old` to `new` calls for, where the bot
/// sits in `bot_channel`: a goodbye to one who was in the bot's channel and
/// is in it no more, a hello to one who is in the bot's channel and was not
/// there before.
pub open spec fn greeting_for(old: Option<VoiceState>, new: VoiceState, bot_channel: u64) -> Option<
    Greeting,
> {
    if old is Some && new.channel_id != old->0.channel_id && old->0.channel_id == Some(
        bot_channel,
    ) {
        Some(Greeting::Bye)
    } else if new.channel_id == Some(bot_channel) && (old is None || old->0.channel_id != Some(
        bot_channel,
    )) {
        Some(Greeting::Hello)
    } else {
        None
    }
}

/// Tells whether `c` is the channel `id`.
fn is_channel(c: &Option<u64>, id: u64) -> (b: bool)
    ensures
        b == (*c == Some(id)),
{
    match c {
        Some(x) => *x == id,
        None => false,
    }
}

/// Tells whether `a` and `b` are the same channel, or both none.
fn same_channel(a: &Option<u64>, b: &Option<u64>) -> (r: bool)
    ensures
        r == (*a == *b),
{
    match (a, b) {
        (Some(x), Some(y)) => *x == *y,
        (None, None) => true,
        _ => false,
    }
}

/// Decides which greeting a change of a member's voice state calls for.
pub fn greeting(old: &Option<VoiceState>, new: &VoiceState, bot_channel: u64) -> (g: Option<
    Greeting,
>)
    ensures
        g == greeting_for(*old, *new, bot_channel),
{
    match old {
        Some(before) => {
            if !same_channel(&new.channel_id, &before.channel_id) && is_channel(
                &before.channel_id,
                bot_channel,
            ) {
                Some(Greeting::Bye)
            } else if is_channel(&new.channel_id, bot_channel) && !is_channel(
                &before.channel_id,
                bot_channel,
            ) {
                Some(Greeting::Hello)
            } else {
                None
            }
        },
        None => {
            if is_channel(&new.channel_id, bot_channel) {
                Some(Greeting::Hello)
            } else {
                None
            }
        },
    }
}

/// What a change of a member's voice state calls for: with no `listeners`
/// left in the bot's channel the bot leaves; its own changes it passes
/// over; any other member is greeted as `greeting_for` says.
pub open spec fn reaction_to(
    listeners: usize,
    by_bot: bool,
    old: Option<VoiceState>,
    new: VoiceState,
    bot_channel: u64,
) -> Reaction {
    if listeners == 0 {
        Reaction::Leave
    } else if by_bot {
        Reaction::Nothing
    } else {
        match greeting_for(old, new, bot_channel) {
            Some(g) => Reaction::Greet(g),
            None => Reaction::Nothing,
        }
    }
}

/// Decides what the bot does when a member's voice state has changed.
/// `listeners` counts the members in the bot's channel, the bot left out;
/// `by_bot` tells that the state is the bot's own.
pub fn voice_state_reaction(
    listeners: usize,
    by_bot: bool,
    old: &Option<VoiceState>,
    new: &VoiceState,
    bot_channel: u64,
) -> (r: Reaction)
    ensures
        r == reaction_to(listeners, by_bot, *old, *new, bot_channel),
{
    if listeners == 0 {
        Reaction::Leave
    } else if by_bot {
        Reaction::Nothing
    } else {
        match greeting(old, new, bot_channel) {
            Some(g) => Reaction::Greet(g),
            None => Reaction::Nothing,
        }
    }
}

/// The name that is read out for a user: the one they chose, else `name`.
pub open spec fn read_name_of(config: UserConfig, name: Seq<char>) -> Seq<char> {
    match config.read_nickname {
        Some(chosen) => chosen@,
        None => name,
    }
}

/// Gives the name that is read out for the user of `config`, whom the
/// guild knows as `name`.
pub fn read_name(config: &UserConfig, name: &str) -> (out: String)
    ensures
        out@ == read_name_of(*config, name@),
{
    match &config.read_nickname {
        Some(chosen) => chosen.clone(),
        None => String::from_str(name),
    }
}

/// The words of a greeting: the name that is read out, `さん、`, and the
/// user's own hello or goodbye.
pub open spec fn greeting_words(config: UserConfig, name: Seq<char>, greeting: Greeting) -> Seq<
    char,
> {
    read_name_of(config, name) + "さん、"@ + (match greeting {
        Greeting::Hello => config.hello@,
        Greeting::Bye => config.bye@,
    })
}

/// Words the greeting for the user of `config`, whom the guild knows as `name`.
pub fn greeting_text(config: &UserConfig, name: &str, greeting: Greeting) -> (out: String)
    ensures
        out@ == greeting_words(*config, name@, greeting),
{
    let words = match greeting {
        Greeting::Hello => config.hello.as_str(),
        Greeting::Bye => config.bye.as_str(),
    };
    read_name(config, name).concat("さん、").concat(words)
}

/// A message is read aloud where it was written in the channel that the
/// bot reads, the bot sits in a voice channel, and the bot did not write it.
pub fn should_read(read_channel: Option<u64>, text_channel: u64, in_voice: bool, by_bot: bool) -> (b:
    bool)
    ensures
        b == (read_channel == Some(text_channel) && in_voice && !by_bot),
{
    is_channel(&read_channel, text_channel) && in_voice && !by_bot
}

} // verus!
