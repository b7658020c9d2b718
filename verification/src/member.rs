//! Who sent a command, as far as naming them needs it.

use vstd::prelude::*;
use vstd::string::StringExecFns;

verus! {

/// An account of the chat platform.
pub struct User {
    pub name: String,
}

/// An account as a member of one guild, where it may go by a nickname.
pub struct Member {
    pub nick: Option<String>,
    pub user: User,
}

/// A command as it arrives: sent by `user`, who is `member` of the guild
/// where it was sent from a guild.
pub struct Command {
    pub member: Option<Member>,
    pub user: User,
}

/// The name a member goes by: the nickname in the guild, else the account's name.
pub open spec fn display_name(nick: Option<String>, name: Seq<char>) -> Seq<char> {
    match nick {
        Some(n) => n@,
        None => name,
    }
}

/// Gives the name that a member with the nickname `nick`, if any, and the
/// account name `name` goes by.
pub fn display_name_of(nick: &Option<String>, name: &str) -> (out: String)
    ensures
        out@ == display_name(*nick, name@),
{
    match nick {
        Some(n) => n.clone(),
        None => String::from_str(name),
    }
}

/// The name by which the sender of a command sent from a guild is addressed.
pub fn get_display_name(command: &Command) -> (name: String)
    requires
        command.member is Some,
    ensures
        name@ == display_name(command.member->0.nick, command.user.name@),
{
    match &command.member {
        Some(member) => display_name_of(&member.nick, command.user.name.as_str()),
        None => command.user.name.clone(),
    }
}

/// Picks one of `len` members by the number `random`.
pub fn pick_index(random: usize, len: usize) -> (i: usize)
    requires
        len > 0,
    ensures
        i == random % len,
        i < len,
{
    random % len
}

} // verus!
