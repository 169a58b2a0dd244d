use crate::calendar_sync::fetch::has_prefix;
use vstd::prelude::*;
use vstd::string::StrSliceExecFns;

verus! {

/// The words of `s`, as `str::split_whitespace` cuts them.
pub uninterp spec fn words_of(s: Seq<char>) -> Seq<Seq<char>>;

/// Relies on str::split_whitespace: the words of `s`, in order.
#[verifier::external_body]
fn split_words(s: &str) -> (r: Vec<&str>)
    ensures
        r@.map_values(|w: &str| w@) == words_of(s@),
{
    s.split_whitespace().collect()
}

/// The command of a message of one or two words, one of them a mention (which starts with
/// `<`): the other word, or the empty command when the mention stands alone.
pub open spec fn command_spec(words: Seq<Seq<char>>) -> Option<Seq<char>> {
    if words.len() == 0 || words.len() > 2 {
        None
    } else if words[0].len() > 0 && words[0][0] == '<' {
        if words.len() == 2 {
            Some(words[1])
        } else {
            Some(Seq::empty())
        }
    } else {
        Some(words[0])
    }
}

/// The command that a message cut into `words` carries.
pub fn command_of_words<'a>(words: &Vec<&'a str>) -> (r: Option<&'a str>)
    ensures
        match r {
            Some(c) => command_spec(words@.map_values(|w: &str| w@)) == Some(c@),
            None => command_spec(words@.map_values(|w: &str| w@)) is None,
        },
{
    let ghost ws = words@.map_values(|w: &str| w@);
    if words.len() == 0 || words.len() > 2 {
        return None;
    }
    assert(ws[0] == words@[0]@);
    let first = words[0];
    if first.unicode_len() > 0 && first.get_char(0) == '<' {
        if words.len() == 2 {
            assert(ws[1] == words@[1]@);
            Some(words[1])
        } else {
            proof {
                reveal_strlit("");
            }
            Some("")
        }
    } else {
        Some(first)
    }
}

/// Given a message like `"<@mention> salles"` or `"salles <@mention> "`, the command
/// `"salles"`; the empty command for a mention alone; `None` for any other shape.
pub fn get_command(message: &str) -> (r: Option<&str>)
    ensures
        match r {
            Some(c) => command_spec(words_of(message@)) == Some(c@),
            None => command_spec(words_of(message@)) is None,
        },
{
    let words = split_words(message);
    command_of_words(&words)
}

/// Whether `a` and `b` hold the same text.
pub fn same_text(a: &str, b: &str) -> (r: bool)
    ensures
        r == (a@ == b@),
{
    if a.unicode_len() != b.unicode_len() {
        return false;
    }
    let r = has_prefix(a, b);
    proof {
        if r {
            assert(a@ =~= b@);
        }
    }
    r
}

/// What a command asks for.
#[derive(Debug, Clone, Copy, PartialEq, Eq)]
pub enum Intent<'a> {
    /// View all loaded rooms.
    Rooms,
    /// Find an empty room.
    Find,
    /// Display the help message, with the command that was typed if help was not asked.
    Help { command: Option<&'a str> },
}

pub open spec fn intent_spec<'a>(command: Option<&'a str>) -> Option<Intent<'a>> {
    match command {
        None => None,
        Some(c) => if c@ == ""@ || c@ == "salle"@ || c@ == "cherche"@ {
            Some(Intent::Find)
        } else if c@ == "salles"@ {
            Some(Intent::Rooms)
        } else if c@ == "help"@ || c@ == "aide"@ {
            Some(Intent::Help { command: None })
        } else {
            Some(Intent::Help { command: Some(c) })
        },
    }
}

impl<'a> Intent<'a> {
    /// The intent of a command; `None` when the message carries no command.
    pub fn from_command(command: Option<&'a str>) -> (r: Option<Intent<'a>>)
        ensures
            r == intent_spec(command),
    {
        match command {
            None => None,
            Some(c) => {
                if same_text(c, "") || same_text(c, "salle") || same_text(c, "cherche") {
                    Some(Intent::Find)
                } else if same_text(c, "salles") {
                    Some(Intent::Rooms)
                } else if same_text(c, "help") || same_text(c, "aide") {
                    Some(Intent::Help { command: None })
                } else {
                    Some(Intent::Help { command: Some(c) })
                }
            },
        }
    }
}

} // verus!
