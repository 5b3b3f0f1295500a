//! What may name a box: the alphabet of names, and the words the command line
//! keeps for itself.

use crate::error::{self, Error, Refusal};
use crate::path::{self, extension_of};
use crate::render::{self, escape_printable};
use crate::text::{self, byte_len, chars_of, find_char, same_text, text_between};
use crate::unicode::{self, is_ascii_alphanumeric, to_ascii_uppercase};
use vstd::prelude::*;

pub mod laws;

verus! {

/// The words of the command line, none of which names a box.
pub open spec fn reserved(name: Seq<char>) -> bool {
    ||| name == "completions"@
    ||| name == "detach"@
    ||| name == "exec"@
    ||| name == "get"@
    ||| name == "help"@
    ||| name == "logs"@
    ||| name == "ls"@
    ||| name == "ps"@
    ||| name == "put"@
    ||| name == "rm"@
    ||| name == "sessions"@
    ||| name == "setup"@
    ||| name == "show"@
    ||| name == "stop"@
    ||| name == "storage"@
    ||| name == "sync"@
}

pub fn is_reserved(name: &str) -> (yes: bool)
    ensures
        yes == reserved(name@),
{
    same_text(name, "completions") || same_text(name, "detach") || same_text(name, "exec")
        || same_text(name, "get") || same_text(name, "help") || same_text(name, "logs") || same_text(
        name,
        "ls",
    ) || same_text(name, "ps") || same_text(name, "put") || same_text(name, "rm") || same_text(
        name,
        "sessions",
    ) || same_text(name, "setup") || same_text(name, "show") || same_text(name, "stop")
        || same_text(name, "storage") || same_text(name, "sync")
}

/// Whether an extension is that of a recipe file.
pub open spec fn recipe_extension(extension: Option<Seq<char>>) -> bool {
    extension == Some("yaml"@) || extension == Some("yml"@)
}

pub fn is_recipe_ext(extension: &Option<String>) -> (yes: bool)
    ensures
        yes == recipe_extension(crate::text::text_of(*extension)),
{
    match extension {
        Some(text) => same_text(text.as_str(), "yaml") || same_text(text.as_str(), "yml"),
        None => false,
    }
}

/// What stands before the first dot of a name, in ASCII capitals.
pub open spec fn device_part(name: Seq<char>) -> Seq<char> {
    unicode::ascii_uppercase(name.take(text::first_at(name, '.', 0)))
}

pub fn read_device_part(name: &str) -> (part: String)
    ensures
        part@ == device_part(name@),
{
    let chars = chars_of(name);
    let dot: usize = find_char(&chars, '.', 0);
    let part = text_between(&chars, 0, dot);
    proof {
        assert(part@ =~= name@.take(dot as int));
    }
    to_ascii_uppercase(part.as_str())
}

/// Whether Windows reads a name as a device, whatever its extension.
pub open spec fn windows_device(name: Seq<char>) -> bool {
    let part = device_part(name);
    ||| part == "CON"@
    ||| part == "PRN"@
    ||| part == "AUX"@
    ||| part == "NUL"@
    ||| part == "COM1"@
    ||| part == "COM2"@
    ||| part == "COM3"@
    ||| part == "COM4"@
    ||| part == "COM5"@
    ||| part == "COM6"@
    ||| part == "COM7"@
    ||| part == "COM8"@
    ||| part == "COM9"@
    ||| part == "LPT1"@
    ||| part == "LPT2"@
    ||| part == "LPT3"@
    ||| part == "LPT4"@
    ||| part == "LPT5"@
    ||| part == "LPT6"@
    ||| part == "LPT7"@
    ||| part == "LPT8"@
    ||| part == "LPT9"@
}

pub fn is_windows_device_name(name: &str) -> (yes: bool)
    ensures
        yes == windows_device(name@),
{
    let part = read_device_part(name);
    let part = part.as_str();
    same_text(part, "CON") || same_text(part, "PRN") || same_text(part, "AUX") || same_text(
        part,
        "NUL",
    ) || same_text(part, "COM1") || same_text(part, "COM2") || same_text(part, "COM3") || same_text(
        part,
        "COM4",
    ) || same_text(part, "COM5") || same_text(part, "COM6") || same_text(part, "COM7") || same_text(
        part,
        "COM8",
    ) || same_text(part, "COM9") || same_text(part, "LPT1") || same_text(part, "LPT2") || same_text(
        part,
        "LPT3",
    ) || same_text(part, "LPT4") || same_text(part, "LPT5") || same_text(part, "LPT6") || same_text(
        part,
        "LPT7",
    ) || same_text(part, "LPT8") || same_text(part, "LPT9")
}

/// Whether a character may stand in a name.
pub open spec fn name_char(c: char) -> bool {
    unicode::ascii_alphanumeric(c) || c == '.' || c == '-' || c == '_'
}

/// Whether a name is spelled as a directory and a socket path can carry it.
pub open spec fn well_spelled(name: Seq<char>) -> bool {
    &&& 1 <= name.len()
    &&& text::utf8_len(name) <= 32
    &&& name[0] != '.' && name[0] != '-' && name[0] != '_'
    &&& name.last() != '.'
    &&& !windows_device(name)
    &&& forall|i: int| 0 <= i < name.len() ==> name_char(#[trigger] name[i])
}

/// What is said of a name: nothing, or why it cannot name a box.
pub open spec fn box_name(name: Seq<char>) -> Result<(), Refusal> {
    if reserved(name) {
        Err(error::refusal("'"@ + render::printable(name) + "' cannot name a box: it is a terra command"@))
    } else if recipe_extension(path::extension(name)) {
        Err(
            error::refusal(
                "'"@ + render::printable(name) + "' cannot name a box: it names a recipe file (try './"@
                    + render::printable(name) + "')"@,
            ),
        )
    } else if !well_spelled(name) {
        Err(
            error::refusal(
                "'"@ + render::printable(name)
                    + "' cannot name a box: a name is 1-32 characters of [a-z A-Z 0-9 . - _], not starting with '.', '-' or '_', ending with '.', or a Windows device name"@,
            ),
        )
    } else {
        Ok(())
    }
}

fn is_well_spelled(name: &str) -> (yes: bool)
    ensures
        yes == well_spelled(name@),
{
    let chars = chars_of(name);
    let n: usize = chars.len();
    if n == 0 || byte_len(name) > 32 {
        return false;
    }
    if chars[0] == '.' || chars[0] == '-' || chars[0] == '_' || chars[n - 1] == '.' {
        return false;
    }
    if is_windows_device_name(name) {
        return false;
    }
    let mut i: usize = 0;
    while i < n
        invariant
            i <= n == chars@.len(),
            chars@ == name@,
            forall|j: int| 0 <= j < i ==> name_char(#[trigger] name@[j]),
        decreases n - i,
    {
        let c: char = chars[i];
        if !(is_ascii_alphanumeric(c) || c == '.' || c == '-' || c == '_') {
            proof {
                assert(!name_char(name@[i as int]));
            }
            return false;
        }
        i = i + 1;
    }
    true
}

/// Refuses a name that could not be a state directory or fit a socket path.
pub fn validate_box_name(name: &str) -> (verdict: Result<(), Error>)
    ensures
        error::outcome(verdict) == box_name(name@),
{
    if is_reserved(name) {
        let mut message: String = "'".to_owned();
        message.append(escape_printable(name).as_str());
        message.append("' cannot name a box: it is a terra command");
        return Err(Error::new(message));
    }
    if is_recipe_ext(&extension_of(name)) {
        let mut message: String = "'".to_owned();
        message.append(escape_printable(name).as_str());
        message.append("' cannot name a box: it names a recipe file (try './");
        message.append(escape_printable(name).as_str());
        message.append("')");
        return Err(Error::new(message));
    }
    if !is_well_spelled(name) {
        let mut message: String = "'".to_owned();
        message.append(escape_printable(name).as_str());
        message.append(
            "' cannot name a box: a name is 1-32 characters of [a-z A-Z 0-9 . - _], not starting with '.', '-' or '_', ending with '.', or a Windows device name",
        );
        return Err(Error::new(message));
    }
    Ok(())
}

/// A name that may name a box is a plain file name: it is not empty, holds no
/// separator and is neither of the dots.
pub proof fn box_names_are_plain_file_names(name: Seq<char>)
    requires
        box_name(name) is Ok,
    ensures
        name.len() > 0,
        !name.contains('/'),
        !name.contains('\\'),
        name != seq!['.'],
        name != seq!['.', '.'],
{
    assert forall|i: int| 0 <= i < name.len() implies name[i] != '/' && name[i] != '\\' by {
        assert(name_char(name[i]));
    }
}

} // verus!
