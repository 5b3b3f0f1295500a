//! Which names a box can have.

use crate::name;
use crate::path;
use crate::text;
use crate::unicode;
use vstd::prelude::*;

verus! {

/// The words that are commands.
pub open spec fn commands() -> Seq<Seq<char>> {
    seq![
        "completions"@,
        "detach"@,
        "exec"@,
        "get"@,
        "help"@,
        "logs"@,
        "ls"@,
        "ps"@,
        "put"@,
        "rm"@,
        "sessions"@,
        "setup"@,
        "show"@,
        "stop"@,
        "storage"@,
        "sync"@,
    ]
}

/// Whether a character can stand in the name of a box.
pub open spec fn stands_in_names(c: char) -> bool {
    'a' <= c <= 'z' || 'A' <= c <= 'Z' || '0' <= c <= '9' || c == '.' || c == '-' || c == '_'
}

/// A box can have a name exactly where that is 1 to 32 letters, digits, dots,
/// dashes and underscores, begins with a letter or a digit and does not end with a
/// dot, and is no command, no recipe file and no device of Windows.
pub proof fn names_a_box_can_have(name: Seq<char>)
    ensures
        name::box_name(name) is Ok <==> {
            &&& 1 <= name.len()
            &&& text::utf8_len(name) <= 32
            &&& forall|i: int| 0 <= i < name.len() ==> stands_in_names(#[trigger] name[i])
            &&& name[0] != '.' && name[0] != '-' && name[0] != '_'
            &&& name.last() != '.'
            &&& !commands().contains(name)
            &&& path::extension(name) != Some("yaml"@)
            &&& path::extension(name) != Some("yml"@)
            &&& !name::windows_device(name)
        },
{
    let list = commands();
    assert(list[0] == "completions"@ && list[1] == "detach"@ && list[2] == "exec"@ && list[3]
        == "get"@ && list[4] == "help"@ && list[5] == "logs"@ && list[6] == "ls"@ && list[7]
        == "ps"@ && list[8] == "put"@ && list[9] == "rm"@ && list[10] == "sessions"@ && list[11]
        == "setup"@ && list[12] == "show"@ && list[13] == "stop"@ && list[14] == "storage"@
        && list[15] == "sync"@);
    assert(name::reserved(name) == list.contains(name));
    if name::well_spelled(name) {
        assert forall|i: int| 0 <= i < name.len() implies stands_in_names(#[trigger] name[i]) by {
            assert(name::name_char(name[i]));
        }
    }
    if forall|i: int| 0 <= i < name.len() ==> stands_in_names(#[trigger] name[i]) {
        assert forall|i: int| 0 <= i < name.len() implies name::name_char(#[trigger] name[i]) by {
            assert(stands_in_names(name[i]));
        }
    }
}

/// A name is that of a device of Windows by what stands before its first dot,
/// whatever the case of its letters: the console, the printer, the auxiliary
/// device, the null device, and the serial and parallel ports 1 to 9.
pub proof fn devices_go_by_what_stands_before_the_dot(name: Seq<char>)
    ensures
        ({
            let part = name::device_part(name);
            name::windows_device(name) <==> {
                ||| part == seq!['C', 'O', 'N']
                ||| part == seq!['P', 'R', 'N']
                ||| part == seq!['A', 'U', 'X']
                ||| part == seq!['N', 'U', 'L']
                ||| part.len() == 4 && (part.take(3) == seq!['C', 'O', 'M'] || part.take(3) == seq![
                    'L',
                    'P',
                    'T',
                ]) && '1' <= part[3] <= '9'
            }
        }),
        name::device_part(name).len() <= name.len(),
        forall|i: int|
            0 <= i < name::device_part(name).len() ==> name[i] != '.' && #[trigger] name::device_part(
                name,
            )[i] == unicode::ascii_upper(name[i]),
        name::device_part(name).len() < name.len() ==> name[name::device_part(name).len() as int]
            == '.',
{
    text::lemma_first_at(name, '.', 0);
    let part = name::device_part(name);
    lemma_device_words(part);
}

proof fn lemma_device_words(part: Seq<char>)
    ensures
        (part == "CON"@ || part == "PRN"@ || part == "AUX"@ || part == "NUL"@ || part == "COM1"@
            || part == "COM2"@ || part == "COM3"@ || part == "COM4"@ || part == "COM5"@ || part
            == "COM6"@ || part == "COM7"@ || part == "COM8"@ || part == "COM9"@ || part == "LPT1"@
            || part == "LPT2"@ || part == "LPT3"@ || part == "LPT4"@ || part == "LPT5"@ || part
            == "LPT6"@ || part == "LPT7"@ || part == "LPT8"@ || part == "LPT9"@) <==> {
            ||| part == seq!['C', 'O', 'N']
            ||| part == seq!['P', 'R', 'N']
            ||| part == seq!['A', 'U', 'X']
            ||| part == seq!['N', 'U', 'L']
            ||| part.len() == 4 && (part.take(3) == seq!['C', 'O', 'M'] || part.take(3) == seq![
                'L',
                'P',
                'T',
            ]) && '1' <= part[3] <= '9'
        },
{
    reveal_strlit("CON");
    reveal_strlit("PRN");
    reveal_strlit("AUX");
    reveal_strlit("NUL");
    assert("CON"@ =~= seq!['C', 'O', 'N']);
    assert("PRN"@ =~= seq!['P', 'R', 'N']);
    assert("AUX"@ =~= seq!['A', 'U', 'X']);
    assert("NUL"@ =~= seq!['N', 'U', 'L']);
    lemma_ports(part);
}

proof fn lemma_ports(part: Seq<char>)
    ensures
        (part == "COM1"@ || part == "COM2"@ || part == "COM3"@ || part == "COM4"@ || part
            == "COM5"@ || part == "COM6"@ || part == "COM7"@ || part == "COM8"@ || part == "COM9"@)
            <==> part.len() == 4 && part.take(3) == seq!['C', 'O', 'M'] && '1' <= part[3] <= '9',
        (part == "LPT1"@ || part == "LPT2"@ || part == "LPT3"@ || part == "LPT4"@ || part
            == "LPT5"@ || part == "LPT6"@ || part == "LPT7"@ || part == "LPT8"@ || part == "LPT9"@)
            <==> part.len() == 4 && part.take(3) == seq!['L', 'P', 'T'] && '1' <= part[3] <= '9',
{
    reveal_strlit("COM1");
    reveal_strlit("COM2");
    reveal_strlit("COM3");
    reveal_strlit("COM4");
    reveal_strlit("COM5");
    reveal_strlit("COM6");
    reveal_strlit("COM7");
    reveal_strlit("COM8");
    reveal_strlit("COM9");
    reveal_strlit("LPT1");
    reveal_strlit("LPT2");
    reveal_strlit("LPT3");
    reveal_strlit("LPT4");
    reveal_strlit("LPT5");
    reveal_strlit("LPT6");
    reveal_strlit("LPT7");
    reveal_strlit("LPT8");
    reveal_strlit("LPT9");
    let com = seq!['C', 'O', 'M'];
    let lpt = seq!['L', 'P', 'T'];
    assert("COM1"@ =~= com.push('1') && "COM2"@ =~= com.push('2') && "COM3"@ =~= com.push('3'));
    assert("COM4"@ =~= com.push('4') && "COM5"@ =~= com.push('5') && "COM6"@ =~= com.push('6'));
    assert("COM7"@ =~= com.push('7') && "COM8"@ =~= com.push('8') && "COM9"@ =~= com.push('9'));
    assert("LPT1"@ =~= lpt.push('1') && "LPT2"@ =~= lpt.push('2') && "LPT3"@ =~= lpt.push('3'));
    assert("LPT4"@ =~= lpt.push('4') && "LPT5"@ =~= lpt.push('5') && "LPT6"@ =~= lpt.push('6'));
    assert("LPT7"@ =~= lpt.push('7') && "LPT8"@ =~= lpt.push('8') && "LPT9"@ =~= lpt.push('9'));
    assert forall|c: char| #[trigger] com.push(c).take(3) == com by {
        assert(com.push(c).take(3) =~= com);
    }
    assert forall|c: char| #[trigger] lpt.push(c).take(3) == lpt by {
        assert(lpt.push(c).take(3) =~= lpt);
    }
    if part.len() == 4 {
        assert(part =~= part.take(3).push(part[3]));
        assert('1' <= part[3] <= '9' ==> part[3] == '1' || part[3] == '2' || part[3] == '3'
            || part[3] == '4' || part[3] == '5' || part[3] == '6' || part[3] == '7' || part[3]
            == '8' || part[3] == '9');
    }
}

} // verus!
