//! Which time zone a box is given.

use crate::timezone::{self, TimezoneView};
use vstd::prelude::*;

verus! {

/// A zone file is handed on as it is, whatever is linked to it; it is one where it
/// begins with the mark of such files.
pub proof fn zone_files_are_handed_on(bytes: Seq<u8>, target: Option<Seq<char>>)
    requires
        bytes.len() >= 4,
        bytes[0] == 0x54 && bytes[1] == 0x5a && bytes[2] == 0x69 && bytes[3] == 0x66,
    ensures
        timezone::timezone(Some(bytes), target) == Some(TimezoneView::Tzif(bytes)),
{
    assert(bytes.take(4) =~= seq![84u8, 90u8, 105u8, 102u8]);
}

/// Without a zone file the zone is the one the link names, if it names one.
pub proof fn links_name_a_zone(bytes: Option<Seq<u8>>, target: Option<Seq<char>>)
    requires
        bytes matches Some(bytes) ==> bytes.len() < 4 || bytes[0] != 0x54 || bytes[1] != 0x5a
            || bytes[2] != 0x69 || bytes[3] != 0x66,
    ensures
        timezone::timezone(bytes, target) == (match target {
            Some(target) => match timezone::link_name(target) {
                Some(name) => Some(TimezoneView::Iana(name)),
                None => None,
            },
            None => None,
        }),
{
    if let Some(bytes) = bytes {
        if bytes.len() >= 4 {
            let mark = bytes.take(4);
            assert(mark[0] == bytes[0] && mark[1] == bytes[1] && mark[2] == bytes[2] && mark[3]
                == bytes[3]);
        }
    }
}

/// A link into the zone directory names what follows that directory, wherever the
/// directory lies.
pub proof fn zones_are_named_below_their_directory(dir: Seq<char>, name: Seq<char>)
    requires
        !dir.contains('z'),
        name.len() > 0,
        !name.contains('\0'),
    ensures
        timezone::link_name(
            dir + seq!['z', 'o', 'n', 'e', 'i', 'n', 'f', 'o', '/'] + name,
        ) == Some(name),
{
    reveal_strlit("zoneinfo/");
    let part = seq!['z', 'o', 'n', 'e', 'i', 'n', 'f', 'o', '/'];
    assert("zoneinfo/"@ =~= part);
    let target = dir + part + name;
    lemma_first(dir, part, name, 0);
    assert(target.skip(dir.len() as int + 9) =~= name);
}

proof fn lemma_first(dir: Seq<char>, part: Seq<char>, name: Seq<char>, from: int)
    requires
        0 <= from <= dir.len(),
        !dir.contains('z'),
        part.len() == 9,
        part[0] == 'z',
    ensures
        timezone::first_part(dir + part + name, part, from) == Some(dir.len() as int),
    decreases dir.len() - from,
{
    let target = dir + part + name;
    if from < dir.len() {
        if timezone::stands_at(target, part, from) {
            assert(target.subrange(from, from + 9)[0] == target[from]);
            assert(dir[from] == 'z');
            assert(dir.contains('z'));
        }
        lemma_first(dir, part, name, from + 1);
    } else {
        assert(target.subrange(from, from + 9) =~= part);
    }
}

} // verus!
