//! The time zone of the host, as a box is told it.

use crate::text::{chars_of, contains_char, text_between};
use vstd::prelude::*;

pub mod laws;

verus! {

/// A time zone: its rules as they are kept on disk, or its name.
#[derive(Debug)]
pub enum HostTimezone {
    Tzif(Vec<u8>),
    Iana(String),
}

#[verifier::ext_equal]
pub enum TimezoneView {
    Tzif(Seq<u8>),
    Iana(Seq<char>),
}

impl View for HostTimezone {
    type V = TimezoneView;

    open spec fn view(&self) -> TimezoneView {
        match self {
            HostTimezone::Tzif(bytes) => TimezoneView::Tzif(bytes@),
            HostTimezone::Iana(name) => TimezoneView::Iana(name@),
        }
    }
}

/// Whether a text goes on with another from some place.
pub open spec fn stands_at(text: Seq<char>, part: Seq<char>, at: int) -> bool {
    0 <= at && at + part.len() <= text.len() && text.subrange(at, at + part.len()) == part
}

/// Where a part first stands in a text from some place on, if it does.
pub open spec fn first_part(text: Seq<char>, part: Seq<char>, from: int) -> Option<int>
    decreases text.len() - from,
{
    if from > text.len() {
        None
    } else if stands_at(text, part, from) {
        Some(from)
    } else if from == text.len() {
        None
    } else {
        first_part(text, part, from + 1)
    }
}

fn is_at(text: &Vec<char>, part: &Vec<char>, at: usize) -> (yes: bool)
    requires
        at <= text@.len(),
    ensures
        yes == stands_at(text@, part@, at as int),
{
    if text.len() - at < part.len() {
        return false;
    }
    let mut k: usize = 0;
    while k < part.len()
        invariant
            k <= part@.len(),
            at + part@.len() <= text.len(),
            forall|j: int| 0 <= j < k ==> text@[at + j] == #[trigger] part@[j],
        decreases part.len() - k,
    {
        if text[at + k] != part[k] {
            proof {
                assert(text@.subrange(at as int, at + part@.len())[k as int] == text@[at + k]);
            }
            return false;
        }
        k = k + 1;
    }
    proof {
        assert(text@.subrange(at as int, at + part@.len()) =~= part@);
    }
    true
}

fn find_part(text: &Vec<char>, part: &Vec<char>) -> (at: Option<usize>)
    ensures
        match first_part(text@, part@, 0) {
            Some(place) => at is Some && at->0 == place,
            None => at is None,
        },
        at is Some ==> at->0 + part@.len() <= text.len(),
{
    let mut i: usize = 0;
    loop
        invariant
            i <= text@.len(),
            first_part(text@, part@, 0) == first_part(text@, part@, i as int),
        decreases text.len() - i,
    {
        if is_at(text, part, i) {
            return Some(i);
        }
        if i == text.len() {
            return None;
        }
        i = i + 1;
    }
}

/// A text without the slashes in front of it.
pub open spec fn unrooted(text: Seq<char>) -> Seq<char>
    decreases text.len(),
{
    if text.len() > 0 && text[0] == '/' {
        unrooted(text.drop_first())
    } else {
        text
    }
}

/// The name a link to a time zone's rules gives it: what follows `zoneinfo/`,
/// or a link that looks like such a name itself.
pub open spec fn link_name(target: Seq<char>) -> Option<Seq<char>> {
    match first_part(target, "zoneinfo/"@, 0) {
        Some(at) => {
            let name = target.skip(at + 9);
            if name.len() > 0 && !name.contains('\0') {
                Some(name)
            } else {
                None
            }
        },
        None => {
            let name = unrooted(target);
            if name.contains('/') && first_part(name, ".."@, 0) is None && !name.contains('\0') {
                Some(name)
            } else {
                None
            }
        },
    }
}

/// The time zone of a host, going by what its clock's file holds and where it
/// links to.
pub open spec fn timezone(bytes: Option<Seq<u8>>, target: Option<Seq<char>>) -> Option<TimezoneView> {
    if bytes is Some && bytes->0.len() >= 4 && bytes->0.take(4) == seq![84u8, 90u8, 105u8, 102u8] {
        Some(TimezoneView::Tzif(bytes->0))
    } else {
        match target {
            None => None,
            Some(target) => match link_name(target) {
                Some(name) => Some(TimezoneView::Iana(name)),
                None => None,
            },
        }
    }
}

fn name_in_link(target: &str) -> (name: Option<String>)
    ensures
        crate::text::text_of(name) == link_name(target@),
{
    proof {
        reveal_strlit("zoneinfo/");
        reveal_strlit("..");
    }
    let chars = chars_of(target);
    let part = chars_of("zoneinfo/");
    proof {
        assert(part@.len() == 9);
    }
    match find_part(&chars, &part) {
        Some(at) => {
            let name = text_between(&chars, at + 9, chars.len());
            proof {
                assert(name@ =~= target@.skip(at + 9));
            }
            if name.as_str().unicode_len() > 0 && !contains_char(name.as_str(), '\0') {
                Some(name)
            } else {
                None
            }
        },
        None => {
            let mut from: usize = 0;
            proof {
                assert(chars@.skip(0) =~= chars@);
            }
            while from < chars.len() && chars[from] == '/'
                invariant
                    from <= chars@.len(),
                    unrooted(chars@) == unrooted(chars@.skip(from as int)),
                decreases chars.len() - from,
            {
                proof {
                    assert(chars@.skip(from as int)[0] == chars@[from as int]);
                    assert(chars@.skip(from as int).drop_first() =~= chars@.skip(from + 1));
                }
                from = from + 1;
            }
            proof {
                if from < chars@.len() {
                    assert(chars@.skip(from as int)[0] == chars@[from as int]);
                }
            }
            let name = text_between(&chars, from, chars.len());
            proof {
                assert(name@ =~= chars@.skip(from as int));
            }
            if contains_char(name.as_str(), '/') && find_part(
                &chars_of(name.as_str()),
                &chars_of(".."),
            ).is_none() && !contains_char(name.as_str(), '\0') {
                Some(name)
            } else {
                None
            }
        },
    }
}

/// The time zone of the host. `bytes` is what the clock's file holds, and
/// `target` where it links to, each where that could be read.
pub fn collect_from_path(bytes: Option<Vec<u8>>, target: Option<&str>) -> (zone: Option<HostTimezone>)
    ensures
        (match zone {
            Some(zone) => Some(zone@),
            None => None,
        }) == timezone(
            match bytes {
                Some(bytes) => Some(bytes@),
                None => None,
            },
            match target {
                Some(target) => Some(target@),
                None => None,
            },
        ),
{
    if let Some(bytes) = bytes {
        if bytes.len() >= 4 && bytes[0] == 84 && bytes[1] == 90 && bytes[2] == 105 && bytes[3]
            == 102 {
            proof {
                assert(bytes@.take(4) =~= seq![84u8, 90u8, 105u8, 102u8]);
            }
            return Some(HostTimezone::Tzif(bytes));
        }
        proof {
            if bytes@.len() >= 4 && bytes@.take(4) == seq![84u8, 90u8, 105u8, 102u8] {
                assert(bytes@.take(4)[0] == bytes@[0]);
                assert(bytes@.take(4)[1] == bytes@[1]);
                assert(bytes@.take(4)[2] == bytes@[2]);
                assert(bytes@.take(4)[3] == bytes@[3]);
            }
        }
    }
    match target {
        Some(target) => match name_in_link(target) {
            Some(name) => Some(HostTimezone::Iana(name)),
            None => None,
        },
        None => None,
    }
}

} // verus!
