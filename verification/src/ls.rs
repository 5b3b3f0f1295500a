//! Listing boxes: those of a directory, or all on this machine.

use crate::path::{self, is_equivalent, path_sorts_before};
use crate::ordered::{self, text_precedes};
use crate::render::{self, escape_printable, escape_printable_path};
use crate::state::{self, BoxRef, BoxState, BoxView, VmProcess};
use crate::text::{self, pad_right, same_text};
use vstd::prelude::*;

verus! {

/// A box in the form scripts may rely on: its state, name, directory and
/// files, with tabs between them and nothing else.
pub open spec fn tsv_line(bx: BoxView, state: BoxState) -> Seq<char> {
    state::state_word(state) + "\t"@ + render::printable(bx.name) + "\t"@ + render::printable(bx.project_dir) + "\t"@
        + render::printable(bx.dir)
}

pub fn format_tsv_line(bx: &BoxRef, state: BoxState) -> (line: String)
    ensures
        line@ == tsv_line(bx@, state),
{
    let mut line: String = state.word().to_owned();
    line.append("\t");
    line.append(escape_printable(bx.name()).as_str());
    line.append("\t");
    line.append(escape_printable_path(bx.project_dir()).as_str());
    line.append("\t");
    line.append(escape_printable_path(bx.dir()).as_str());
    line
}

/// The lines a person reads of a box; of one that was never made there are no
/// files to point at.
pub open spec fn human_lines(bx: BoxView, state: BoxState, all: bool) -> Seq<char> {
    let what = if all {
        bx.project_dir + " ("@ + bx.name + ")"@
    } else {
        bx.name
    };
    let head = text::padded_right(state::state_word(state), 12) + " "@ + what + "\n"@;
    if state == BoxState::NotCreated {
        head
    } else {
        head + "  files: "@ + bx.dir + "\n"@
    }
}

pub fn format_human_lines(bx: &BoxRef, state: BoxState, all: bool) -> (lines: String)
    ensures
        lines@ == human_lines(bx@, state, all),
{
    let mut lines: String = pad_right(state.word(), 12);
    lines.append(" ");
    let ghost head = lines@;
    if all {
        lines.append(bx.project_dir());
        lines.append(" (");
        lines.append(bx.name());
        lines.append(")");
        proof {
            assert(lines@ =~= head + (bx@.project_dir + " ("@ + bx@.name + ")"@));
        }
    } else {
        lines.append(bx.name());
    }
    lines.append("\n");
    if state != BoxState::NotCreated {
        lines.append("  files: ");
        lines.append(bx.dir());
        lines.append("\n");
    }
    lines
}

/// What is said where there is nothing to list.
pub fn nothing_listed(project_dir: &str, all: bool) -> (line: String)
    ensures
        line@ == (if all {
            "terra: no boxes on this machine"@
        } else {
            "terra: no boxes in "@ + project_dir@ + " - `terra <box> setup` makes one"@
        }),
{
    if all {
        return "terra: no boxes on this machine".to_owned();
    }
    let mut line: String = "terra: no boxes in ".to_owned();
    line.append(project_dir);
    line.append(" - `terra <box> setup` makes one");
    line
}

/// The process that a box is listed with.
pub open spec fn process_listed(state: BoxState, vm: Option<VmProcess>) -> Option<VmProcess> {
    if state == BoxState::Running {
        vm
    } else {
        None
    }
}

/// The process a listing names for a box: only that of a box that is running.
pub fn listed_process(state: BoxState, vm: Option<VmProcess>) -> (listed: Option<VmProcess>)
    ensures
        listed == process_listed(state, vm),
{
    if state == BoxState::Running {
        vm
    } else {
        None
    }
}

/// A box as it was found under the home of all boxes.
#[derive(Debug)]
pub struct FoundBox {
    pub origin: String,
    pub name: String,
    pub dir: String,
}

#[verifier::ext_equal]
pub struct FoundBoxView {
    pub origin: Seq<char>,
    pub name: Seq<char>,
    pub dir: Seq<char>,
}

impl View for FoundBox {
    type V = FoundBoxView;

    open spec fn view(&self) -> FoundBoxView {
        FoundBoxView { origin: self.origin@, name: self.name@, dir: self.dir@ }
    }
}

/// What a list of found boxes shows.
pub open spec fn found_boxes(list: Seq<FoundBox>) -> Seq<FoundBoxView> {
    Seq::new(list.len(), |i: int| list[i]@)
}

/// Whether one box is listed before another: by the directory it belongs to,
/// then by name.
pub open spec fn listed_before(a: FoundBoxView, b: FoundBoxView) -> bool {
    if !path::equivalent(a.origin, b.origin) {
        path::sorts_before(a.origin, b.origin)
    } else if a.name != b.name {
        ordered::precedes(a.name, b.name)
    } else {
        path::sorts_before(a.dir, b.dir)
    }
}

fn is_listed_before(a: &FoundBox, b: &FoundBox) -> (yes: bool)
    ensures
        yes == listed_before(a@, b@),
{
    if !is_equivalent(a.origin.as_str(), b.origin.as_str()) {
        path_sorts_before(a.origin.as_str(), b.origin.as_str())
    } else if !same_text(a.name.as_str(), b.name.as_str()) {
        text_precedes(a.name.as_str(), b.name.as_str())
    } else {
        path_sorts_before(a.dir.as_str(), b.dir.as_str())
    }
}

/// Where a box belongs in a list: before the first that is listed after it.
pub open spec fn belongs_at(list: Seq<FoundBoxView>, bx: FoundBoxView) -> int
    decreases list.len(),
{
    if list.len() == 0 {
        0
    } else if listed_before(bx, list[0]) {
        0
    } else {
        1 + belongs_at(list.drop_first(), bx)
    }
}

/// The boxes in the order they are listed in.
pub open spec fn listing(found: Seq<FoundBoxView>) -> Seq<FoundBoxView>
    decreases found.len(),
{
    if found.len() == 0 {
        Seq::empty()
    } else {
        let before = listing(found.drop_last());
        before.insert(belongs_at(before, found.last()), found.last())
    }
}

proof fn lemma_belongs_at(list: Seq<FoundBoxView>, bx: FoundBoxView)
    ensures
        0 <= belongs_at(list, bx) <= list.len(),
        forall|i: int| 0 <= i < belongs_at(list, bx) ==> !listed_before(bx, #[trigger] list[i]),
        belongs_at(list, bx) < list.len() ==> listed_before(bx, list[belongs_at(list, bx)]),
    decreases list.len(),
{
    if list.len() > 0 && !listed_before(bx, list[0]) {
        let rest = list.drop_first();
        lemma_belongs_at(rest, bx);
        assert forall|i: int| 0 <= i < belongs_at(list, bx) implies !listed_before(
            bx,
            #[trigger] list[i],
        ) by {
            if i > 0 {
                assert(rest[i - 1] == list[i]);
            }
        }
        if belongs_at(list, bx) < list.len() {
            assert(rest[belongs_at(rest, bx)] == list[belongs_at(list, bx)]);
        }
    }
}

proof fn lemma_listed_before(a: FoundBoxView, b: FoundBoxView, c: FoundBoxView)
    ensures
        listed_before(a, b) ==> !listed_before(b, a),
        !listed_before(b, a) && !listed_before(c, b) ==> !listed_before(c, a),
{
    path::paths_are_ordered(path::components(a.origin), path::components(b.origin), path::components(c.origin));
    path::paths_are_ordered(path::components(b.origin), path::components(c.origin), path::components(a.origin));
    path::paths_are_ordered(path::components(c.origin), path::components(a.origin), path::components(b.origin));
    path::paths_are_ordered(path::components(a.dir), path::components(b.dir), path::components(c.dir));
    path::paths_are_ordered(path::components(b.dir), path::components(c.dir), path::components(a.dir));
    path::paths_are_ordered(path::components(c.dir), path::components(a.dir), path::components(b.dir));
    path::paths_are_ordered(path::components(c.dir), path::components(b.dir), path::components(a.dir));
    path::paths_are_ordered(path::components(c.origin), path::components(b.origin), path::components(a.origin));
    lemma_name_order(a.name, b.name, c.name);
    lemma_name_order(c.name, b.name, a.name);
}

proof fn lemma_name_order(a: Seq<char>, b: Seq<char>, c: Seq<char>)
    ensures
        a == b || ordered::precedes(a, b) || ordered::precedes(b, a),
        b == c || ordered::precedes(b, c) || ordered::precedes(c, b),
        a == c || ordered::precedes(a, c) || ordered::precedes(c, a),
        ordered::precedes(a, b) ==> !ordered::precedes(b, a),
        ordered::precedes(a, c) ==> !ordered::precedes(c, a),
        ordered::precedes(a, b) && ordered::precedes(b, c) ==> ordered::precedes(a, c),
{
    ordered::lemma_precedes_total(a, b);
    ordered::lemma_precedes_total(b, c);
    ordered::lemma_precedes_total(a, c);
    if ordered::precedes(a, b) {
        ordered::lemma_precedes_asymmetric(a, b);
        if ordered::precedes(b, c) {
            ordered::lemma_precedes_transitive(a, b, c);
        }
    }
    if ordered::precedes(a, c) {
        ordered::lemma_precedes_asymmetric(a, c);
    }
}

/// A listing holds the boxes that were found and no others, and none of them
/// stands after one that is listed after it.
pub proof fn listings_are_sorted(found: Seq<FoundBoxView>)
    ensures
        listing(found).to_multiset() == found.to_multiset(),
        listing(found).len() == found.len(),
        forall|i: int, j: int|
            0 <= i < j < found.len() ==> !listed_before(
                #[trigger] listing(found)[j],
                #[trigger] listing(found)[i],
            ),
    decreases found.len(),
{
    broadcast use vstd::seq_lib::group_to_multiset_ensures;

    if found.len() > 0 {
        let before = listing(found.drop_last());
        let bx = found.last();
        listings_are_sorted(found.drop_last());
        lemma_belongs_at(before, bx);
        let at = belongs_at(before, bx);
        let list = listing(found);
        assert(found =~= found.drop_last().push(bx));
        assert forall|i: int, j: int| 0 <= i < j < list.len() implies !listed_before(
            #[trigger] list[j],
            #[trigger] list[i],
        ) by {
            if i < at {
                if j < at {
                    assert(list[i] == before[i] && list[j] == before[j]);
                } else if j == at {
                    assert(list[i] == before[i]);
                } else {
                    assert(list[i] == before[i] && list[j] == before[j - 1]);
                }
            } else if i == at {
                assert(list[j] == before[j - 1]);
                lemma_listed_before(bx, before[at], before[j - 1]);
                if j - 1 > at {
                    assert(!listed_before(before[j - 1], before[at]));
                }
            } else {
                assert(list[i] == before[i - 1] && list[j] == before[j - 1]);
            }
        }
    }
}

/// Where a box belongs among some, found one by one.
fn place_of(list: &Vec<FoundBox>, bx: &FoundBox) -> (at: usize)
    ensures
        at == belongs_at(found_boxes(list@), bx@),
        at <= list@.len(),
{
    let ghost all = found_boxes(list@);
    let mut i: usize = 0;
    proof {
        assert(all.skip(0) =~= all);
    }
    while i < list.len()
        invariant
            i <= list@.len(),
            all == found_boxes(list@),
            belongs_at(all, bx@) == i + belongs_at(all.skip(i as int), bx@),
        decreases list.len() - i,
    {
        proof {
            assert(all.skip(i as int)[0] == list@[i as int]@);
            assert(all.skip(i as int).drop_first() =~= all.skip(i + 1));
        }
        if is_listed_before(bx, &list[i]) {
            return i;
        }
        i = i + 1;
    }
    proof {
        assert(all.skip(i as int).len() == 0);
    }
    i
}

/// The boxes on this machine in the order they are listed in.
pub fn list_boxes_on_this_machine(found: Vec<FoundBox>) -> (boxes: Vec<BoxRef>)
    ensures
        boxes@.len() == found@.len(),
        forall|i: int|
            0 <= i < boxes@.len() ==> (#[trigger] boxes@[i])@ == ({
                let entry = listing(found_boxes(found@))[i];
                BoxView {
                    project_dir: entry.origin,
                    name: match crate::path::file_name(entry.dir) {
                        Some(name) => name,
                        None => Seq::empty(),
                    },
                    dir: entry.dir,
                }
            }),
{
    let ghost all = found_boxes(found@);
    let mut list: Vec<FoundBox> = Vec::new();
    let mut i: usize = 0;
    proof {
        assert(all.take(0) =~= Seq::empty());
        assert(found_boxes(list@) =~= Seq::empty());
        listings_are_sorted(all);
    }
    while i < found.len()
        invariant
            i <= found@.len(),
            all == found_boxes(found@),
            found_boxes(list@) == listing(all.take(i as int)),
        decreases found.len() - i,
    {
        let ghost before = list@;
        let bx = FoundBox {
            origin: found[i].origin.as_str().to_owned(),
            name: found[i].name.as_str().to_owned(),
            dir: found[i].dir.as_str().to_owned(),
        };
        proof {
            assert(all.take(i + 1).drop_last() =~= all.take(i as int));
            assert(all.take(i + 1).last() == bx@);
        }
        let at: usize = place_of(&list, &bx);
        list.insert(at, bx);
        proof {
            assert(found_boxes(list@) =~= found_boxes(before).insert(at as int, bx@));
        }
        i = i + 1;
    }
    proof {
        assert(all.take(i as int) =~= all);
        assert(list@.len() == found_boxes(list@).len());
    }
    let mut boxes: Vec<BoxRef> = Vec::new();
    let mut k: usize = 0;
    while k < list.len()
        invariant
            k <= list@.len(),
            boxes@.len() == k,
            found_boxes(list@) == listing(all),
            forall|i: int|
                0 <= i < k ==> (#[trigger] boxes@[i])@ == ({
                    let entry = listing(all)[i];
                    BoxView {
                        project_dir: entry.origin,
                        name: match crate::path::file_name(entry.dir) {
                            Some(name) => name,
                            None => Seq::empty(),
                        },
                        dir: entry.dir,
                    }
                }),
        decreases list.len() - k,
    {
        proof {
            assert(listing(all)[k as int] == list@[k as int]@);
        }
        boxes.push(
            BoxRef::from_state_dir(list[k].dir.as_str().to_owned(), list[k].origin.as_str()),
        );
        k = k + 1;
    }
    boxes
}

} // verus!
