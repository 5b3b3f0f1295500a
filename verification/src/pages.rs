//! What is told of boxes, images, copies and recipes.

use crate::config::ConfigView;
use crate::error::Refusal;
use crate::ls;
use crate::put_get;
use crate::render;
use crate::render::laws;
use crate::setup::approve;
use crate::setup::{self, Approval, AuthorshipView, SensitiveView};
use crate::state::{self, BoxState, BoxView};
use crate::stop::{self, StopOutcome};
use crate::storage::{self, ImageFactsView};
use crate::sync::exec::{self, SyncStats};
use crate::sync::plan::{self, ActionView};
use crate::text;
use vstd::prelude::*;

verus! {

/// How many tabs stand in a text.
pub open spec fn tabs(text: Seq<char>) -> nat
    decreases text.len(),
{
    if text.len() == 0 {
        0
    } else {
        tabs(text.drop_last()) + if text.last() == '\t' {
            1nat
        } else {
            0nat
        }
    }
}

proof fn lemma_tabs_add(a: Seq<char>, b: Seq<char>)
    ensures
        tabs(a + b) == tabs(a) + tabs(b),
    decreases b.len(),
{
    if b.len() == 0 {
        assert(a + b =~= a);
    } else {
        lemma_tabs_add(a, b.drop_last());
        assert((a + b).drop_last() =~= a + b.drop_last());
        assert((a + b).last() == b.last());
    }
}

/// A line of fields, each set apart from the next by a tab.
pub open spec fn in_fields(fields: Seq<Seq<char>>) -> Seq<char>
    decreases fields.len(),
{
    if fields.len() == 0 {
        Seq::empty()
    } else if fields.len() == 1 {
        fields[0]
    } else {
        in_fields(fields.drop_last()) + seq!['\t'] + fields.last()
    }
}

/// A line for programs holds the state, the name, the project and the
/// directory of a box, in this order, as they can be printed, and three tabs
/// between them.
pub proof fn lines_for_programs_have_four_fields(bx: BoxView, state: BoxState)
    ensures
        ls::tsv_line(bx, state) == in_fields(
            seq![
                state::state_word(state),
                render::printable(bx.name),
                render::printable(bx.project_dir),
                render::printable(bx.dir),
            ],
        ),
        ({
            let name = render::printable(bx.name);
            let project = render::printable(bx.project_dir);
            let dir = render::printable(bx.dir);
            tabs(name) == 0 && tabs(project) == 0 && tabs(dir) == 0 ==> tabs(
                ls::tsv_line(bx, state),
            ) == 3
        }),
{
    reveal_strlit("\t");
    let word = state::state_word(state);
    let name = render::printable(bx.name);
    let project = render::printable(bx.project_dir);
    let dir = render::printable(bx.dir);
    let all = seq![word, name, project, dir];
    let three = all.drop_last();
    let two = three.drop_last();
    let one = two.drop_last();
    assert(one =~= seq![word]);
    assert(in_fields(one) == word);
    assert("\t"@ =~= seq!['\t']);
    assert(in_fields(two) == word + seq!['\t'] + name);
    assert(in_fields(three) == word + seq!['\t'] + name + seq!['\t'] + project);
    assert(in_fields(all) == word + seq!['\t'] + name + seq!['\t'] + project + seq!['\t'] + dir);
    let tab = seq!['\t'];
    assert(tab.drop_last() =~= Seq::<char>::empty());
    assert(tabs(tab) == 1) by {
        reveal_with_fuel(tabs, 3);
    }
    assert(tabs(word) == 0) by {
        lemma_words_without_tabs(state);
    }
    lemma_tabs_add(word, tab);
    lemma_tabs_add(word + tab, name);
    lemma_tabs_add(word + tab + name, tab);
    lemma_tabs_add(word + tab + name + tab, project);
    lemma_tabs_add(word + tab + name + tab + project, tab);
    lemma_tabs_add(word + tab + name + tab + project + tab, dir);
}

proof fn lemma_no_tabs(text: Seq<char>)
    requires
        forall|i: int| 0 <= i < text.len() ==> #[trigger] text[i] != '\t',
    ensures
        tabs(text) == 0,
    decreases text.len(),
{
    if text.len() > 0 {
        assert forall|i: int| 0 <= i < text.len() - 1 implies #[trigger] text.drop_last()[i]
            != '\t' by {
            assert(text[i] != '\t');
        }
        lemma_no_tabs(text.drop_last());
    }
}

proof fn lemma_words_without_tabs(state: BoxState)
    ensures
        tabs(state::state_word(state)) == 0,
{
    state::states_are_single_words(state);
    lemma_no_tabs(state::state_word(state));
}

/// What a box is doing stands at the start of its lines, its name behind it,
/// and its project too where boxes of all projects are listed. The directory
/// is told of every box but one that was never created.
pub proof fn boxes_are_listed_with_what_they_do(bx: BoxView, state: BoxState, all: bool)
    ensures
        ({
            let lines = ls::human_lines(bx, state, all);
            &&& laws::leads(lines, state::state_word(state))
            &&& laws::shows(lines, bx.name)
            &&& all ==> laws::shows(lines, bx.project_dir + " ("@ + bx.name + ")"@)
            &&& state != BoxState::NotCreated ==> laws::shows(lines, "  files: "@ + bx.dir)
        }),
{
    let word = state::state_word(state);
    let what = if all {
        bx.project_dir + " ("@ + bx.name + ")"@
    } else {
        bx.name
    };
    let padded = text::padded_right(word, 12);
    crate::basics::padding_only_adds_spaces(word, 12);
    let head = padded + " "@ + what + "\n"@;
    laws::lemma_shows_itself(bx.name);
    laws::lemma_shows_itself(what);
    if all {
        laws::lemma_shows_add(bx.project_dir + " ("@, bx.name, bx.name);
        laws::lemma_shows_add(bx.project_dir + " ("@ + bx.name, ")"@, bx.name);
    }
    laws::lemma_shows_add(padded + " "@, what, bx.name);
    laws::lemma_shows_add(padded + " "@, what, what);
    laws::lemma_shows_add(padded + " "@ + what, "\n"@, bx.name);
    laws::lemma_shows_add(padded + " "@ + what, "\n"@, what);
    let files = "  files: "@ + bx.dir;
    laws::lemma_shows_itself(files);
    laws::lemma_shows_add(head, files, files);
    assert(head + files =~= head + "  files: "@ + bx.dir);
    laws::lemma_shows_add(head + files, "\n"@, files);
    laws::lemma_shows_add(head, "  files: "@, bx.name);
    laws::lemma_shows_add(head + "  files: "@, bx.dir, bx.name);
    laws::lemma_shows_add(head + "  files: "@ + bx.dir, "\n"@, bx.name);
    laws::lemma_shows_add(head, "  files: "@, what);
    laws::lemma_shows_add(head + "  files: "@, bx.dir, what);
    laws::lemma_shows_add(head + "  files: "@ + bx.dir, "\n"@, what);
    lemma_word_leads(word, 12);
    laws::lemma_leads_add(padded, " "@, word);
    laws::lemma_leads_add(padded + " "@, what, word);
    laws::lemma_leads_add(padded + " "@ + what, "\n"@, word);
    laws::lemma_leads_add(head, "  files: "@, word);
    laws::lemma_leads_add(head + "  files: "@, bx.dir, word);
    laws::lemma_leads_add(head + "  files: "@ + bx.dir, "\n"@, word);
}

proof fn lemma_word_leads(word: Seq<char>, width: nat)
    ensures
        laws::leads(text::padded_right(word, width), word),
{
    let padded = text::padded_right(word, width);
    crate::basics::padding_only_adds_spaces(word, width);
    assert(padded =~= word + padded.skip(word.len() as int));
}

proof fn lemma_line_shown(
    box_name: Seq<char>,
    width: nat,
    images: Seq<ImageFactsView>,
    unused: Seq<Seq<char>>,
    i: int,
)
    requires
        0 <= i < images.len(),
    ensures
        laws::shows(
            storage::image_lines(box_name, width, images, unused),
            storage::image_line(box_name, width, images[i], unused.contains(images[i].path)),
        ),
    decreases images.len(),
{
    let line = storage::image_line(box_name, width, images[i], unused.contains(images[i].path));
    let init = images.drop_last();
    let before = storage::image_lines(box_name, width, init, unused);
    let last = storage::image_line(
        box_name,
        width,
        images.last(),
        unused.contains(images.last().path),
    );
    if i < init.len() {
        lemma_line_shown(box_name, width, init, unused, i);
        assert(init[i] == images[i]);
    } else {
        laws::lemma_shows_itself(line);
    }
    laws::lemma_shows_add(before, last, line);
}

/// Every image has its line on the page: with its name, how large it may
/// become, what it takes on disk, and, where no recipe uses it, how to be rid
/// of it. The page ends with what they take together.
pub proof fn every_image_is_on_the_page(
    bx: BoxView,
    state: BoxState,
    images: Seq<ImageFactsView>,
    unused: Seq<Seq<char>>,
    i: int,
)
    requires
        0 <= i < images.len(),
    ensures
        ({
            let page = storage::storage_page(bx, state, images, unused);
            let line = storage::image_line(
                bx.name,
                storage::name_width(images),
                images[i],
                unused.contains(images[i].path),
            );
            &&& laws::shows(page, line)
            &&& laws::shows(page, text::padded_left(
                storage::mib_text(storage::disk_total(images)),
                12,
            ) + " on disk\n"@)
        }),
{
    let width = storage::name_width(images);
    let line = storage::image_line(bx.name, width, images[i], unused.contains(images[i].path));
    let lines = storage::image_lines(bx.name, width, images, unused);
    lemma_line_shown(bx.name, width, images, unused, i);
    let head = text::padded_right(state::state_word(state), 12) + " "@ + bx.name + "\n"@;
    let total = text::padded_left(storage::mib_text(storage::disk_total(images)), 12);
    let a = head + lines;
    let b = a + "  "@;
    let c = b + text::padded_right("total"@, width);
    let d = c + "  "@;
    let e = d + text::padded_left(Seq::empty(), 12);
    let f = e + "  "@;
    laws::lemma_shows_add(head, lines, line);
    laws::lemma_shows_add(a, "  "@, line);
    laws::lemma_shows_add(b, text::padded_right("total"@, width), line);
    laws::lemma_shows_add(c, "  "@, line);
    laws::lemma_shows_add(d, text::padded_left(Seq::empty(), 12), line);
    laws::lemma_shows_add(e, "  "@, line);
    laws::lemma_shows_add(f, total, line);
    laws::lemma_shows_add(f + total, " on disk\n"@, line);
    laws::lemma_shows_itself(total + " on disk\n"@);
    laws::lemma_shows_add(f, total + " on disk\n"@, total + " on disk\n"@);
    assert(f + (total + " on disk\n"@) =~= f + total + " on disk\n"@);
}

/// The line of an image names it, and tells both of its sizes, the one it may
/// come to before the one it takes; it is called unused just where it is.
pub proof fn lines_of_images_tell_both_sizes(
    box_name: Seq<char>,
    width: nat,
    image: ImageFactsView,
    unused: bool,
)
    ensures
        ({
            let line = storage::image_line(box_name, width, image, unused);
            let sizes = text::padded_left(storage::mib_text(image.virtual_bytes), 12) + "  "@
                + text::padded_left(storage::mib_text(image.disk_bytes), 12) + " on disk"@;
            &&& laws::shows(
                line,
                text::padded_right(render::printable(storage::image_name(image.path)), width),
            )
            &&& !unused ==> laws::shows(line, sizes + "\n"@)
            &&& unused ==> laws::shows(
                line,
                sizes + "  (unused - `terra "@ + box_name + " storage prune` removes it)"@,
            )
        }),
{
    let name = text::padded_right(render::printable(storage::image_name(image.path)), width);
    let sizes = text::padded_left(storage::mib_text(image.virtual_bytes), 12) + "  "@
        + text::padded_left(storage::mib_text(image.disk_bytes), 12) + " on disk"@;
    let note = if unused {
        "  (unused - `terra "@ + box_name + " storage prune` removes it)"@
    } else {
        Seq::empty()
    };
    let line = storage::image_line(box_name, width, image, unused);
    assert(line =~= "  "@ + name + ("  "@ + sizes + note + "\n"@));
    if unused {
        let part = sizes + "  (unused - `terra "@ + box_name
            + " storage prune` removes it)"@;
        assert(line =~= ("  "@ + name + "  "@) + part + "\n"@);
    } else {
        let none = Seq::<char>::empty();
        assert(line =~= ("  "@ + name + "  "@) + (sizes + "\n"@) + none);
    }
}

/// A box is reported stopped where it was stopped already, stopped when asked
/// to or was killed; every other end of a stop is a failure.
pub proof fn stops_are_reported_as_they_ended(bx: BoxView, ended: Result<StopOutcome, Refusal>)
    ensures
        stop::stop_report(bx, ended) is Ok <==> {
            ||| ended == Ok::<_, Refusal>(StopOutcome::AlreadyStopped)
            ||| ended == Ok::<_, Refusal>(StopOutcome::StoppedGracefully)
            ||| ended == Ok::<_, Refusal>(StopOutcome::Killed)
        },
        ended matches Err(why) ==> stop::stop_report(bx, ended) matches Err(said) && said.len()
            == why.len() + 1 && said.skip(1) == why,
        stop::stop_report(bx, ended) matches Ok(line) ==> laws::shows(line, state::shown(bx)),
{
    if let Err(why) = ended {
        let said = stop::stop_report(bx, ended)->Err_0;
        assert(said.skip(1) =~= why);
    }
    if let Ok(line) = stop::stop_report(bx, ended) {
        let name = state::shown(bx);
        laws::lemma_shows_itself(name);
        laws::lemma_shows_add("terra: "@, name, name);
        laws::lemma_shows_add("terra: "@ + name, " stopped"@, name);
        laws::lemma_shows_add("terra: "@ + name, " is already stopped"@, name);
    }
}

/// What a rehearsal tells of a step names what the step is done to, and, of a
/// copy, its size, and, of a link, where it leads. Only what would not be
/// touched is passed over.
pub proof fn rehearsals_tell_every_step(action: ActionView)
    ensures
        ({
            let line = exec::dry_run_line(action);
            &&& !(action is Skip) ==> laws::shows(line, render::printable(plan::path_of(action)))
            &&& action is Skip ==> line.len() == 0
            &&& action matches ActionView::TransferFile { size, .. } ==> laws::shows(
                line,
                " ("@ + text::decimal(size as nat) + " bytes)"@,
            )
            &&& action matches ActionView::CreateSymlink { target, .. } ==> laws::shows(
                line,
                " -> "@ + render::printable(target),
            )
        }),
{
    let path = render::printable(plan::path_of(action));
    let none = Seq::<char>::empty();
    match action {
        ActionView::CreateDir { rel_path, .. } => {
            assert(exec::dry_run_line(action) =~= "terra: [dry-run] mkdir "@ + path + none);
        },
        ActionView::TransferFile { rel_path, size, .. } => {
            let rest = " ("@ + text::decimal(size as nat) + " bytes)"@;
            assert(exec::dry_run_line(action) =~= "terra: [dry-run] copy "@ + path + rest);
            assert(exec::dry_run_line(action) =~= ("terra: [dry-run] copy "@ + path) + rest
                + none);
        },
        ActionView::CreateSymlink { rel_path, target } => {
            let rest = " -> "@ + render::printable(target);
            assert(exec::dry_run_line(action) =~= "terra: [dry-run] symlink "@ + path + rest);
            assert(exec::dry_run_line(action) =~= ("terra: [dry-run] symlink "@ + path) + rest
                + none);
        },
        ActionView::UpdateFileMetadata { rel_path, .. } => {
            assert(exec::dry_run_line(action) =~= "terra: [dry-run] chmod/mtime "@ + path + none);
        },
        ActionView::RemoveEntry { rel_path, is_dir } => {
            if is_dir {
                assert(exec::dry_run_line(action) =~= "terra: [dry-run] rm dir "@ + path + none);
            } else {
                assert(exec::dry_run_line(action) =~= "terra: [dry-run] rm file "@ + path + none);
            }
        },
        ActionView::UpdateDirMetadata { rel_path, .. } => {
            assert(exec::dry_run_line(action) =~= "terra: [dry-run] dir mtime "@ + path + none);
        },
        ActionView::Skip { .. } => {},
    }
}

/// The last line of a run tells where files went from and to, in this order,
/// and how many bytes; and how many files were copied and removed, unless it
/// was the one file that was asked for.
pub proof fn runs_are_summed_up(
    from: Seq<char>,
    to: Seq<char>,
    stats: SyncStats,
    is_dry_run: bool,
    is_single_file: bool,
)
    ensures
        ({
            let line = exec::result_line(from, to, stats, is_dry_run, is_single_file);
            let is_plain = is_single_file && stats.copied_count == 1 && stats.deleted_count == 0;
            let bytes = text::decimal(stats.transferred_bytes as nat);
            let copied = text::decimal(stats.copied_count as nat);
            let deleted = text::decimal(stats.deleted_count as nat);
            &&& laws::shows(line, render::printable(from) + " -> "@ + render::printable(to))
            &&& is_dry_run ==> laws::shows(
                line,
                "("@ + copied + " planned copies, "@ + bytes + " estimated bytes, "@ + deleted
                    + " planned deletes)"@,
            )
            &&& !is_dry_run && is_plain ==> laws::shows(line, "("@ + bytes + " bytes)"@)
            &&& !is_dry_run && !is_plain ==> laws::shows(
                line,
                "("@ + copied + " copied, "@ + bytes + " bytes, "@,
            ) && laws::shows(
                line,
                text::decimal(stats.metadata_updated_count as nat) + " metadata updated, "@
                    + deleted + " deleted, "@ + text::decimal(stats.skipped_count as nat)
                    + " skipped)"@,
            )
        }),
{
    reveal_strlit(" (");
    reveal_strlit("(");
    let from = render::printable(from);
    let to = render::printable(to);
    let way = from + " -> "@ + to;
    let bytes = text::decimal(stats.transferred_bytes as nat);
    let copied = text::decimal(stats.copied_count as nat);
    let deleted = text::decimal(stats.deleted_count as nat);
    let updated = text::decimal(stats.metadata_updated_count as nat);
    let skipped = text::decimal(stats.skipped_count as nat);
    assert(" ("@ =~= seq![' '] + "("@);
    if is_dry_run {
        let head = "terra: [dry-run] sync "@;
        let start = head + from + " -> "@ + to;
        lemma_way_shown(head, from, to);
        laws::lemma_shows_add(start, " ("@, way);
        let a = "("@ + copied;
        let b = a + " planned copies, "@;
        let c = b + bytes;
        let d = c + " estimated bytes, "@;
        let e = d + deleted;
        let f = e + " planned deletes)"@;
        lemma_opened(start);
        lemma_grouped(start + seq![' '], "("@, copied);
        lemma_grouped(start + seq![' '], a, " planned copies, "@);
        lemma_grouped(start + seq![' '], b, bytes);
        lemma_grouped(start + seq![' '], c, " estimated bytes, "@);
        lemma_grouped(start + seq![' '], d, deleted);
        lemma_grouped(start + seq![' '], e, " planned deletes)"@);
        laws::lemma_shows_itself(f);
        laws::lemma_shows_add(start + seq![' '], f, f);
        laws::lemma_shows_add(start, seq![' '], way);
        laws::lemma_shows_add(start + seq![' '], f, way);
    } else if is_single_file && stats.copied_count == 1 && stats.deleted_count == 0 {
        let head = "terra: copied "@;
        let start = head + from + " -> "@ + to;
        lemma_way_shown(head, from, to);
        let a = "("@ + bytes;
        let b = a + " bytes)"@;
        lemma_opened(start);
        lemma_grouped(start + seq![' '], "("@, bytes);
        lemma_grouped(start + seq![' '], a, " bytes)"@);
        laws::lemma_shows_itself(b);
        laws::lemma_shows_add(start + seq![' '], b, b);
        laws::lemma_shows_add(start, seq![' '], way);
        laws::lemma_shows_add(start + seq![' '], b, way);
    } else {
        let head = "terra: sync "@;
        let start = head + from + " -> "@ + to;
        lemma_way_shown(head, from, to);
        let a = "("@ + copied;
        let b = a + " copied, "@;
        let c = b + bytes;
        let d = c + " bytes, "@;
        lemma_opened(start);
        lemma_grouped(start + seq![' '], "("@, copied);
        lemma_grouped(start + seq![' '], a, " copied, "@);
        lemma_grouped(start + seq![' '], b, bytes);
        lemma_grouped(start + seq![' '], c, " bytes, "@);
        laws::lemma_shows_itself(d);
        laws::lemma_shows_add(start + seq![' '], d, d);
        laws::lemma_shows_add(start, seq![' '], way);
        laws::lemma_shows_add(start + seq![' '], d, way);
        let front = start + seq![' '] + d;
        let k = updated + " metadata updated, "@;
        let l = k + deleted;
        let m = l + " deleted, "@;
        let n = m + skipped;
        let o = n + " skipped)"@;
        lemma_grouped(front, updated, " metadata updated, "@);
        lemma_grouped(front, k, deleted);
        lemma_grouped(front, l, " deleted, "@);
        lemma_grouped(front, m, skipped);
        lemma_grouped(front, n, " skipped)"@);
        laws::lemma_shows_itself(o);
        laws::lemma_shows_add(front, o, o);
        laws::lemma_shows_add(front, o, d);
        laws::lemma_shows_add(front, o, way);
    }
}

proof fn lemma_way_shown(head: Seq<char>, from: Seq<char>, to: Seq<char>)
    ensures
        laws::shows(head + from + " -> "@ + to, from + " -> "@ + to),
{
    let way = from + " -> "@ + to;
    assert(head + from + " -> "@ + to =~= head + way + Seq::<char>::empty());
}

proof fn lemma_opened(start: Seq<char>)
    ensures
        start + " ("@ == start + seq![' '] + "("@,
{
    reveal_strlit(" (");
    reveal_strlit("(");
    assert(start + " ("@ =~= start + seq![' '] + "("@);
}

proof fn lemma_grouped(front: Seq<char>, a: Seq<char>, b: Seq<char>)
    ensures
        front + a + b == front + (a + b),
{
    assert(front + a + b =~= front + (a + b));
}

/// A copy is told with where it went from and to, in this order, and its size.
pub proof fn copies_are_told_with_their_size(from: Seq<char>, to: Seq<char>, bytes: nat)
    ensures
        laws::shows(put_get::copied_line(from, to, bytes), from + " -> "@ + to),
        laws::shows(put_get::copied_line(from, to, bytes), text::decimal(bytes) + " bytes"@),
{
    reveal_strlit(" bytes)");
    reveal_strlit(" bytes");
    reveal_strlit(")");
    let line = put_get::copied_line(from, to, bytes);
    assert(" bytes)"@ =~= " bytes"@ + ")"@);
    assert(line =~= "terra: copied "@ + (from + " -> "@ + to) + (" ("@ + text::decimal(bytes)
        + " bytes)"@));
    assert(line =~= ("terra: copied "@ + from + " -> "@ + to + " ("@) + (text::decimal(bytes)
        + " bytes"@) + ")"@);
}

/// Whoever is asked to approve a recipe sees what it would grant, and before
/// that whatever there is to warn of.
pub proof fn approvals_show_what_is_granted(
    lead: Seq<char>,
    warning: Option<Seq<char>>,
    cfg: ConfigView,
)
    ensures
        ({
            let page = setup::approval_page(lead, warning, cfg);
            &&& laws::leads(page, lead)
            &&& laws::shows(page, "It would grant:\n"@ + render::policy_summary(cfg))
            &&& warning matches Some(said) ==> laws::shows(page, said)
        }),
{
    let page = setup::approval_page(lead, warning, cfg);
    let warned = match warning {
        Some(text) => text + "\n"@,
        None => Seq::empty(),
    };
    let grants = "It would grant:\n"@ + render::policy_summary(cfg);
    assert(page =~= lead + ("\n"@ + warned + grants));
    assert(page =~= (lead + "\n"@ + warned) + grants + Seq::<char>::empty());
    if let Some(said) = warning {
        assert(page =~= (lead + "\n"@) + said + ("\n"@ + grants));
    }
}

proof fn lemma_joined_shows(list: Seq<Seq<char>>, separator: Seq<char>, i: int)
    requires
        0 <= i < list.len(),
    ensures
        laws::shows(text::joined(list, separator), list[i]),
    decreases list.len(),
{
    laws::lemma_shows_itself(list[i]);
    if list.len() > 1 {
        let init = list.drop_last();
        if i < init.len() {
            lemma_joined_shows(init, separator, i);
            assert(init[i] == list[i]);
            laws::lemma_shows_add(text::joined(init, separator), separator, list[i]);
        }
        laws::lemma_shows_add(text::joined(init, separator) + separator, list.last(), list[i]);
    }
}

/// Every share of a sensitive directory is warned of, with where it is, what
/// it is and whether a box may write to it; and a recipe that someone else
/// may have written is warned of too. Only where there is neither nothing is
/// said.
pub proof fn sensitive_shares_are_warned_of(
    from: Seq<char>,
    authorship: Option<AuthorshipView>,
    mounts: Seq<SensitiveView>,
    i: int,
)
    ensures
        setup::pin_warning(from, authorship, mounts) is None <==> authorship is None
            && mounts.len() == 0,
        0 <= i < mounts.len() ==> {
            &&& setup::pin_warning(from, authorship, mounts) is Some
            &&& laws::shows(
                setup::pin_warning(from, authorship, mounts)->0,
                "mount '"@ + render::printable(mounts[i].host) + "' shares sensitive host "@
                    + mounts[i].category + " ("@ + (if mounts[i].readonly {
                    "read-only"@
                } else {
                    "read-write"@
                }) + ") with the sandbox"@,
            )
        },
        authorship matches Some(found) ==> laws::shows(
            setup::pin_warning(from, authorship, mounts)->0,
            setup::adoption_reason(from, found),
        ),
{
    let all = setup::pin_warnings(from, authorship, mounts);
    if 0 <= i < mounts.len() {
        let at = i + (if authorship is Some { 1int } else { 0int });
        let notice = setup::sensitive_notice(mounts[i]);
        assert(all[at] == "WARNING: "@ + notice + "."@);
        lemma_joined_shows(all, "\n"@, at);
        lemma_shows_inside(text::joined(all, "\n"@), "WARNING: "@, notice, "."@);
    }
    if let Some(found) = authorship {
        let reason = setup::adoption_reason(from, found);
        assert(all[0] == "WARNING: "@ + reason + "."@);
        lemma_joined_shows(all, "\n"@, 0);
        lemma_shows_inside(text::joined(all, "\n"@), "WARNING: "@, reason, "."@);
    }
}

proof fn lemma_shows_inside(page: Seq<char>, a: Seq<char>, part: Seq<char>, b: Seq<char>)
    requires
        laws::shows(page, a + part + b),
    ensures
        laws::shows(page, part),
{
    let whole = a + part + b;
    let (x, y) = choose|x: Seq<char>, y: Seq<char>| page == #[trigger] (x + whole + y);
    assert(page =~= (x + a) + part + (b + y));
}

/// Whoever is asked is told which recipe is to be pinned and to which box.
pub proof fn approvals_name_the_recipe_and_the_box(
    approval: Approval,
    bx: BoxView,
    from: Seq<char>,
)
    ensures
        laws::shows(approve::pin_lead(approval, bx, from), render::printable(from)),
        approval == Approval::Offer ==> laws::shows(
            approve::pin_lead(approval, bx, from),
            "'"@ + bx.name + "' in "@ + bx.project_dir,
        ),
        approval != Approval::Offer ==> laws::shows(
            approve::pin_lead(approval, bx, from),
            state::shown(bx),
        ),
{
    reveal_strlit("no box '");
    reveal_strlit("no box ");
    reveal_strlit("'");
    let lead = approve::pin_lead(approval, bx, from);
    let recipe = render::printable(from);
    if approval == Approval::Offer {
        let bxs = "'"@ + bx.name + "' in "@ + bx.project_dir;
        assert("no box '"@ =~= "no box "@ + "'"@);
        assert(lead =~= "no box "@ + bxs + (" yet - "@ + recipe + " would build it"@));
        assert(lead =~= ("no box "@ + bxs + " yet - "@) + recipe + " would build it"@);
    } else {
        assert(lead =~= "pinning "@ + recipe + (" to "@ + state::shown(bx)));
        assert(lead =~= ("pinning "@ + recipe + " to "@) + state::shown(bx)
            + Seq::<char>::empty());
    }
}

} // verus!
