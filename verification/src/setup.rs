//! Pinning a recipe to a box: who has to agree to it, and what making the box
//! does to the disk. A boot runs only what was agreed to here.

use crate::config::{Config, ConfigView};
use crate::error::{self, Error, Refusal, refuse};
use crate::mount::{self, find_writable_mount_containing};
use crate::path::{self, is_equivalent};
use crate::render::{self, escape_printable_path, render_policy_summary};
use crate::text::{self, join_texts, same_text, spell};
use crate::unicode::{self, to_ascii_uppercase, trim};
use vstd::prelude::*;

pub mod approve;
pub mod laws;
pub mod prepare;

verus! {

/// Who vouches for a recipe: whoever chose it by hand, whoever is offered it,
/// or nobody, as it is only reported.
#[derive(Debug, Clone, Copy, PartialEq, Eq, Structural)]
pub enum Approval {
    ChosenByHand { trust_recipe: bool },
    Offer,
    Reported,
}

/// What is done about a recipe before it is pinned.
#[derive(Debug, Clone, Copy, PartialEq, Eq, Structural)]
pub enum PinAction {
    WithoutAsking,
    WarnAndPin,
    Ask { default_yes: bool },
    ReportOnly,
    RefuseUnasked,
}

/// The one table a pinning's fate is read from: who vouches, whether the
/// recipe is suspect, and whether there is anyone to ask.
pub open spec fn pinning(approval: Approval, is_suspect: bool, is_at_a_terminal: bool) -> PinAction {
    match approval {
        Approval::ChosenByHand { trust_recipe } => if !is_suspect {
            PinAction::WithoutAsking
        } else if trust_recipe {
            PinAction::WarnAndPin
        } else if is_at_a_terminal {
            PinAction::Ask { default_yes: false }
        } else {
            PinAction::RefuseUnasked
        },
        Approval::Offer => if is_at_a_terminal {
            PinAction::Ask { default_yes: !is_suspect }
        } else {
            PinAction::RefuseUnasked
        },
        Approval::Reported => if is_suspect && !is_at_a_terminal {
            PinAction::RefuseUnasked
        } else {
            PinAction::ReportOnly
        },
    }
}

pub fn decide_pinning(approval: Approval, is_suspect: bool, is_at_a_terminal: bool) -> (
    action: PinAction)
    ensures
        action == pinning(approval, is_suspect, is_at_a_terminal),
{
    match (approval, is_suspect, is_at_a_terminal) {
        (Approval::ChosenByHand { .. }, false, _) => PinAction::WithoutAsking,
        (Approval::ChosenByHand { trust_recipe: true }, true, _) => PinAction::WarnAndPin,
        (Approval::Reported, false, _) => PinAction::ReportOnly,
        (Approval::Reported, true, true) => PinAction::ReportOnly,
        (_, _, false) => PinAction::RefuseUnasked,
        (_, _, true) => PinAction::Ask { default_yes: !is_suspect },
    }
}

/// A dry run refuses exactly where the setup it stands for would, and a recipe
/// that is suspect is never pinned unseen: it is warned of, asked about with
/// no as the answer a bare Enter gives, or refused.
pub proof fn suspect_recipes_are_never_pinned_unseen(approval: Approval, is_at_a_terminal: bool)
    ensures
        forall|is_suspect: bool|
            #![trigger pinning(Approval::Reported, is_suspect, is_at_a_terminal)]
            pinning(Approval::Reported, is_suspect, is_at_a_terminal) == PinAction::RefuseUnasked
                <==> pinning(
                Approval::ChosenByHand { trust_recipe: false },
                is_suspect,
                is_at_a_terminal,
            ) == PinAction::RefuseUnasked,
        pinning(approval, true, is_at_a_terminal) != PinAction::WithoutAsking,
        pinning(approval, true, is_at_a_terminal) != (PinAction::Ask { default_yes: true }),
        pinning(approval, true, is_at_a_terminal) == PinAction::WarnAndPin ==> approval
            == (Approval::ChosenByHand { trust_recipe: true }),
{
}

/// Whether a text is a word, whatever the case of its letters.
pub open spec fn spells_like(text: Seq<char>, word: Seq<char>) -> bool {
    unicode::ascii_uppercase(text) == unicode::ascii_uppercase(word)
}

pub fn is_spelled_like(text: &str, word: &str) -> (yes: bool)
    ensures
        yes == spells_like(text@, word@),
{
    same_text(to_ascii_uppercase(text).as_str(), to_ascii_uppercase(word).as_str())
}

/// Whether an answer is a yes: `y` or `yes` in any case, and an empty one what
/// was offered as the default.
pub open spec fn says_yes(answer: Seq<char>, default_yes: bool) -> bool {
    let word = unicode::trimmed(answer);
    if word.len() == 0 {
        default_yes
    } else {
        spells_like(word, "y"@) || spells_like(word, "yes"@)
    }
}

pub fn answer_is_yes(answer: &str, default_yes: bool) -> (yes: bool)
    ensures
        yes == says_yes(answer@, default_yes),
{
    let word = trim(answer);
    if word.as_str().unicode_len() == 0 {
        return default_yes;
    }
    is_spelled_like(word.as_str(), "y") || is_spelled_like(word.as_str(), "yes")
}

/// Why a recipe may be a guest's doing.
#[derive(Debug)]
pub enum RecipeAuthorship {
    /// A file it depends on lies in a share a guest can write.
    WritableShare { recipe_or_manifest: String, share: String },
    UnreadablePinnedRecipe,
}

#[verifier::ext_equal]
pub enum AuthorshipView {
    WritableShare { recipe_or_manifest: Seq<char>, share: Seq<char> },
    UnreadablePinnedRecipe,
}

impl View for RecipeAuthorship {
    type V = AuthorshipView;

    open spec fn view(&self) -> AuthorshipView {
        match self {
            RecipeAuthorship::WritableShare {
                recipe_or_manifest,
                share,
            } => AuthorshipView::WritableShare {
                recipe_or_manifest: recipe_or_manifest@,
                share: share@,
            },
            RecipeAuthorship::UnreadablePinnedRecipe => AuthorshipView::UnreadablePinnedRecipe,
        }
    }
}

/// What an authorship, if any, shows.
pub open spec fn authorship_of(found: Option<RecipeAuthorship>) -> Option<AuthorshipView> {
    match found {
        Some(authorship) => Some(authorship@),
        None => None,
    }
}

/// A file a recipe depends on, as it is named and with its links followed.
#[derive(Debug)]
pub struct Carrier {
    pub path: String,
    pub followed: String,
}

/// The shares of a box a guest can write, links followed; `None` where its
/// recipe cannot be read.
pub open spec fn shares_of(shares: Option<Vec<String>>) -> Option<Seq<Seq<char>>> {
    match shares {
        Some(list) => Some(text::texts(list@)),
        None => None,
    }
}

/// What the shares of the boxes say of one file, the first that speaks.
pub open spec fn carrier_authorship(
    path: Seq<char>,
    followed: Seq<char>,
    boxes: Seq<Option<Vec<String>>>,
) -> Option<AuthorshipView>
    decreases boxes.len(),
{
    if boxes.len() == 0 {
        None
    } else {
        match shares_of(boxes[0]) {
            None => Some(AuthorshipView::UnreadablePinnedRecipe),
            Some(shares) => match mount::containing_share(followed, shares) {
                Some(share) => Some(
                    AuthorshipView::WritableShare { recipe_or_manifest: path, share },
                ),
                None => carrier_authorship(path, followed, boxes.drop_first()),
            },
        }
    }
}

/// What the shares of the boxes say of the files a recipe depends on.
pub open spec fn carriers_authorship(carriers: Seq<Carrier>, boxes: Seq<Option<Vec<String>>>) -> Option<
    AuthorshipView,
>
    decreases carriers.len(),
{
    if carriers.len() == 0 {
        None
    } else {
        match carrier_authorship(carriers[0].path@, carriers[0].followed@, boxes) {
            Some(authorship) => Some(authorship),
            None => carriers_authorship(carriers.drop_first(), boxes),
        }
    }
}

fn find_author(carrier: &Carrier, boxes: &Vec<Option<Vec<String>>>) -> (found: Option<
    RecipeAuthorship,
>)
    ensures
        authorship_of(found) == carrier_authorship(carrier.path@, carrier.followed@, boxes@),
{
    let mut i: usize = 0;
    proof {
        assert(boxes@.skip(0) =~= boxes@);
    }
    while i < boxes.len()
        invariant
            i <= boxes@.len(),
            carrier_authorship(carrier.path@, carrier.followed@, boxes@) == carrier_authorship(
                carrier.path@,
                carrier.followed@,
                boxes@.skip(i as int),
            ),
        decreases boxes.len() - i,
    {
        proof {
            assert(boxes@.skip(i as int)[0] == boxes@[i as int]);
            assert(boxes@.skip(i as int).drop_first() =~= boxes@.skip(i + 1));
        }
        match &boxes[i] {
            None => {
                return Some(RecipeAuthorship::UnreadablePinnedRecipe);
            },
            Some(shares) => {
                if let Some(share) = find_writable_mount_containing(
                    carrier.followed.as_str(),
                    shares,
                ) {
                    return Some(
                        RecipeAuthorship::WritableShare {
                            recipe_or_manifest: carrier.path.as_str().to_owned(),
                            share,
                        },
                    );
                }
            },
        }
        i = i + 1;
    }
    None
}

/// Whether a guest could have written a recipe: `carriers` are the files it
/// depends on, `boxes` the writable shares of every pinned recipe, `None` where
/// those could not be listed at all.
pub fn find_guest_writable_share_containing(
    carriers: &Vec<Carrier>,
    boxes: &Option<Vec<Option<Vec<String>>>>,
) -> (found: Option<RecipeAuthorship>)
    ensures
        authorship_of(found) == (match *boxes {
            None => Some(AuthorshipView::UnreadablePinnedRecipe),
            Some(boxes) => carriers_authorship(carriers@, boxes@),
        }),
{
    let known = match boxes {
        Some(known) => known,
        None => {
            return Some(RecipeAuthorship::UnreadablePinnedRecipe);
        },
    };
    let mut i: usize = 0;
    proof {
        assert(carriers@.skip(0) =~= carriers@);
    }
    while i < carriers.len()
        invariant
            i <= carriers@.len(),
            *boxes == Some(*known),
            carriers_authorship(carriers@, known@) == carriers_authorship(
                carriers@.skip(i as int),
                known@,
            ),
        decreases carriers.len() - i,
    {
        proof {
            assert(carriers@.skip(i as int)[0] == carriers@[i as int]);
            assert(carriers@.skip(i as int).drop_first() =~= carriers@.skip(i + 1));
        }
        let found = find_author(&carriers[i], known);
        if found.is_some() {
            return found;
        }
        i = i + 1;
    }
    None
}

/// A recipe nobody suspects lies in no share a guest can write, nor does any
/// file it depends on.
pub proof fn unsuspected_files_lie_in_no_writable_share(
    carriers: Seq<Carrier>,
    boxes: Seq<Option<Vec<String>>>,
    file: int,
    by: int,
    share: int,
)
    requires
        carriers_authorship(carriers, boxes) is None,
        0 <= file < carriers.len(),
        0 <= by < boxes.len(),
    ensures
        boxes[by] is Some,
        0 <= share < boxes[by]->0@.len() ==> !crate::path::lies_under(
            carriers[file].followed@,
            boxes[by]->0@[share]@,
        ),
    decreases carriers.len(), boxes.len(),
{
    if file > 0 {
        assert(carriers.drop_first()[file - 1] == carriers[file]);
        unsuspected_files_lie_in_no_writable_share(
            carriers.drop_first(),
            boxes,
            file - 1,
            by,
            share,
        );
    } else {
        lemma_carrier_clear(carriers[0].path@, carriers[0].followed@, boxes, by, share);
    }
}

proof fn lemma_carrier_clear(
    path: Seq<char>,
    followed: Seq<char>,
    boxes: Seq<Option<Vec<String>>>,
    by: int,
    share: int,
)
    requires
        carrier_authorship(path, followed, boxes) is None,
        0 <= by < boxes.len(),
    ensures
        boxes[by] is Some,
        0 <= share < boxes[by]->0@.len() ==> !crate::path::lies_under(
            followed,
            boxes[by]->0@[share]@,
        ),
    decreases boxes.len(),
{
    if by > 0 {
        assert(boxes.drop_first()[by - 1] == boxes[by]);
        lemma_carrier_clear(path, followed, boxes.drop_first(), by - 1, share);
    } else if 0 <= share < boxes[0]->0@.len() {
        let shares = text::texts(boxes[0]->0@);
        assert(shares[share] == boxes[0]->0@[share]@);
        lemma_share_clear(followed, shares, share);
    }
}

proof fn lemma_share_clear(followed: Seq<char>, shares: Seq<Seq<char>>, share: int)
    requires
        mount::containing_share(followed, shares) is None,
        0 <= share < shares.len(),
    ensures
        !crate::path::lies_under(followed, shares[share]),
    decreases shares.len(),
{
    if share > 0 {
        assert(shares.drop_first()[share - 1] == shares[share]);
        lemma_share_clear(followed, shares.drop_first(), share - 1);
    }
}

/// Why a recipe is suspect, in words.
pub open spec fn adoption_reason(from: Seq<char>, authorship: AuthorshipView) -> Seq<char> {
    match authorship {
        AuthorshipView::UnreadablePinnedRecipe => {
            "a box's pinned recipe cannot be read to determine whether a guest could have written "@
                + render::printable(from)
        },
        AuthorshipView::WritableShare { recipe_or_manifest, share } => {
            let why = render::printable(recipe_or_manifest) + " lives inside '"@ + render::printable(share)
                + "', which a box of this directory shares read-write - a guest may be the author of it"@;
            if path::equivalent(recipe_or_manifest, from) {
                why
            } else {
                why + ", and it is what names "@ + render::printable(from) + " as this box's recipe"@
            }
        },
    }
}

pub fn build_adoption_reason(from: &str, authorship: &RecipeAuthorship) -> (why: String)
    ensures
        why@ == adoption_reason(from@, authorship@),
{
    match authorship {
        RecipeAuthorship::UnreadablePinnedRecipe => {
            let mut why: String =
                "a box's pinned recipe cannot be read to determine whether a guest could have written ".to_owned();
            why.append(escape_printable_path(from).as_str());
            why
        },
        RecipeAuthorship::WritableShare { recipe_or_manifest, share } => {
            let mut why: String = escape_printable_path(recipe_or_manifest.as_str());
            why.append(" lives inside '");
            why.append(escape_printable_path(share.as_str()).as_str());
            why.append(
                "', which a box of this directory shares read-write - a guest may be the author of it",
            );
            if !is_equivalent(recipe_or_manifest.as_str(), from) {
                why.append(", and it is what names ");
                why.append(escape_printable_path(from).as_str());
                why.append(" as this box's recipe");
            }
            why
        },
    }
}

/// A mount that shares something of the host that ought to stay there.
#[derive(Debug)]
pub struct SensitiveMount {
    pub host: String,
    pub readonly: bool,
    /// What it shares.
    pub category: String,
}

#[verifier::ext_equal]
pub struct SensitiveView {
    pub host: Seq<char>,
    pub readonly: bool,
    pub category: Seq<char>,
}

impl View for SensitiveMount {
    type V = SensitiveView;

    open spec fn view(&self) -> SensitiveView {
        SensitiveView { host: self.host@, readonly: self.readonly, category: self.category@ }
    }
}

/// What a list of such mounts shows.
pub open spec fn sensitives(list: Seq<SensitiveMount>) -> Seq<SensitiveView> {
    Seq::new(list.len(), |i: int| list[i]@)
}

/// What is said of a mount that shares something sensitive.
pub open spec fn sensitive_notice(mount: SensitiveView) -> Seq<char> {
    let access = if mount.readonly {
        "read-only"@
    } else {
        "read-write"@
    };
    "mount '"@ + render::printable(mount.host) + "' shares sensitive host "@ + mount.category + " ("@
        + access + ") with the sandbox"@
}

pub fn describe_sensitive_mount(mount: &SensitiveMount) -> (line: String)
    ensures
        line@ == sensitive_notice(mount@),
{
    let mut line: String = "mount '".to_owned();
    line.append(escape_printable_path(mount.host.as_str()).as_str());
    line.append("' shares sensitive host ");
    line.append(mount.category.as_str());
    line.append(" (");
    if mount.readonly {
        line.append("read-only");
    } else {
        line.append("read-write");
    }
    line.append(") with the sandbox");
    line
}

/// The warnings before a pinning, one for each thing that is wrong.
pub open spec fn pin_warnings(
    from: Seq<char>,
    authorship: Option<AuthorshipView>,
    mounts: Seq<SensitiveView>,
) -> Seq<Seq<char>> {
    let lead = match authorship {
        Some(found) => seq!["WARNING: "@ + adoption_reason(from, found) + "."@],
        None => Seq::empty(),
    };
    lead + Seq::new(mounts.len(), |i: int| "WARNING: "@ + sensitive_notice(mounts[i]) + "."@)
}

/// The warnings as one text, `None` where there are none.
pub open spec fn pin_warning(
    from: Seq<char>,
    authorship: Option<AuthorshipView>,
    mounts: Seq<SensitiveView>,
) -> Option<Seq<char>> {
    let all = pin_warnings(from, authorship, mounts);
    if all.len() == 0 {
        None
    } else {
        Some(text::joined(all, "\n"@))
    }
}

pub(crate) fn warn_of_pin(from: &str, authorship: &Option<RecipeAuthorship>, mounts: &Vec<SensitiveMount>) -> (
    warning: Option<String>)
    ensures
        text::text_of(warning) == pin_warning(from@, authorship_of(*authorship), sensitives(mounts@)),
{
    let ghost all = pin_warnings(from@, authorship_of(*authorship), sensitives(mounts@));
    let mut lines: Vec<String> = Vec::new();
    if let Some(found) = authorship {
        let mut line: String = "WARNING: ".to_owned();
        line.append(build_adoption_reason(from, found).as_str());
        line.append(".");
        lines.push(line);
    }
    let ghost first = text::texts(lines@);
    let ghost rest = Seq::new(
        mounts@.len(),
        |i: int| "WARNING: "@ + sensitive_notice(sensitives(mounts@)[i]) + "."@,
    );
    let mut i: usize = 0;
    proof {
        assert(all =~= first + rest);
        assert(text::texts(lines@) =~= first + rest.take(0));
    }
    while i < mounts.len()
        invariant
            i <= mounts@.len() == rest.len(),
            rest == Seq::new(
                mounts@.len(),
                |i: int| "WARNING: "@ + sensitive_notice(sensitives(mounts@)[i]) + "."@,
            ),
            text::texts(lines@) == first + rest.take(i as int),
        decreases mounts.len() - i,
    {
        let ghost before = lines@;
        let mut line: String = "WARNING: ".to_owned();
        line.append(describe_sensitive_mount(&mounts[i]).as_str());
        line.append(".");
        lines.push(line);
        proof {
            text::lemma_texts_push(before, lines@.last());
            assert(rest[i as int] == lines@.last()@);
            assert(text::texts(lines@) =~= first + rest.take(i + 1));
        }
        i = i + 1;
    }
    proof {
        assert(rest.take(i as int) =~= rest);
        assert(text::texts(lines@).len() == lines@.len());
    }
    if lines.len() == 0 {
        None
    } else {
        Some(join_texts(&lines, "\n"))
    }
}

/// What is shown before a recipe is agreed to: what it is, what is wrong with
/// it, and everything it would grant.
pub open spec fn approval_page(lead: Seq<char>, warning: Option<Seq<char>>, cfg: ConfigView) -> Seq<
    char,
> {
    let warned = match warning {
        Some(text) => text + "\n"@,
        None => Seq::empty(),
    };
    lead + "\n"@ + warned + "It would grant:\n"@ + render::policy_summary(cfg)
}

pub fn render_approval_page(lead: &str, warning: &Option<String>, cfg: &Config) -> (page: String)
    ensures
        page@ == approval_page(lead@, text::text_of(*warning), cfg@),
{
    let mut page: String = lead.to_owned();
    page.append("\n");
    if let Some(text) = warning {
        page.append(text.as_str());
        page.append("\n");
    }
    page.append("It would grant:\n");
    page.append(render_policy_summary(cfg).as_str());
    proof {
        assert(page@ =~= approval_page(lead@, text::text_of(*warning), cfg@));
    }
    page
}

/// What is put to whoever sets up a box.
#[derive(Debug)]
pub enum PinQuestion {
    Nothing,
    /// Something to say, and nothing to ask.
    Notice(String),
    Refuse(Error),
    Ask { page: String, default_yes: bool },
}

#[verifier::ext_equal]
pub enum QuestionView {
    Nothing,
    Notice(Seq<char>),
    Refuse(Refusal),
    Ask { page: Seq<char>, default_yes: bool },
}

impl View for PinQuestion {
    type V = QuestionView;

    open spec fn view(&self) -> QuestionView {
        match self {
            PinQuestion::Nothing => QuestionView::Nothing,
            PinQuestion::Notice(text) => QuestionView::Notice(text@),
            PinQuestion::Refuse(error) => QuestionView::Refuse(error@),
            PinQuestion::Ask { page, default_yes } => QuestionView::Ask {
                page: page@,
                default_yes: *default_yes,
            },
        }
    }
}

/// How a pinning is put.
pub open spec fn question(
    action: PinAction,
    lead: Seq<char>,
    warning: Option<Seq<char>>,
    cfg: ConfigView,
    box_name: Seq<char>,
) -> QuestionView {
    let page = approval_page(lead, warning, cfg);
    match action {
        PinAction::WithoutAsking => QuestionView::Nothing,
        PinAction::WarnAndPin => match warning {
            Some(text) => QuestionView::Notice(
                "terra: "@ + text + " Pinning it anyway (--trust-recipe)."@,
            ),
            None => QuestionView::Nothing,
        },
        PinAction::ReportOnly => match warning {
            Some(text) => QuestionView::Notice(
                "terra: "@ + text
                    + " A real setup would put it to you, and needs --trust-recipe where there is no terminal to ask on."@,
            ),
            None => QuestionView::Nothing,
        },
        PinAction::RefuseUnasked => QuestionView::Refuse(
            error::refusal(
                page + "\nThere is no terminal to ask on. Review the file, then `terra "@ + box_name
                    + " setup --trust-recipe` to pin it."@,
            ),
        ),
        PinAction::Ask { default_yes } => QuestionView::Ask { page: "terra: "@ + page, default_yes },
    }
}

pub fn put_the_question(
    action: PinAction,
    lead: &str,
    warning: &Option<String>,
    cfg: &Config,
    box_name: &str,
) -> (put: PinQuestion)
    ensures
        put@ == question(action, lead@, text::text_of(*warning), cfg@, box_name@),
{
    match action {
        PinAction::WithoutAsking => PinQuestion::Nothing,
        PinAction::WarnAndPin => match warning {
            Some(text) => {
                let mut notice: String = "terra: ".to_owned();
                notice.append(text.as_str());
                notice.append(" Pinning it anyway (--trust-recipe).");
                PinQuestion::Notice(notice)
            },
            None => PinQuestion::Nothing,
        },
        PinAction::ReportOnly => match warning {
            Some(text) => {
                let mut notice: String = "terra: ".to_owned();
                notice.append(text.as_str());
                notice.append(
                    " A real setup would put it to you, and needs --trust-recipe where there is no terminal to ask on.",
                );
                PinQuestion::Notice(notice)
            },
            None => PinQuestion::Nothing,
        },
        PinAction::RefuseUnasked => {
            let mut message: String = render_approval_page(lead, warning, cfg);
            message.append("\nThere is no terminal to ask on. Review the file, then `terra ");
            message.append(box_name);
            message.append(" setup --trust-recipe` to pin it.");
            PinQuestion::Refuse(Error::new(message))
        },
        PinAction::Ask { default_yes } => {
            let mut page: String = "terra: ".to_owned();
            page.append(render_approval_page(lead, warning, cfg).as_str());
            PinQuestion::Ask { page, default_yes }
        },
    }
}

/// The prompt that follows the page; it spells out the default.
pub fn prompt(default_yes: bool) -> (text: &'static str)
    ensures
        text@ == (if default_yes {
            "terra: pin it? [Y/n] "@
        } else {
            "terra: pin it? [y/N] "@
        }),
{
    if default_yes {
        "terra: pin it? [Y/n] "
    } else {
        "terra: pin it? [y/N] "
    }
}

/// Whether a box can have so many mounts and volumes.
pub open spec fn devices_verdict(mounts: nat, volumes: nat, max: nat) -> Result<(), Refusal> {
    if mounts + volumes > usize::MAX {
        Err(error::refusal("too many volumes and host-directory mounts"@))
    } else if mounts + volumes > max {
        Err(
            error::refusal(
                "a box supports at most "@ + text::decimal(max)
                    + " combined volumes and host-directory mounts; remove a volume or mount"@,
            ),
        )
    } else {
        Ok(())
    }
}

pub fn validate_storage_devices(cfg: &Config, max: usize) -> (verdict: Result<(), Error>)
    ensures
        crate::error::outcome(verdict) == devices_verdict(
            cfg@.mounts.len(),
            cfg@.volumes.len(),
            max as nat,
        ),
{
    let count: usize = match cfg.mounts.len().checked_add(cfg.volumes.len()) {
        Some(count) => count,
        None => {
            return Err(refuse("too many volumes and host-directory mounts"));
        },
    };
    if count > max {
        let mut message: String = "a box supports at most ".to_owned();
        message.append(spell(max as u64).as_str());
        message.append(
            " combined volumes and host-directory mounts; remove a volume or mount",
        );
        return Err(Error::new(message));
    }
    Ok(())
}

} // verus!
