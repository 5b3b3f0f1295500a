//! Which box a command line means.

use crate::config::Manifest;
use crate::error::{self, Error, Refusal};
use crate::host::{self, Home, HomeView, HostOs, skip_drive};
use crate::name::{self, is_recipe_ext, validate_box_name};
use crate::ordered::{self, TextMap, dedup_texts, sort_texts};
use crate::path::{self, extension_of, file_stem_of};
use crate::recipe::{self, resolve_recipe_path};
use crate::render::{self, escape_printable, escape_printable_path};
use crate::state::{self, BoxRef, BoxView};
use crate::text::{self, chars_of, join_texts, same_text};
use vstd::prelude::*;

pub mod laws;

verus! {

/// Whether a word names a file rather than a box: it begins like a path,
/// holds a separator of the host, or ends like a recipe.
pub open spec fn path_like(word: Seq<char>, os: HostOs) -> bool {
    ||| word.len() > 0 && (word[0] == '.' || word[0] == '/' || word[0] == '~')
    ||| exists|i: int| 0 <= i < word.len() && host::separates(#[trigger] word[i], os)
    ||| name::recipe_extension(path::extension(host::past_drive(word, os)))
}

pub fn is_path(word: &str, os: HostOs) -> (yes: bool)
    ensures
        yes == path_like(word@, os),
{
    let chars = chars_of(word);
    if chars.len() > 0 && (chars[0] == '.' || chars[0] == '/' || chars[0] == '~') {
        return true;
    }
    let mut i: usize = 0;
    while i < chars.len()
        invariant
            i <= chars@.len(),
            chars@ == word@,
            forall|k: int| 0 <= k < i ==> !host::separates(#[trigger] word@[k], os),
        decreases chars.len() - i,
    {
        if chars[i] == '/' || os == HostOs::Windows && chars[i] == '\\' {
            proof {
                assert(host::separates(word@[i as int], os));
            }
            return true;
        }
        i = i + 1;
    }
    is_recipe_ext(&extension_of(skip_drive(word, os).as_str()))
}

/// What one word of the command line means: a bare word names a box, a path a
/// recipe file.
#[derive(Debug)]
pub enum BoxArg {
    Name(String),
    RecipePath { path: String, name: String },
}

#[verifier::ext_equal]
pub enum BoxArgView {
    Name(Seq<char>),
    RecipePath { path: Seq<char>, name: Seq<char> },
}

impl View for BoxArg {
    type V = BoxArgView;

    open spec fn view(&self) -> BoxArgView {
        match self {
            BoxArg::Name(name) => BoxArgView::Name(name@),
            BoxArg::RecipePath { path, name } => BoxArgView::RecipePath { path: path@, name: name@ },
        }
    }
}

/// What a word means, or why it means nothing. A recipe file gives its box the
/// name it has without its extension, as it stands.
pub open spec fn box_arg(word: Seq<char>, os: HostOs) -> Result<BoxArgView, Refusal> {
    if !path_like(word, os) {
        match name::box_name(word) {
            Ok(_) => Ok(BoxArgView::Name(word)),
            Err(refused) => Err(refused),
        }
    } else {
        let name = match path::file_stem(host::past_drive(word, os)) {
            Some(stem) => stem,
            None => Seq::empty(),
        };
        match name::box_name(name) {
            Ok(_) => Ok(BoxArgView::RecipePath { path: word, name }),
            Err(refused) => Err(error::refusal("resolving '"@ + word + "'"@) + refused),
        }
    }
}

impl BoxArg {
    pub fn parse(arg: &str, os: HostOs) -> (parsed: Result<BoxArg, Error>)
        ensures
            match parsed {
                Ok(meant) => box_arg(arg@, os) == Ok::<_, Refusal>(meant@),
                Err(error) => box_arg(arg@, os) == Err::<BoxArgView, _>(error@),
            },
    {
        if !is_path(arg, os) {
            return match validate_box_name(arg) {
                Ok(_) => Ok(BoxArg::Name(arg.to_owned())),
                Err(error) => Err(error),
            };
        }
        let name = match file_stem_of(skip_drive(arg, os).as_str()) {
            Some(stem) => stem,
            None => String::new(),
        };
        match validate_box_name(name.as_str()) {
            Ok(_) => Ok(BoxArg::RecipePath { path: arg.to_owned(), name }),
            Err(error) => {
                let mut what: String = "resolving '".to_owned();
                what.append(arg);
                what.append("'");
                Err(error.context(what))
            },
        }
    }
}

/// A recipe file and what it holds.
#[derive(Debug)]
pub struct Recipe {
    pub from: String,
    pub text: String,
}

#[verifier::ext_equal]
pub struct RecipeView {
    pub from: Seq<char>,
    pub text: Seq<char>,
}

impl View for Recipe {
    type V = RecipeView;

    open spec fn view(&self) -> RecipeView {
        RecipeView { from: self.from@, text: self.text@ }
    }
}

/// Where the recipe of a box comes from.
#[derive(Debug)]
pub enum Source {
    Pinned,
    File(Recipe),
    Manifest(Recipe),
}

#[verifier::ext_equal]
pub enum SourceView {
    Pinned,
    File(RecipeView),
    Manifest(RecipeView),
}

impl View for Source {
    type V = SourceView;

    open spec fn view(&self) -> SourceView {
        match self {
            Source::Pinned => SourceView::Pinned,
            Source::File(recipe) => SourceView::File(recipe@),
            Source::Manifest(recipe) => SourceView::Manifest(recipe@),
        }
    }
}

/// A box, its recipe, and the recipe the next setup would switch it to where
/// that is another.
#[derive(Debug)]
pub struct ResolvedBox {
    pub bx: BoxRef,
    pub source: Source,
    pub manifest_divergence: Option<String>,
}

#[verifier::ext_equal]
pub struct ResolvedView {
    pub bx: BoxView,
    pub source: SourceView,
    pub manifest_divergence: Option<Seq<char>>,
}

impl View for ResolvedBox {
    type V = ResolvedView;

    open spec fn view(&self) -> ResolvedView {
        ResolvedView {
            bx: self.bx@,
            source: self.source@,
            manifest_divergence: text::text_of(self.manifest_divergence),
        }
    }
}

/// Whether a box nobody set up is an answer.
#[derive(Debug, Clone, Copy, PartialEq, Eq, Structural)]
pub enum Existence {
    MustExist,
    MayBeMissing,
}

/// Whether a recipe that is pinned stands, or is chosen anew.
#[derive(Debug, Clone, Copy, PartialEq, Eq, Structural)]
pub enum PinSource {
    Operate,
    Setup,
}

/// What came of reading a file.
#[derive(Debug)]
pub enum FileRead {
    Missing,
    Unreadable(String),
    Text(String),
}

/// The names a manifest declares, in order.
pub open spec fn declared(manifest: Option<Manifest>) -> Seq<(Seq<char>, Seq<char>)> {
    match manifest {
        Some(manifest) => manifest.boxes@,
        None => Seq::empty(),
    }
}

/// The keys of a map, in order.
pub open spec fn keys_of<T>(entries: Seq<(Seq<char>, T)>) -> Seq<Seq<char>> {
    Seq::new(entries.len(), |i: int| entries[i].0)
}

fn list_keys(boxes: &TextMap<String>) -> (keys: Vec<String>)
    ensures
        text::texts(keys@) == keys_of(boxes@),
{
    let n: usize = boxes.len();
    let mut keys: Vec<String> = Vec::new();
    let mut i: usize = 0;
    proof {
        assert(text::texts(keys@) =~= keys_of(boxes@).take(0));
    }
    while i < n
        invariant
            i <= n == boxes@.len(),
            text::texts(keys@) == keys_of(boxes@).take(i as int),
        decreases n - i,
    {
        let ghost before = keys@;
        keys.push(boxes.key_at(i).to_owned());
        proof {
            crate::text::lemma_texts_push(before, keys@.last());
            assert(keys_of(boxes@).take(i + 1) =~= keys_of(boxes@).take(i as int).push(
                boxes@[i as int].0,
            ));
        }
        i = i + 1;
    }
    proof {
        assert(keys_of(boxes@).take(n as int) =~= keys_of(boxes@));
    }
    keys
}

/// The names of every box of a project: those on disk and those its manifest
/// declares, sorted, each once.
pub open spec fn known_names(existing: Seq<Seq<char>>, manifest: Option<Manifest>) -> Seq<Seq<char>> {
    ordered::deduped(ordered::sorted(existing + keys_of(declared(manifest))))
}

pub fn list_known_names_with(existing: &Vec<String>, manifest: &Option<Manifest>) -> (names: Vec<
    String,
>)
    ensures
        text::texts(names@) == known_names(text::texts(existing@), *manifest),
{
    let mut all = crate::text::clone_texts(existing);
    let ghost start = text::texts(all@);
    if let Some(manifest) = manifest {
        let keys = list_keys(&manifest.boxes);
        let mut i: usize = 0;
        proof {
            assert(text::texts(all@) =~= start + text::texts(keys@).take(0));
        }
        while i < keys.len()
            invariant
                i <= keys@.len(),
                text::texts(all@) == start + text::texts(keys@).take(i as int),
            decreases keys.len() - i,
        {
            let ghost before = all@;
            all.push(keys[i].as_str().to_owned());
            proof {
                crate::text::lemma_texts_push(before, all@.last());
                assert(text::texts(all@) =~= start + text::texts(keys@).take(i + 1));
            }
            i = i + 1;
        }
        proof {
            assert(text::texts(keys@).take(i as int) =~= text::texts(keys@));
        }
    } else {
        proof {
            assert(start + keys_of(declared(*manifest)) =~= start);
        }
    }
    dedup_texts(&sort_texts(&all))
}

/// The known names are those on disk and those declared, no others, each once
/// and in order.
pub proof fn known_names_are_a_sorted_union(existing: Seq<Seq<char>>, manifest: Option<Manifest>)
    ensures
        forall|i: int, j: int|
            0 <= i < j < known_names(existing, manifest).len() ==> ordered::precedes(
                #[trigger] known_names(existing, manifest)[i],
                #[trigger] known_names(existing, manifest)[j],
            ),
        forall|name: Seq<char>| #[trigger]
            known_names(existing, manifest).contains(name) <==> existing.contains(name) || ordered::has_key(
                declared(manifest),
                name,
            ),
{
    let entries = declared(manifest);
    let all = existing + keys_of(entries);
    ordered::lemma_sorted(all);
    ordered::lemma_deduped(ordered::sorted(all));
    assert forall|name: Seq<char>| #[trigger]
        known_names(existing, manifest).contains(name) <==> existing.contains(name) || ordered::has_key(
            entries,
            name,
        ) by {
        assert(known_names(existing, manifest).contains(name) <==> ordered::sorted(all).contains(name));
        assert(ordered::sorted(all).contains(name) <==> all.contains(name));
        crate::ordered::lemma_lookup(entries, name);
        if all.contains(name) {
            let k = choose|k: int| 0 <= k < all.len() && all[k] == name;
            if k < existing.len() {
                assert(existing[k] == name);
            } else {
                assert(entries[k - existing.len()].0 == name);
            }
        }
        if existing.contains(name) {
            let k = choose|k: int| 0 <= k < existing.len() && existing[k] == name;
            assert(all[k] == name);
        }
        if ordered::has_key(entries, name) {
            let value = ordered::lookup(entries, name)->0;
            let k = choose|k: int| 0 <= k < entries.len() && #[trigger] entries[k] == (name, value);
            assert(all[existing.len() + k] == name);
        }
    }
}

/// What is said where a project has no such box: the manifest is named where
/// it declares what the project has.
pub open spec fn missing_box(
    project_dir: Seq<char>,
    name: Option<Seq<char>>,
    manifest: Option<Manifest>,
) -> Refusal {
    let entries = declared(manifest);
    let hint = match name {
        Some(name) => if ordered::has_key(entries, name) {
            "terra.yaml declares it, but it has never been set up: `terra "@ + name + " setup`"@
        } else {
            "`terra <box> setup` makes one, from terra.yaml or a recipe path"@
        },
        None => if entries.len() > 0 {
            "terra.yaml declares "@ + text::joined(keys_of(entries), ", "@)
                + ", and none is set up yet: `terra <box> setup`"@
        } else {
            "`terra <box> setup` makes one, from terra.yaml or a recipe path"@
        },
    };
    match name {
        Some(name) => error::refusal("no box '"@ + name + "' in "@ + project_dir + " - "@ + hint),
        None => error::refusal("no box in "@ + project_dir + " - "@ + hint),
    }
}

pub fn build_missing_box_error(project_dir: &str, name: Option<&str>, manifest: &Option<Manifest>) -> (
    error: Error)
    ensures
        error@ == missing_box(
            project_dir@,
            match name {
                Some(name) => Some(name@),
                None => None,
            },
            *manifest,
        ),
{
    let mut hint: String = "`terra <box> setup` makes one, from terra.yaml or a recipe path".to_owned();
    if let Some(manifest) = manifest {
        match name {
            Some(name) => {
                if manifest.boxes.contains_key(name) {
                    hint = "terra.yaml declares it, but it has never been set up: `terra ".to_owned();
                    hint.append(name);
                    hint.append(" setup`");
                }
            },
            None => {
                if manifest.boxes.len() > 0 {
                    hint = "terra.yaml declares ".to_owned();
                    hint.append(join_texts(&list_keys(&manifest.boxes), ", ").as_str());
                    hint.append(", and none is set up yet: `terra <box> setup`");
                }
            },
        }
    }
    let mut message: String = match name {
        Some(name) => {
            let mut message: String = "no box '".to_owned();
            message.append(name);
            message.append("' in ");
            message
        },
        None => "no box in ".to_owned(),
    };
    message.append(project_dir);
    message.append(" - ");
    message.append(hint.as_str());
    Error::new(message)
}

/// The box a command means that names none: the only one there is, or why
/// there is none to choose.
pub open spec fn default_name(
    project_dir: Seq<char>,
    existing: Seq<Seq<char>>,
    manifest: Option<Manifest>,
) -> Result<Seq<char>, Refusal> {
    let names = known_names(existing, manifest);
    if names.len() == 1 {
        Ok(names[0])
    } else if names.len() == 0 || existing.len() == 0 {
        Err(missing_box(project_dir, None, manifest))
    } else {
        Err(
            error::refusal(
                project_dir + " has several boxes - name one: "@ + text::joined(names, ", "@),
            ),
        )
    }
}

pub fn choose_default_box_name(
    project_dir: &str,
    existing: &Vec<String>,
    manifest: &Option<Manifest>,
) -> (name: Result<String, Error>)
    ensures
        match name {
            Ok(text) => default_name(project_dir@, text::texts(existing@), *manifest) == Ok::<_, Refusal>(
                text@,
            ),
            Err(error) => default_name(project_dir@, text::texts(existing@), *manifest) == Err::<
                Seq<char>,
                _,
            >(error@),
        },
{
    let names = list_known_names_with(existing, manifest);
    proof {
        assert(text::texts(names@).len() == names@.len());
        assert(text::texts(existing@).len() == existing@.len());
        if names@.len() == 1 {
            assert(text::texts(names@)[0] == names@[0]@);
        }
    }
    if names.len() == 1 {
        return Ok(names[0].as_str().to_owned());
    }
    if names.len() == 0 || existing.len() == 0 {
        return Err(build_missing_box_error(project_dir, None, manifest));
    }
    let mut message: String = project_dir.to_owned();
    message.append(" has several boxes - name one: ");
    message.append(join_texts(&names, ", ").as_str());
    Err(Error::new(message))
}

/// The box that is meant: the one that a word names, or the only one there is.
pub open spec fn target_meant(
    arg: Option<Seq<char>>,
    project_dir: Seq<char>,
    existing: Result<Vec<String>, String>,
    manifest: Option<Manifest>,
    os: HostOs,
) -> Result<BoxArgView, Refusal> {
    match arg {
        Some(word) => box_arg(word, os),
        None => match existing {
            Err(message) => Err(error::refusal(message@)),
            Ok(names) => match default_name(project_dir, text::texts(names@), manifest) {
                Ok(name) => Ok(BoxArgView::Name(name)),
                Err(refused) => Err(refused),
            },
        },
    }
}

/// What a command line means in a project: `existing` are the boxes on disk,
/// or why they could not be listed.
pub fn choose_target(
    arg: Option<&str>,
    project_dir: &str,
    existing: &Result<Vec<String>, String>,
    manifest: &Option<Manifest>,
    os: HostOs,
) -> (target: Result<BoxArg, Error>)
    ensures
        ({
            let expected = target_meant(
                match arg {
                    Some(word) => Some(word@),
                    None => None,
                },
                project_dir@,
                *existing,
                *manifest,
                os,
            );
            match target {
                Ok(meant) => expected == Ok::<_, Refusal>(meant@),
                Err(error) => expected == Err::<BoxArgView, _>(error@),
            }
        }),
{
    match arg {
        Some(word) => BoxArg::parse(word, os),
        None => match existing {
            Err(message) => Err(Error::new(message.as_str().to_owned())),
            Ok(names) => match choose_default_box_name(project_dir, names, manifest) {
                Ok(name) => Ok(BoxArg::Name(name)),
                Err(error) => Err(error),
            },
        },
    }
}

/// What a file read gives, as a value.
pub open spec fn read_view(read: FileRead) -> Option<Result<Seq<char>, Seq<char>>> {
    match read {
        FileRead::Missing => None,
        FileRead::Unreadable(reason) => Some(Err(reason@)),
        FileRead::Text(text) => Some(Ok(text@)),
    }
}

/// The recipe a reference leads to; `None` where it is no path or nothing is
/// there.
pub open spec fn recipe_at(
    reference: Seq<char>,
    source_dir: Seq<char>,
    home: HomeView,
    read: Option<Result<Seq<char>, Seq<char>>>,
) -> Result<Option<RecipeView>, Refusal> {
    if !path_like(reference, home.os) {
        Ok(None)
    } else {
        match recipe::recipe_path(reference, source_dir, home) {
            Err(refused) => Err(refused),
            Ok(path) => match read {
                None => Ok(None),
                Some(Err(reason)) => Err(
                    error::refusal("reading "@ + render::printable(path)) + error::refusal(reason),
                ),
                Some(Ok(text)) => Ok(Some(RecipeView { from: path, text })),
            },
        }
    }
}

/// The recipe a reference leads to; `read` is what reading that file gave.
pub fn read_recipe(
    reference: &str,
    source_dir: &str,
    home: &Home,
    read: &FileRead,
) -> (recipe: Result<Option<Recipe>, Error>)
    ensures
        ({
            let expected = recipe_at(reference@, source_dir@, home@, read_view(*read));
            match recipe {
                Ok(None) => expected == Ok::<_, Refusal>(None::<RecipeView>),
                Ok(Some(found)) => expected == Ok::<_, Refusal>(Some(found@)),
                Err(error) => expected == Err::<Option<RecipeView>, _>(error@),
            }
        }),
{
    if !is_path(reference, home.os) {
        return Ok(None);
    }
    let path = match resolve_recipe_path(reference, source_dir, home) {
        Ok(path) => path,
        Err(error) => {
            return Err(error);
        },
    };
    match read {
        FileRead::Missing => Ok(None),
        FileRead::Unreadable(reason) => {
            let mut what: String = "reading ".to_owned();
            what.append(escape_printable_path(path.as_str()).as_str());
            Err(Error::new(reason.as_str().to_owned()).context(what))
        },
        FileRead::Text(text) => Ok(Some(Recipe { from: path, text: text.as_str().to_owned() })),
    }
}

/// What is said of a recipe that is not there.
pub open spec fn missing_recipe(
    arg: Seq<char>,
    reference: Seq<char>,
    source_dir: Seq<char>,
    home: HomeView,
) -> Refusal {
    if !path_like(reference, home.os) {
        error::refusal(
            "no recipe for '"@ + arg
                + "': a bare word names a box, and a recipe file is named by path\n(`terra ./"@ + arg
                + ".yaml setup`, or a terra.yaml entry)"@,
        )
    } else {
        match recipe::recipe_path(reference, source_dir, home) {
            Err(refused) => refused,
            Ok(tried) => if render::printable(reference) == render::printable(arg) {
                error::refusal(
                    "config not found: "@ + render::printable(tried) + " (terra "@ + render::printable(reference)
                        + " setup reads and pins the file)"@,
                )
            } else {
                error::refusal(
                    "config not found: "@ + render::printable(tried) + "\n(box '"@ + render::printable(arg)
                        + "' in terra.yaml points at '"@ + render::printable(reference) + "')"@,
                )
            },
        }
    }
}

pub fn build_missing_recipe_error(
    arg: &str,
    reference: &str,
    source_dir: &str,
    home: &Home,
) -> (error: Error)
    ensures
        error@ == missing_recipe(arg@, reference@, source_dir@, home@),
{
    if !is_path(reference, home.os) {
        let mut message: String = "no recipe for '".to_owned();
        message.append(arg);
        message.append(
            "': a bare word names a box, and a recipe file is named by path\n(`terra ./",
        );
        message.append(arg);
        message.append(".yaml setup`, or a terra.yaml entry)");
        return Error::new(message);
    }
    let tried = match resolve_recipe_path(reference, source_dir, home) {
        Ok(path) => escape_printable(path.as_str()),
        Err(error) => {
            return error;
        },
    };
    let shown_reference = escape_printable(reference);
    let shown_arg = escape_printable(arg);
    let mut message: String = "config not found: ".to_owned();
    message.append(tried.as_str());
    if same_text(shown_reference.as_str(), shown_arg.as_str()) {
        message.append(" (terra ");
        message.append(shown_reference.as_str());
        message.append(" setup reads and pins the file)");
    } else {
        message.append("\n(box '");
        message.append(shown_arg.as_str());
        message.append("' in terra.yaml points at '");
        message.append(shown_reference.as_str());
        message.append("')");
    }
    Error::new(message)
}

/// What is known where a box is resolved.
#[derive(Debug)]
pub struct Surroundings {
    pub project_dir: String,
    /// The project directory with its links followed.
    pub real_dir: String,
    /// Where the state of all boxes is kept.
    pub box_home: String,
    pub manifest: Option<Manifest>,
    pub home: Home,
    /// The directory recipe paths are read from; without one, a command takes
    /// box names only.
    pub cwd: Option<String>,
}

/// The box of a name in the project.
pub open spec fn box_named(around: Surroundings, name: Seq<char>) -> BoxView {
    state::box_of(around.project_dir@, around.real_dir@, around.box_home@, name)
}

impl Surroundings {
    pub fn find_box(&self, name: &str) -> (bx: BoxRef)
        ensures
            bx@ == box_named(*self, name@),
    {
        BoxRef::resolve(
            self.project_dir.as_str(),
            self.real_dir.as_str(),
            self.box_home.as_str(),
            name,
        )
    }
}

/// What was found of the box that is meant.
#[derive(Debug)]
pub struct BoxFacts {
    /// Whether its state holds a recipe.
    pub pinned: bool,
    /// What reading the file gave that the command line names, or that the
    /// manifest names for the box.
    pub recipe: FileRead,
    /// The recipe in its state.
    pub pinned_text: Option<String>,
}

/// The recipe the manifest names for a box where it differs from the one that
/// is pinned.
pub open spec fn divergence(around: Surroundings, bx: BoxView, facts: BoxFacts) -> Option<Seq<char>> {
    match ordered::lookup(declared(around.manifest), bx.name) {
        None => None,
        Some(reference) => match (
            recipe_at(
                reference,
                bx.project_dir,
                around.home@,
                read_view(facts.recipe),
            ),
            text::text_of(facts.pinned_text),
        ) {
            (Ok(Some(chosen)), Some(pinned)) => if chosen.text != pinned {
                Some(chosen.from)
            } else {
                None
            },
            _ => None,
        },
    }
}

/// The name of the box that is meant: a recipe file gives it its own.
pub open spec fn name_meant(target: BoxArgView) -> Seq<char> {
    match target {
        BoxArgView::Name(name) => name,
        BoxArgView::RecipePath { name, .. } => name,
    }
}

/// The one resolution: which box is meant, and where its recipe comes from.
pub open spec fn resolution(
    target: BoxArgView,
    around: Surroundings,
    facts: BoxFacts,
    existence: Existence,
    pin_source: PinSource,
) -> Result<ResolvedView, Refusal> {
    let home = around.home@;
    let bx = box_named(around, name_meant(target));
    let pinned = ResolvedView { bx, source: SourceView::Pinned, manifest_divergence: None };
    match target {
        BoxArgView::RecipePath { path, .. } => match around.cwd {
            None => Err(
                error::refusal(
                    "'"@ + path
                        + "' is a recipe path - this command takes a box name (`terra "@ + path
                        + " setup` is what reads and pins the file)"@,
                ),
            ),
            Some(cwd) => match recipe_at(path, cwd@, home, read_view(facts.recipe)) {
                Err(refused) => Err(refused),
                Ok(None) => Err(missing_recipe(path, path, cwd@, home)),
                Ok(Some(recipe)) => Ok(
                    ResolvedView {
                        bx,
                        source: SourceView::File(recipe),
                        manifest_divergence: None,
                    },
                ),
            },
        },
        BoxArgView::Name(_) => if around.cwd is None {
            if existence == Existence::MustExist && !facts.pinned {
                Err(missing_box(bx.project_dir, Some(bx.name), around.manifest))
            } else {
                Ok(pinned)
            }
        } else if facts.pinned && pin_source == PinSource::Operate {
            Ok(ResolvedView { manifest_divergence: divergence(around, bx, facts), ..pinned })
        } else {
            match ordered::lookup(declared(around.manifest), bx.name) {
                Some(reference) => match recipe_at(
                    reference,
                    bx.project_dir,
                    home,
                    read_view(facts.recipe),
                ) {
                    Err(refused) => Err(refused),
                    Ok(Some(recipe)) => Ok(
                        ResolvedView {
                            bx,
                            source: SourceView::Manifest(recipe),
                            manifest_divergence: None,
                        },
                    ),
                    Ok(None) => {
                        let missing = missing_recipe(bx.name, reference, bx.project_dir, home);
                        if facts.pinned {
                            Err(missing)
                        } else {
                            Err(
                                missing_box(bx.project_dir, Some(bx.name), around.manifest)
                                    + missing,
                            )
                        }
                    },
                },
                None => if facts.pinned {
                    Ok(pinned)
                } else {
                    Err(missing_recipe(bx.name, bx.name, bx.project_dir, home))
                },
            }
        },
    }
}

fn find_manifest_divergence(around: &Surroundings, bx: &BoxRef, facts: &BoxFacts) -> (path: Option<
    String,
>)
    ensures
        text::text_of(path) == divergence(*around, bx@, *facts),
{
    let manifest = match &around.manifest {
        Some(manifest) => manifest,
        None => {
            return None;
        },
    };
    let reference = match manifest.boxes.get(bx.name()) {
        Some(reference) => reference,
        None => {
            return None;
        },
    };
    match read_recipe(reference.as_str(), bx.project_dir(), &around.home, &facts.recipe) {
        Ok(Some(chosen)) => match &facts.pinned_text {
            Some(pinned) => if same_text(chosen.text.as_str(), pinned.as_str()) {
                None
            } else {
                Some(chosen.from)
            },
            None => None,
        },
        _ => None,
    }
}

fn resolve_inner(
    target: &BoxArg,
    around: &Surroundings,
    facts: &BoxFacts,
    existence: Existence,
    pin_source: PinSource,
) -> (resolved: Result<ResolvedBox, Error>)
    ensures
        match resolved {
            Ok(found) => resolution(target@, *around, *facts, existence, pin_source) == Ok::<
                _,
                Refusal,
            >(found@),
            Err(error) => resolution(target@, *around, *facts, existence, pin_source) == Err::<
                ResolvedView,
                _,
            >(error@),
        },
{
    let bx = match target {
        BoxArg::Name(name) => around.find_box(name.as_str()),
        BoxArg::RecipePath { name, .. } => around.find_box(name.as_str()),
    };
    if let BoxArg::RecipePath { path, .. } = target {
        let cwd = match &around.cwd {
            Some(cwd) => cwd,
            None => {
                let mut message: String = "'".to_owned();
                message.append(path.as_str());
                message.append(
                    "' is a recipe path - this command takes a box name (`terra ",
                );
                message.append(path.as_str());
                message.append(" setup` is what reads and pins the file)");
                return Err(Error::new(message));
            },
        };
        return match read_recipe(path.as_str(), cwd.as_str(), &around.home, &facts.recipe) {
            Err(error) => Err(error),
            Ok(None) => Err(
                build_missing_recipe_error(
                    path.as_str(),
                    path.as_str(),
                    cwd.as_str(),
                    &around.home,
                ),
            ),
            Ok(Some(recipe)) => Ok(
                ResolvedBox {
                    bx,
                    source: Source::File(recipe),
                    manifest_divergence: None,
                },
            ),
        };
    }
    if around.cwd.is_none() {
        if existence == Existence::MustExist && !facts.pinned {
            return Err(
                build_missing_box_error(bx.project_dir(), Some(bx.name()), &around.manifest),
            );
        }
        return Ok(ResolvedBox { bx, source: Source::Pinned, manifest_divergence: None });
    }
    if facts.pinned && pin_source == PinSource::Operate {
        let manifest_divergence = find_manifest_divergence(around, &bx, facts);
        return Ok(ResolvedBox { bx, source: Source::Pinned, manifest_divergence });
    }
    let reference = match &around.manifest {
        Some(manifest) => manifest.boxes.get(bx.name()),
        None => None,
    };
    if let Some(reference) = reference {
        match read_recipe(reference.as_str(), bx.project_dir(), &around.home, &facts.recipe) {
            Err(error) => {
                return Err(error);
            },
            Ok(Some(recipe)) => {
                return Ok(
                    ResolvedBox {
                        bx,
                        source: Source::Manifest(recipe),
                        manifest_divergence: None,
                    },
                );
            },
            Ok(None) => {
                let missing = build_missing_recipe_error(
                    bx.name(),
                    reference.as_str(),
                    bx.project_dir(),
                    &around.home,
                );
                if facts.pinned {
                    return Err(missing);
                }
                let lead = build_missing_box_error(
                    bx.project_dir(),
                    Some(bx.name()),
                    &around.manifest,
                );
                return Err(missing.context(lead.message()));
            },
        }
    }
    if facts.pinned {
        return Ok(ResolvedBox { bx, source: Source::Pinned, manifest_divergence: None });
    }
    Err(build_missing_recipe_error(bx.name(), bx.name(), bx.project_dir(), &around.home))
}

/// The resolution of every command but setup: a recipe that is pinned stands,
/// whatever the manifest says now.
pub fn resolve(
    target: &BoxArg,
    around: &Surroundings,
    facts: &BoxFacts,
    existence: Existence,
) -> (resolved: Result<ResolvedBox, Error>)
    ensures
        match resolved {
            Ok(found) => resolution(target@, *around, *facts, existence, PinSource::Operate) == Ok::<
                _,
                Refusal,
            >(found@),
            Err(error) => resolution(target@, *around, *facts, existence, PinSource::Operate)
                == Err::<ResolvedView, _>(error@),
        },
{
    resolve_inner(target, around, facts, existence, PinSource::Operate)
}

/// The resolution of setup: the recipe to pin is chosen anew.
pub fn resolve_for_setup(target: &BoxArg, around: &Surroundings, facts: &BoxFacts) -> (
    resolved: Result<ResolvedBox, Error>)
    ensures
        match resolved {
            Ok(found) => resolution(
                target@,
                *around,
                *facts,
                Existence::MayBeMissing,
                PinSource::Setup,
            ) == Ok::<_, Refusal>(found@),
            Err(error) => resolution(
                target@,
                *around,
                *facts,
                Existence::MayBeMissing,
                PinSource::Setup,
            ) == Err::<ResolvedView, _>(error@),
        },
{
    resolve_inner(target, around, facts, Existence::MayBeMissing, PinSource::Setup)
}

/// The box a command works on that has to be set up already, and takes no
/// recipe path.
pub fn resolve_pinned_box(target: &BoxArg, around: &Surroundings, facts: &BoxFacts) -> (resolved: Result<
    BoxRef,
    Error,
>)
    requires
        around.cwd is None,
    ensures
        match resolution(target@, *around, *facts, Existence::MustExist, PinSource::Operate) {
            Ok(found) => resolved is Ok && resolved->Ok_0@ == found.bx,
            Err(refused) => resolved is Err && resolved->Err_0@ == refused,
        },
{
    match resolve(target, around, facts, Existence::MustExist) {
        Ok(found) => Ok(found.bx),
        Err(error) => Err(error),
    }
}

/// A command works on the box it names in the project it stands in, and on no
/// other; one that is given a recipe file, on the box of the file's name.
pub proof fn the_box_named_is_the_box_found(
    target: BoxArgView,
    around: Surroundings,
    facts: BoxFacts,
    existence: Existence,
    pin_source: PinSource,
)
    requires
        resolution(target, around, facts, existence, pin_source) is Ok,
    ensures
        ({
            let bx = resolution(target, around, facts, existence, pin_source)->Ok_0.bx;
            &&& bx == box_named(around, name_meant(target))
            &&& bx.name == name_meant(target)
            &&& bx.project_dir == around.project_dir@
        }),
{
}

/// Only setup changes what a box is made from: every other command on a box
/// that is pinned runs the pinned recipe, whatever the manifest says.
pub proof fn pinned_recipes_stand(
    name: Seq<char>,
    around: Surroundings,
    facts: BoxFacts,
    existence: Existence,
)
    requires
        facts.pinned,
    ensures
        ({
            let found = resolution(
                BoxArgView::Name(name),
                around,
                facts,
                existence,
                PinSource::Operate,
            );
            found is Ok && found->Ok_0.source is Pinned && found->Ok_0.bx == box_named(around, name)
        }),
{
}

} // verus!
