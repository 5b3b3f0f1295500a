//! Which box a word means, and which recipe a command goes by.

use crate::config::Manifest;
use crate::error::Refusal;
use crate::host::{self, HostOs};
use crate::name;
use crate::ordered;
use crate::path;
use crate::recipe;
use crate::resolve::{
    self, BoxArgView, BoxFacts, Existence, FileRead, PinSource, SourceView, Surroundings,
};
use crate::state::BoxView;
use crate::text;
use vstd::prelude::*;

verus! {

/// A word is a path where it begins like one, holds a separator or ends like a
/// recipe; a word of none of these is the name of a box.
pub proof fn words_that_look_like_paths_are_paths(word: Seq<char>)
    requires
        word.len() > 0,
    ensures
        word[0] == '.' || word[0] == '/' || word[0] == '~' || word.contains('/')
            ==> resolve::path_like(word, HostOs::Linux),
        word.contains('\\') ==> resolve::path_like(word, HostOs::Windows),
        !word.contains('/') && !word.contains('.') && word[0] != '~' ==> !resolve::path_like(
            word,
            HostOs::Linux,
        ),
{
    if word.contains('/') {
        let i = choose|i: int| 0 <= i < word.len() && word[i] == '/';
        assert(host::separates(word[i], HostOs::Linux));
    } else {
        assert forall|i: int| 0 <= i < word.len() implies !host::separates(
            #[trigger] word[i],
            HostOs::Linux,
        ) by {
            if word[i] == '/' {
                assert(word.contains('/'));
            }
        }
    }
    if word.contains('\\') {
        let i = choose|i: int| 0 <= i < word.len() && word[i] == '\\';
        assert(host::separates(word[i], HostOs::Windows));
    }
    if !word.contains('/') && !word.contains('.') && word[0] != '~' {
        assert forall|i: int| 0 <= i < word.len() implies #[trigger] word[i] != '.' by {
            if word[i] == '.' {
                assert(word.contains('.'));
            }
        }
        if word == seq!['.'] || word == seq!['.', '.'] {
            assert(word[0] == '.');
        }
        crate::basics::names_without_dots_have_no_extension(word);
    }
}

/// A file that is named like a recipe is one, and gives its box the name it has
/// without its extension, wherever it lies.
pub proof fn recipe_files_name_their_box(dir: Seq<char>, stem: Seq<char>, is_yml: bool)
    requires
        name::box_name(stem) is Ok,
    ensures
        ({
            let ending = if is_yml {
                seq!['.', 'y', 'm', 'l']
            } else {
                seq!['.', 'y', 'a', 'm', 'l']
            };
            let file = path::placed(dir, stem + ending);
            resolve::box_arg(file, HostOs::Linux) == Ok::<_, Refusal>(
                BoxArgView::RecipePath { path: file, name: stem },
            )
        }),
{
    reveal_strlit("yaml");
    reveal_strlit("yml");
    let extension = if is_yml {
        seq!['y', 'm', 'l']
    } else {
        seq!['y', 'a', 'm', 'l']
    };
    let ending = if is_yml {
        seq!['.', 'y', 'm', 'l']
    } else {
        seq!['.', 'y', 'a', 'm', 'l']
    };
    assert("yml"@ =~= seq!['y', 'm', 'l']);
    assert("yaml"@ =~= seq!['y', 'a', 'm', 'l']);
    assert(stem + ending =~= stem + seq!['.'] + extension);
    lemma_recipe_file(dir, stem, extension);
}

proof fn lemma_recipe_file(dir: Seq<char>, stem: Seq<char>, extension: Seq<char>)
    requires
        name::box_name(stem) is Ok,
        name::recipe_extension(Some(extension)),
        extension.len() > 1,
        forall|i: int|
            0 <= i < extension.len() ==> #[trigger] extension[i] != '.' && extension[i] != '/',
    ensures
        ({
            let file = path::placed(dir, stem + seq!['.'] + extension);
            resolve::box_arg(file, HostOs::Linux) == Ok::<_, Refusal>(
                BoxArgView::RecipePath { path: file, name: stem },
            )
        }),
{
    name::box_names_are_plain_file_names(stem);
    let base = stem + seq!['.'] + extension;
    assert(path::one_step(base)) by {
        if base.contains('/') {
            let i = choose|i: int| 0 <= i < base.len() && base[i] == '/';
            if i < stem.len() {
                assert(stem[i] == '/');
            } else if i > stem.len() {
                assert(extension[i - stem.len() - 1] == '/');
            }
        }
        assert(base.len() > 2);
    }
    let file = path::placed(dir, base);
    crate::basics::one_step_down(dir, base, base);
    crate::basics::extensions_follow_the_last_dot(stem, extension);
    crate::basics::one_step_down(Seq::empty(), base, base);
    assert(path::placed(Seq::empty(), base) =~= base) by {
        if base[0] == '/' {
            assert(base.contains('/'));
        }
    }
    assert(path::file_name(file) == Some(base));
    assert(path::file_name(base) == Some(base));
}

/// Whether a project has a box of a name: on disk, or declared.
pub open spec fn is_known(
    existing: Seq<Seq<char>>,
    manifest: Option<Manifest>,
    name: Seq<char>,
) -> bool {
    existing.contains(name) || ordered::has_key(resolve::declared(manifest), name)
}

/// Where no box is named, the only one there is is meant, be it on disk or
/// declared; where there is none, or more than one, none is.
pub proof fn the_only_box_is_meant(
    project_dir: Seq<char>,
    existing: Seq<Seq<char>>,
    manifest: Option<Manifest>,
    name: Seq<char>,
)
    ensures
        resolve::default_name(project_dir, existing, manifest) == Ok::<_, Refusal>(name) <==> {
            &&& is_known(existing, manifest, name)
            &&& forall|other: Seq<char>| #[trigger]
                is_known(existing, manifest, other) ==> other == name
        },
{
    let names = resolve::known_names(existing, manifest);
    resolve::known_names_are_a_sorted_union(existing, manifest);
    if names.len() == 1 {
        assert(names.contains(names[0]));
        assert forall|other: Seq<char>| #[trigger]
            is_known(existing, manifest, other) implies other == names[0] by {
            assert(names.contains(other));
            let k = choose|k: int| 0 <= k < names.len() && names[k] == other;
        }
    }
    if is_known(existing, manifest, name) && (forall|other: Seq<char>| #[trigger]
        is_known(existing, manifest, other) ==> other == name) {
        assert(names.contains(name));
        assert(names.len() == 1) by {
            if names.len() > 1 {
                assert(names.contains(names[0]) && names.contains(names[1]));
                assert(is_known(existing, manifest, names[0]));
                assert(is_known(existing, manifest, names[1]));
                assert(ordered::precedes(names[0], names[1]));
                ordered::lemma_precedes_irreflexive(name);
            }
        }
        assert(names[0] == name) by {
            assert(names.contains(names[0]));
            assert(is_known(existing, manifest, names[0]));
        }
    }
}

/// Whether a reference to a recipe leads to a file that was read, and what is in
/// it.
pub open spec fn leads_to(
    reference: Seq<char>,
    source_dir: Seq<char>,
    around: Surroundings,
    facts: BoxFacts,
    source: resolve::RecipeView,
) -> bool {
    &&& resolve::path_like(reference, around.home.os)
    &&& recipe::recipe_path(reference, source_dir, around.home@) == Ok::<_, Refusal>(source.from)
    &&& facts.recipe matches FileRead::Text(text) && text@ == source.text
}

/// A command that names a recipe file goes by that file, as it was read, for the
/// box of its name; one that takes no files is refused, and so is a file that
/// cannot be read.
pub proof fn files_that_are_named_are_gone_by(
    file: Seq<char>,
    named: Seq<char>,
    around: Surroundings,
    facts: BoxFacts,
    existence: Existence,
    pin_source: PinSource,
)
    ensures
        match resolve::resolution(
            BoxArgView::RecipePath { path: file, name: named },
            around,
            facts,
            existence,
            pin_source,
        ) {
            Ok(found) => {
                &&& found.bx.name == named
                &&& found.bx.project_dir == around.project_dir@
                &&& around.cwd is Some
                &&& found.source matches SourceView::File(source) && leads_to(
                    file,
                    around.cwd->0@,
                    around,
                    facts,
                    source,
                )
                &&& found.manifest_divergence is None
            },
            Err(_) => around.cwd is None || !(facts.recipe is Text) || !resolve::path_like(
                file,
                around.home.os,
            ) || recipe::recipe_path(file, around.cwd->0@, around.home@) is Err,
        },
{
}

/// The recipe the manifest names for a box, if it names one.
pub open spec fn declared_recipe(around: Surroundings, name: Seq<char>) -> Option<Seq<char>> {
    ordered::lookup(resolve::declared(around.manifest), name)
}

/// A command that names a box goes by the recipe that is pinned, whatever the
/// manifest says by now, and where nothing is pinned by the one the manifest
/// names. One that takes no files asks no more than that the box was set up, where
/// it does ask that.
pub proof fn named_boxes_go_by_their_pin(
    named: Seq<char>,
    around: Surroundings,
    facts: BoxFacts,
    existence: Existence,
)
    ensures
        ({
            let target = BoxArgView::Name(named);
            let found = resolve::resolution(target, around, facts, existence, PinSource::Operate);
            &&& found matches Ok(found) ==> found.bx.name == named && found.bx.project_dir
                == around.project_dir@
            &&& around.cwd is None ==> (found is Ok <==> facts.pinned || existence
                != Existence::MustExist)
            &&& around.cwd is None ==> (found matches Ok(found) ==> found.source
                == SourceView::Pinned && found.manifest_divergence is None)
            &&& around.cwd is Some && facts.pinned ==> (found matches Ok(found) && found.source
                == SourceView::Pinned)
            &&& around.cwd is Some && !facts.pinned ==> match found {
                Ok(found) => {
                    &&& declared_recipe(around, named) is Some
                    &&& found.source matches SourceView::Manifest(source) && leads_to(
                        declared_recipe(around, named)->0,
                        around.project_dir@,
                        around,
                        facts,
                        source,
                    )
                },
                Err(_) => declared_recipe(around, named) is None || !(facts.recipe is Text)
                    || !resolve::path_like(declared_recipe(around, named)->0, around.home.os)
                    || recipe::recipe_path(
                    declared_recipe(around, named)->0,
                    around.project_dir@,
                    around.home@,
                ) is Err,
            }
        }),
{
}

/// A setup goes by the recipe the manifest names, also where another is pinned; by
/// the one that is pinned only where the manifest names none; and by nothing where
/// the recipe that is named cannot be read.
pub proof fn setups_go_by_the_manifest(
    named: Seq<char>,
    around: Surroundings,
    facts: BoxFacts,
    existence: Existence,
)
    requires
        around.cwd is Some,
    ensures
        ({
            let target = BoxArgView::Name(named);
            let found = resolve::resolution(target, around, facts, existence, PinSource::Setup);
            match declared_recipe(around, named) {
                None => {
                    &&& found is Ok <==> facts.pinned
                    &&& found matches Ok(found) ==> found.source == SourceView::Pinned
                },
                Some(reference) => match found {
                    Ok(found) => found.source matches SourceView::Manifest(source) && leads_to(
                        reference,
                        around.project_dir@,
                        around,
                        facts,
                        source,
                    ),
                    Err(_) => !(facts.recipe is Text) || !resolve::path_like(
                        reference,
                        around.home.os,
                    ) || recipe::recipe_path(reference, around.project_dir@, around.home@) is Err,
                },
            }
        }),
{
}

/// A box is said to differ from the manifest exactly where the manifest names a
/// recipe for it that was read and is not the one that is pinned, and then that
/// recipe is the one that is named.
pub proof fn divergences_are_of_another_recipe(around: Surroundings, bx: BoxView, facts: BoxFacts)
    ensures
        match resolve::divergence(around, bx, facts) {
            Some(from) => {
                &&& declared_recipe(around, bx.name) is Some
                &&& recipe::recipe_path(
                    declared_recipe(around, bx.name)->0,
                    bx.project_dir,
                    around.home@,
                ) == Ok::<_, Refusal>(from)
                &&& facts.recipe is Text
                &&& facts.pinned_text is Some
                &&& facts.recipe->Text_0@ != facts.pinned_text->0@
            },
            None => {
                ||| declared_recipe(around, bx.name) is None
                ||| !(facts.recipe is Text)
                ||| facts.pinned_text is None
                ||| facts.recipe->Text_0@ == facts.pinned_text->0@
                ||| !resolve::path_like(declared_recipe(around, bx.name)->0, around.home.os)
                ||| recipe::recipe_path(
                    declared_recipe(around, bx.name)->0,
                    bx.project_dir,
                    around.home@,
                ) is Err
            },
        },
{
}

/// A word that names a box is gone by, whatever boxes there are; without one
/// the only box is meant, and where the boxes cannot be listed none is.
pub proof fn words_are_gone_by_before_what_is_there(
    word: Seq<char>,
    project_dir: Seq<char>,
    existing: Result<Vec<String>, String>,
    manifest: Option<Manifest>,
    os: HostOs,
)
    ensures
        resolve::target_meant(Some(word), project_dir, existing, manifest, os) == resolve::box_arg(
            word,
            os,
        ),
        existing is Err ==> resolve::target_meant(
            None,
            project_dir,
            existing,
            manifest,
            os,
        ) is Err,
        existing matches Ok(names) ==> {
            let meant = resolve::target_meant(None, project_dir, existing, manifest, os);
            let only = resolve::default_name(project_dir, text::texts(names@), manifest);
            &&& meant is Ok <==> only is Ok
            &&& meant is Ok ==> meant->Ok_0 == BoxArgView::Name(only->Ok_0)
            &&& meant is Err ==> meant->Err_0 == only->Err_0
        },
{
}

} // verus!
