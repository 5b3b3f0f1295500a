//! Slash-separated paths, read as `std::path` reads them: components, names,
//! extensions and prefixes, none of which touches a file. Where a backslash
//! separates too, [`crate::host`] spells a path with slashes first.

use crate::ordered::{self, text_precedes};
use crate::text::{self, chars_of, same_text, split_text, text_between};
use vstd::prelude::*;

verus! {

/// One step of a path.
#[derive(Debug)]
pub enum Component {
    Root,
    Current,
    Parent,
    Normal(String),
}

#[verifier::ext_equal]
pub enum ComponentView {
    Root,
    Current,
    Parent,
    Normal(Seq<char>),
}

impl View for Component {
    type V = ComponentView;

    open spec fn view(&self) -> ComponentView {
        match self {
            Component::Root => ComponentView::Root,
            Component::Current => ComponentView::Current,
            Component::Parent => ComponentView::Parent,
            Component::Normal(name) => ComponentView::Normal(name@),
        }
    }
}

/// What a list of steps shows.
pub open spec fn steps(list: Seq<Component>) -> Seq<ComponentView> {
    Seq::new(list.len(), |i: int| list[i]@)
}

pub open spec fn is_absolute(path: Seq<char>) -> bool {
    path.len() > 0 && path[0] == '/'
}

/// The steps the names between the slashes stand for: none for an empty name
/// or a dot.
pub open spec fn named_steps(names: Seq<Seq<char>>) -> Seq<ComponentView>
    decreases names.len(),
{
    if names.len() == 0 {
        Seq::empty()
    } else {
        let before = named_steps(names.drop_last());
        let name = names.last();
        if name.len() == 0 || name == seq!['.'] {
            before
        } else if name == seq!['.', '.'] {
            before.push(ComponentView::Parent)
        } else {
            before.push(ComponentView::Normal(name))
        }
    }
}

/// The steps of a path: the root where it is absolute, a dot only where it
/// comes first.
pub open spec fn components(path: Seq<char>) -> Seq<ComponentView> {
    let names = text::pieces(path, '/');
    if is_absolute(path) {
        seq![ComponentView::Root] + named_steps(names)
    } else if names[0] == seq!['.'] {
        seq![ComponentView::Current] + named_steps(names)
    } else {
        named_steps(names)
    }
}

pub fn starts_at_root(path: &str) -> (yes: bool)
    ensures
        yes == is_absolute(path@),
{
    path.unicode_len() > 0 && path.get_char(0) == '/'
}

pub fn components_of(path: &str) -> (list: Vec<Component>)
    ensures
        steps(list@) == components(path@),
{
    let names = split_text(path, '/');
    let mut list: Vec<Component> = Vec::new();
    proof {
        reveal_strlit(".");
        reveal_strlit("..");
        assert("."@ =~= seq!['.']);
        assert(".."@ =~= seq!['.', '.']);
        assert(text::texts(names@)[0] == names@[0]@);
    }
    let ghost mut start = Seq::<ComponentView>::empty();
    if starts_at_root(path) {
        list.push(Component::Root);
        proof {
            start = seq![ComponentView::Root];
        }
    } else if same_text(names[0].as_str(), ".") {
        list.push(Component::Current);
        proof {
            start = seq![ComponentView::Current];
        }
    }
    let mut i: usize = 0;
    proof {
        assert(steps(list@) =~= start + named_steps(text::texts(names@).take(0)));
    }
    while i < names.len()
        invariant
            i <= names@.len(),
            steps(list@) == start + named_steps(text::texts(names@).take(i as int)),
            "."@ == seq!['.'],
            ".."@ == seq!['.', '.'],
        decreases names.len() - i,
    {
        let ghost before = list@;
        proof {
            let next = text::texts(names@).take(i + 1);
            assert(next.drop_last() =~= text::texts(names@).take(i as int));
            assert(next.last() == names@[i as int]@);
        }
        let name = names[i].as_str();
        if name.unicode_len() == 0 || same_text(name, ".") {
        } else if same_text(name, "..") {
            list.push(Component::Parent);
        } else {
            list.push(Component::Normal(name.to_owned()));
        }
        proof {
            if list@.len() > before.len() {
                assert(steps(list@) =~= steps(before).push(list@.last()@));
            }
            assert(steps(list@) =~= start + named_steps(text::texts(names@).take(i + 1)));
        }
        i = i + 1;
    }
    proof {
        assert(text::texts(names@).take(i as int) =~= text::texts(names@));
        if !is_absolute(path@) && text::texts(names@)[0] != seq!['.'] {
            assert(start + named_steps(text::texts(names@)) =~= named_steps(text::texts(names@)));
        }
    }
    list
}

/// The last step of a path, where it is a name.
pub open spec fn file_name(path: Seq<char>) -> Option<Seq<char>> {
    let list = components(path);
    if list.len() == 0 {
        None
    } else {
        match list.last() {
            ComponentView::Normal(name) => Some(name),
            _ => None,
        }
    }
}

pub fn file_name_of(path: &str) -> (name: Option<String>)
    ensures
        crate::text::text_of(name) == file_name(path@),
{
    let mut list = components_of(path);
    proof {
        assert(list@.len() == steps(list@).len());
        if list@.len() > 0 {
            assert(steps(list@).last() == list@.last()@);
        }
    }
    match list.pop() {
        Some(Component::Normal(name)) => Some(name),
        _ => None,
    }
}

/// Where a character last stands in a text, below `below`, else -1.
pub open spec fn last_at(text: Seq<char>, wanted: char, below: int) -> int
    decreases below,
{
    if below <= 0 {
        -1
    } else if text[below - 1] == wanted {
        below - 1
    } else {
        last_at(text, wanted, below - 1)
    }
}

pub proof fn lemma_last_at(text: Seq<char>, wanted: char, below: int)
    requires
        0 <= below <= text.len(),
    ensures
        -1 <= last_at(text, wanted, below) < below || (below == 0 && last_at(text, wanted, below)
            == -1),
        last_at(text, wanted, below) >= 0 ==> text[last_at(text, wanted, below)] == wanted,
        forall|i: int| last_at(text, wanted, below) < i < below ==> text[i] != wanted,
    decreases below,
{
    if below > 0 && text[below - 1] != wanted {
        lemma_last_at(text, wanted, below - 1);
    }
}

/// A file name without its extension, and the extension: what stands behind
/// the last dot, unless that dot comes first.
pub open spec fn at_extension(name: Seq<char>) -> (Seq<char>, Option<Seq<char>>) {
    let dot = last_at(name, '.', name.len() as int);
    if dot <= 0 {
        (name, None)
    } else {
        (name.take(dot), Some(name.skip(dot + 1)))
    }
}

fn split_extension(name: &str) -> (parts: (String, Option<String>))
    ensures
        parts.0@ == at_extension(name@).0,
        crate::text::text_of(parts.1) == at_extension(name@).1,
{
    let chars = chars_of(name);
    let mut dot: usize = chars.len();
    while dot > 0 && chars[dot - 1] != '.'
        invariant
            dot <= chars@.len(),
            chars@ == name@,
            last_at(name@, '.', name@.len() as int) == last_at(name@, '.', dot as int),
        decreases dot,
    {
        dot = dot - 1;
    }
    if dot <= 1 {
        (name.to_owned(), None)
    } else {
        let n: usize = chars.len();
        let stem = text_between(&chars, 0, dot - 1);
        let extension = text_between(&chars, dot, n);
        proof {
            assert(name@.subrange(0, dot - 1) =~= name@.take(dot - 1));
            assert(name@.subrange(dot as int, n as int) =~= name@.skip(dot as int));
        }
        (stem, Some(extension))
    }
}

/// The extension of the file a path names.
pub open spec fn extension(path: Seq<char>) -> Option<Seq<char>> {
    match file_name(path) {
        Some(name) => at_extension(name).1,
        None => None,
    }
}

pub fn extension_of(path: &str) -> (extension: Option<String>)
    ensures
        crate::text::text_of(extension) == self::extension(path@),
{
    match file_name_of(path) {
        Some(name) => split_extension(name.as_str()).1,
        None => None,
    }
}

/// The name of the file a path names, without its extension.
pub open spec fn file_stem(path: Seq<char>) -> Option<Seq<char>> {
    match file_name(path) {
        Some(name) => Some(at_extension(name).0),
        None => None,
    }
}

pub fn file_stem_of(path: &str) -> (stem: Option<String>)
    ensures
        crate::text::text_of(stem) == file_stem(path@),
{
    match file_name_of(path) {
        Some(name) => Some(split_extension(name.as_str()).0),
        None => None,
    }
}

/// A path under a directory; an absolute one stands for itself.
pub open spec fn placed(base: Seq<char>, path: Seq<char>) -> Seq<char> {
    if is_absolute(path) {
        path
    } else if base.len() == 0 || base.last() == '/' {
        base + path
    } else {
        base.push('/') + path
    }
}

pub fn join(base: &str, path: &str) -> (whole: String)
    ensures
        whole@ == placed(base@, path@),
{
    if starts_at_root(path) {
        return path.to_owned();
    }
    let n: usize = base.unicode_len();
    let mut whole: String = base.to_owned();
    if n > 0 && base.get_char(n - 1) != '/' {
        whole.push('/');
    }
    whole.append(path);
    whole
}

/// Whether every step of `base` comes first in `path`.
pub open spec fn lies_under(path: Seq<char>, base: Seq<char>) -> bool {
    let inner = components(path);
    let outer = components(base);
    outer.len() <= inner.len() && inner.take(outer.len() as int) == outer
}

pub fn same_step(a: &Component, b: &Component) -> (same: bool)
    ensures
        same == (a@ == b@),
{
    match (a, b) {
        (Component::Root, Component::Root) => true,
        (Component::Current, Component::Current) => true,
        (Component::Parent, Component::Parent) => true,
        (Component::Normal(x), Component::Normal(y)) => same_text(x.as_str(), y.as_str()),
        _ => false,
    }
}

pub fn starts_with(path: &str, base: &str) -> (yes: bool)
    ensures
        yes == lies_under(path@, base@),
{
    let inner = components_of(path);
    let outer = components_of(base);
    proof {
        assert(steps(inner@).len() == inner@.len());
        assert(steps(outer@).len() == outer@.len());
    }
    if outer.len() > inner.len() {
        return false;
    }
    let mut i: usize = 0;
    while i < outer.len()
        invariant
            i <= outer@.len() <= inner@.len(),
            steps(inner@) == components(path@),
            steps(outer@) == components(base@),
            forall|j: int| 0 <= j < i ==> steps(inner@)[j] == #[trigger] steps(outer@)[j],
        decreases outer.len() - i,
    {
        if !same_step(&inner[i], &outer[i]) {
            proof {
                assert(steps(inner@).take(outer@.len() as int)[i as int] != steps(outer@)[i as int]);
            }
            return false;
        }
        proof {
            assert(steps(inner@)[i as int] == steps(outer@)[i as int]);
        }
        i = i + 1;
    }
    proof {
        assert(steps(inner@).take(outer@.len() as int) =~= steps(outer@));
    }
    true
}

/// A directory lies under itself, and what lies under a directory that lies
/// under a third lies under the third.
pub proof fn lies_under_is_a_preorder(a: Seq<char>, b: Seq<char>, c: Seq<char>)
    ensures
        lies_under(a, a),
        lies_under(a, b) && lies_under(b, c) ==> lies_under(a, c),
{
    assert(components(a).take(components(a).len() as int) =~= components(a));
    if lies_under(a, b) && lies_under(b, c) {
        let n = components(c).len() as int;
        assert(components(a).take(n) =~= components(a).take(components(b).len() as int).take(n));
    }
}

/// Whether two paths have the same steps.
pub open spec fn equivalent(a: Seq<char>, b: Seq<char>) -> bool {
    components(a) == components(b)
}

pub fn is_equivalent(a: &str, b: &str) -> (yes: bool)
    ensures
        yes == equivalent(a@, b@),
{
    let yes = starts_with(a, b) && starts_with(b, a);
    proof {
        let (x, y) = (components(a@), components(b@));
        assert(x.take(x.len() as int) =~= x);
        assert(y.take(y.len() as int) =~= y);
    }
    yes
}

/// A step as it is written.
pub open spec fn step_text(step: ComponentView) -> Seq<char> {
    match step {
        ComponentView::Root => "/"@,
        ComponentView::Current => "."@,
        ComponentView::Parent => ".."@,
        ComponentView::Normal(name) => name,
    }
}

/// Steps written as a path.
pub open spec fn spelled(list: Seq<ComponentView>) -> Seq<char>
    decreases list.len(),
{
    if list.len() == 0 {
        Seq::empty()
    } else {
        placed(spelled(list.drop_last()), step_text(list.last()))
    }
}

/// A path without empty names, inner dots and a separator at its end.
pub open spec fn normalized(path: Seq<char>) -> Seq<char> {
    spelled(components(path))
}

fn spell_steps(list: &Vec<Component>) -> (text: String)
    ensures
        text@ == spelled(steps(list@)),
{
    let mut text: String = String::new();
    let mut i: usize = 0;
    proof {
        assert(steps(list@).take(0) =~= Seq::empty());
    }
    while i < list.len()
        invariant
            i <= list@.len(),
            text@ == spelled(steps(list@).take(i as int)),
        decreases list.len() - i,
    {
        proof {
            let next = steps(list@).take(i + 1);
            assert(next.drop_last() =~= steps(list@).take(i as int));
            assert(next.last() == list@[i as int]@);
        }
        let step = match &list[i] {
            Component::Root => "/",
            Component::Current => ".",
            Component::Parent => "..",
            Component::Normal(name) => name.as_str(),
        };
        text = join(text.as_str(), step);
        i = i + 1;
    }
    proof {
        assert(steps(list@).take(i as int) =~= steps(list@));
    }
    text
}

pub fn normalize(path: &str) -> (normal: String)
    ensures
        normal@ == normalized(path@),
{
    spell_steps(&components_of(path))
}

/// The path above another; none above the root and above no path at all.
pub open spec fn parent(path: Seq<char>) -> Option<Seq<char>> {
    let list = components(path);
    if list.len() == 0 || list.last() is Root {
        None
    } else {
        Some(spelled(list.drop_last()))
    }
}

pub fn parent_of(path: &str) -> (above: Option<String>)
    ensures
        crate::text::text_of(above) == parent(path@),
{
    let mut list = components_of(path);
    proof {
        assert(steps(list@).len() == list@.len());
        if list@.len() > 0 {
            assert(steps(list@).last() == list@.last()@);
            assert(steps(list@.drop_last()) =~= steps(list@).drop_last());
        }
    }
    match list.pop() {
        None | Some(Component::Root) => None,
        Some(_) => Some(spell_steps(&list)),
    }
}

/// Whether a name is one step down: not empty, no separator, neither dot.
pub open spec fn one_step(name: Seq<char>) -> bool {
    name.len() > 0 && !name.contains('/') && name != seq!['.'] && name != seq!['.', '.']
}

/// A name in a directory is one step below it.
pub proof fn lemma_components_placed(base: Seq<char>, name: Seq<char>)
    requires
        one_step(name),
    ensures
        components(placed(base, name)) == components(base).push(ComponentView::Normal(name)),
        lies_under(placed(base, name), base),
{
    let whole = placed(base, name);
    let list = text::pieces(base, '/');
    assert(!is_absolute(name)) by {
        if is_absolute(name) {
            assert(name.contains(name[0]));
        }
    }
    text::lemma_pieces_nonempty(base, '/');
    let names = text::pieces(whole, '/');
    let step = ComponentView::Normal(name);
    if base.len() == 0 {
        assert(whole =~= base + name);
        assert(list =~= seq![Seq::empty()]);
        text::lemma_pieces_extend(base, name, '/');
        assert(Seq::<char>::empty() + name =~= name);
        assert(names =~= seq![name]);
        assert(names.drop_last() =~= Seq::empty());
        assert(named_steps(names) == named_steps(Seq::empty()).push(step));
        assert(list.drop_last() =~= Seq::empty());
        assert(named_steps(list) == named_steps(Seq::empty()));
        assert(components(base) =~= Seq::empty());
        assert(components(whole) =~= components(base).push(step));
    } else if base.last() == '/' {
        let init = base.drop_last();
        assert(base =~= init.push('/'));
        assert(whole =~= init.push('/') + name);
        text::lemma_pieces_add(init, '/', name);
        let before = text::pieces(init, '/');
        text::lemma_pieces_nonempty(init, '/');
        assert(list == before.push(Seq::empty()));
        assert(names.drop_last() =~= before);
        assert(list.drop_last() =~= before);
        assert(named_steps(list) == named_steps(before));
        assert(named_steps(names) == named_steps(before).push(step));
        assert(whole[0] == base[0]);
        assert(names[0] == before[0] && list[0] == before[0]);
        assert(components(whole) =~= components(base).push(step));
    } else {
        assert(whole =~= base.push('/') + name);
        text::lemma_pieces_add(base, '/', name);
        assert(names.drop_last() =~= list);
        assert(named_steps(names) == named_steps(list).push(step));
        assert(whole[0] == base[0]);
        assert(names[0] == list[0]);
        assert(components(whole) =~= components(base).push(step));
    }
    let n = components(base).len() as int;
    assert(components(whole).take(n) =~= components(base));
}

/// Whether one step is sorted before another.
pub open spec fn step_precedes(a: ComponentView, b: ComponentView) -> bool {
    match (a, b) {
        (ComponentView::Root, ComponentView::Root) => false,
        (ComponentView::Root, _) => true,
        (_, ComponentView::Root) => false,
        (ComponentView::Current, ComponentView::Current) => false,
        (ComponentView::Current, _) => true,
        (_, ComponentView::Current) => false,
        (ComponentView::Parent, ComponentView::Parent) => false,
        (ComponentView::Parent, _) => true,
        (_, ComponentView::Parent) => false,
        (ComponentView::Normal(x), ComponentView::Normal(y)) => ordered::precedes(x, y),
    }
}

/// Whether one list of steps is sorted before another: by the first step they
/// differ in, and a list before those that continue it.
pub open spec fn steps_precede(a: Seq<ComponentView>, b: Seq<ComponentView>) -> bool
    decreases a.len(),
{
    if b.len() == 0 {
        false
    } else if a.len() == 0 {
        true
    } else if a[0] != b[0] {
        step_precedes(a[0], b[0])
    } else {
        steps_precede(a.drop_first(), b.drop_first())
    }
}

/// Whether one path is sorted before another, step by step.
pub open spec fn sorts_before(a: Seq<char>, b: Seq<char>) -> bool {
    steps_precede(components(a), components(b))
}

proof fn lemma_step_order(a: ComponentView, b: ComponentView, c: ComponentView)
    ensures
        !step_precedes(a, a),
        a == b || step_precedes(a, b) || step_precedes(b, a),
        step_precedes(a, b) ==> !step_precedes(b, a),
        step_precedes(a, b) && step_precedes(b, c) ==> step_precedes(a, c),
{
    if let ComponentView::Normal(x) = a {
        ordered::lemma_precedes_irreflexive(x);
        if let ComponentView::Normal(y) = b {
            ordered::lemma_precedes_total(x, y);
            if ordered::precedes(x, y) {
                ordered::lemma_precedes_asymmetric(x, y);
            }
            if let ComponentView::Normal(z) = c {
                if ordered::precedes(x, y) && ordered::precedes(y, z) {
                    ordered::lemma_precedes_transitive(x, y, z);
                }
            }
        }
    }
}

/// Paths are sorted by an order: no path comes before itself, of two that
/// differ one comes first, and what comes before another comes before all that
/// the other does.
pub proof fn paths_are_ordered(a: Seq<ComponentView>, b: Seq<ComponentView>, c: Seq<ComponentView>)
    ensures
        !steps_precede(a, a),
        a == b || steps_precede(a, b) || steps_precede(b, a),
        steps_precede(a, b) ==> !steps_precede(b, a),
        steps_precede(a, b) && steps_precede(b, c) ==> steps_precede(a, c),
    decreases a.len(),
{
    if a.len() > 0 {
        paths_are_ordered(a.drop_first(), a.drop_first(), Seq::empty());
        if b.len() > 0 {
            if c.len() > 0 {
                lemma_step_order(a[0], b[0], c[0]);
                lemma_step_order(b[0], c[0], a[0]);
                lemma_step_order(a[0], c[0], b[0]);
                paths_are_ordered(a.drop_first(), b.drop_first(), c.drop_first());
            } else {
                lemma_step_order(a[0], b[0], a[0]);
                paths_are_ordered(a.drop_first(), b.drop_first(), c);
            }
            if a[0] == b[0] && a.drop_first() == b.drop_first() {
                assert(a =~= seq![a[0]] + a.drop_first());
                assert(b =~= seq![b[0]] + b.drop_first());
            }
        }
    } else if b.len() == 0 {
        assert(a =~= b);
    }
}

fn step_comes_first(a: &Component, b: &Component) -> (yes: bool)
    ensures
        yes == step_precedes(a@, b@),
{
    match (a, b) {
        (Component::Root, Component::Root) => false,
        (Component::Root, _) => true,
        (_, Component::Root) => false,
        (Component::Current, Component::Current) => false,
        (Component::Current, _) => true,
        (_, Component::Current) => false,
        (Component::Parent, Component::Parent) => false,
        (Component::Parent, _) => true,
        (_, Component::Parent) => false,
        (Component::Normal(x), Component::Normal(y)) => text_precedes(x.as_str(), y.as_str()),
    }
}

pub fn path_sorts_before(a: &str, b: &str) -> (yes: bool)
    ensures
        yes == sorts_before(a@, b@),
{
    let x = components_of(a);
    let y = components_of(b);
    let ghost xs = steps(x@);
    let ghost ys = steps(y@);
    let mut i: usize = 0;
    proof {
        assert(xs.skip(0) =~= xs);
        assert(ys.skip(0) =~= ys);
    }
    while i < x.len() && i < y.len()
        invariant
            i <= x@.len(),
            i <= y@.len(),
            xs == steps(x@),
            ys == steps(y@),
            steps_precede(xs, ys) == steps_precede(xs.skip(i as int), ys.skip(i as int)),
            xs == components(a@),
            ys == components(b@),
        decreases x.len() - i,
    {
        proof {
            assert(xs.skip(i as int)[0] == x@[i as int]@);
            assert(ys.skip(i as int)[0] == y@[i as int]@);
            assert(xs.skip(i as int).drop_first() =~= xs.skip(i + 1));
            assert(ys.skip(i as int).drop_first() =~= ys.skip(i + 1));
        }
        if !same_step(&x[i], &y[i]) {
            return step_comes_first(&x[i], &y[i]);
        }
        i = i + 1;
    }
    proof {
        assert(xs.skip(i as int).len() == x@.len() - i);
        assert(ys.skip(i as int).len() == y@.len() - i);
    }
    i < y.len()
}

} // verus!
