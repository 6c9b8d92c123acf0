//! Resolution of untrusted relative paths beneath a base directory.
//!
//! Paths are UTF-8 strings. Splitting a path into components, building a
//! path from names, adjoining and prefix comparison are done by `camino`;
//! the walk that rejects escapes is this module's own.

use camino::{Utf8Component, Utf8Path, Utf8PathBuf};
use vstd::prelude::*;

verus! {

/// One component of a path.
#[derive(Debug, Clone, PartialEq, Eq)]
pub enum Component {
    /// A drive or share prefix.
    Prefix,
    /// The root directory.
    RootDir,
    /// `.`
    CurDir,
    /// `..`
    ParentDir,
    /// A file or directory name.
    Normal(String),
}

/// The mathematical value of a [`Component`].
pub enum ComponentView {
    Prefix,
    RootDir,
    CurDir,
    ParentDir,
    Normal(Seq<char>),
}

impl View for Component {
    type V = ComponentView;

    open spec fn view(&self) -> ComponentView {
        match self {
            Component::Prefix => ComponentView::Prefix,
            Component::RootDir => ComponentView::RootDir,
            Component::CurDir => ComponentView::CurDir,
            Component::ParentDir => ComponentView::ParentDir,
            Component::Normal(name) => ComponentView::Normal(name@),
        }
    }
}

/// The values of a sequence of components, in order.
pub open spec fn components_view(components: Seq<Component>) -> Seq<ComponentView> {
    Seq::new(components.len(), |i: int| components[i]@)
}

/// The values of a sequence of strings, in order.
pub open spec fn names_view(names: Seq<String>) -> Seq<Seq<char>> {
    Seq::new(names.len(), |i: int| names[i]@)
}

/// The value of an optional string.
pub open spec fn text_view(text: Option<String>) -> Option<Seq<char>> {
    match text {
        Some(s) => Some(s@),
        None => None,
    }
}

/// The components that `camino` finds in `path`, on the platform the
/// library is built for.
pub uninterp spec fn path_components(path: Seq<char>) -> Seq<ComponentView>;

/// The path that `camino` builds by pushing `names` one after another onto
/// an empty path.
pub uninterp spec fn path_of_names(names: Seq<Seq<char>>) -> Seq<char>;

/// The path that `camino` gives for `path` adjoined to `base`.
pub uninterp spec fn path_joined(base: Seq<char>, path: Seq<char>) -> Seq<char>;

/// Whether `camino` finds `base` to be a prefix of `path`, whole component
/// by whole component.
pub uninterp spec fn path_starts_with(path: Seq<char>, base: Seq<char>) -> bool;

/// `Utf8Path::components`: the components of `path`, each turned into a
/// [`Component`]. Nothing is claimed of them here but that they are what
/// `camino` returns for this text.
#[verifier::external_body]
fn split_components(path: &str) -> (components: Vec<Component>)
    ensures
        components_view(components@) == path_components(path@),
{
    Utf8Path::new(path).components().map(|c| match c {
        Utf8Component::Prefix(_) => Component::Prefix,
        Utf8Component::RootDir => Component::RootDir,
        Utf8Component::CurDir => Component::CurDir,
        Utf8Component::ParentDir => Component::ParentDir,
        Utf8Component::Normal(name) => Component::Normal(name.to_string()),
    }).collect()
}

/// `Utf8PathBuf`'s `FromIterator`: the path made of `names`, pushed in
/// order onto an empty path.
#[verifier::external_body]
fn build_path(names: &Vec<String>) -> (path: String)
    ensures
        path@ == path_of_names(names_view(names@)),
{
    names.iter().collect::<Utf8PathBuf>().into_string()
}

/// `Utf8Path::join`: `base` with `path` adjoined.
#[verifier::external_body]
fn join_path(base: &str, path: &str) -> (joined: String)
    ensures
        joined@ == path_joined(base@, path@),
{
    Utf8Path::new(base).join(path).into_string()
}

/// `Utf8Path::starts_with`: whether `base` is a prefix of `path`, compared
/// by whole components.
#[verifier::external_body]
fn starts_with(path: &str, base: &str) -> (yes: bool)
    ensures
        yes == path_starts_with(path@, base@),
{
    Utf8Path::new(path).starts_with(base)
}

/// The parent that `camino` finds for `path`, if it has one.
pub uninterp spec fn path_parent(path: Seq<char>) -> Option<Seq<char>>;

/// The final component that `camino` finds in `path`, if it is a name.
pub uninterp spec fn path_file_name(path: Seq<char>) -> Option<Seq<char>>;

/// What `camino` finds left of `path` once `base` is taken from its
/// front, if `base` is a prefix of it.
pub uninterp spec fn path_stripped(path: Seq<char>, base: Seq<char>) -> Option<Seq<char>>;

/// `Utf8Path::parent`: `path` without its final component, or `None` where
/// it ends in a root or prefix or is empty.
#[verifier::external_body]
pub(crate) fn parent(path: &str) -> (found: Option<String>)
    ensures
        text_view(found) == path_parent(path@),
{
    Utf8Path::new(path).parent().map(|p| p.as_str().to_string())
}

/// `Utf8Path::file_name`: the final component of `path`, or `None` where
/// the path ends in `..` or has no component.
#[verifier::external_body]
pub(crate) fn file_name(path: &str) -> (found: Option<String>)
    ensures
        text_view(found) == path_file_name(path@),
{
    Utf8Path::new(path).file_name().map(|name| name.to_string())
}

/// `Utf8Path::strip_prefix`: the path that, joined onto `base`, gives
/// `path`, or `None` where `base` is no prefix of `path`.
#[verifier::external_body]
pub(crate) fn strip_prefix(path: &str, base: &str) -> (found: Option<String>)
    ensures
        text_view(found) == path_stripped(path@, base@),
{
    Utf8Path::new(path).strip_prefix(base).ok().map(|p| p.as_str().to_string())
}

/// The names that remain when `components` are walked from `kept`: `.` is
/// skipped, `..` drops the last name kept, a name is appended. There is no
/// result if a prefix or root occurs, if `..` finds nothing to drop, or if a
/// name is empty.
pub open spec fn normalize_from(kept: Seq<Seq<char>>, components: Seq<ComponentView>) -> Option<
    Seq<Seq<char>>,
>
    decreases components.len(),
{
    if components.len() == 0 {
        Some(kept)
    } else {
        let rest = components.drop_first();
        match components[0] {
            ComponentView::Prefix => None,
            ComponentView::RootDir => None,
            ComponentView::CurDir => normalize_from(kept, rest),
            ComponentView::ParentDir => if kept.len() == 0 {
                None
            } else {
                normalize_from(kept.drop_last(), rest)
            },
            ComponentView::Normal(name) => if name.len() == 0 {
                None
            } else {
                normalize_from(kept.push(name), rest)
            },
        }
    }
}

/// The names that remain when `components` are walked from nothing.
pub open spec fn normalized(components: Seq<ComponentView>) -> Option<Seq<Seq<char>>> {
    normalize_from(Seq::empty(), components)
}

/// The value of an optional list of names.
pub open spec fn optional_names_view(names: Option<Vec<String>>) -> Option<Seq<Seq<char>>> {
    match names {
        Some(v) => Some(names_view(v@)),
        None => None,
    }
}

/// Walks `components` and returns the names that remain, or `None` where the
/// walk meets a prefix, a root, an empty name, or a `..` with nothing left
/// to drop.
pub fn normalize(components: &Vec<Component>) -> (names: Option<Vec<String>>)
    ensures
        optional_names_view(names) == normalized(components_view(components@)),
{
    let mut kept: Vec<String> = Vec::new();
    let mut i: usize = 0;
    assert(components_view(components@).skip(0) =~= components_view(components@));
    assert(names_view(kept@) =~= Seq::<Seq<char>>::empty());
    while i < components.len()
        invariant
            i <= components.len(),
            normalize_from(names_view(kept@), components_view(components@).skip(i as int))
                == normalized(components_view(components@)),
        decreases components.len() - i,
    {
        let ghost before = names_view(kept@);
        let ghost rest = components_view(components@).skip(i as int);
        assert(rest.len() > 0);
        assert(rest[0] == components@[i as int]@);
        assert(rest.drop_first() =~= components_view(components@).skip(i + 1));
        match &components[i] {
            Component::Prefix => {
                return None;
            },
            Component::RootDir => {
                return None;
            },
            Component::CurDir => {},
            Component::ParentDir => {
                if kept.len() == 0 {
                    return None;
                }
                kept.pop();
                assert(names_view(kept@) =~= before.drop_last());
            },
            Component::Normal(name) => {
                if name.as_str().is_empty() {
                    return None;
                }
                kept.push(name.clone());
                assert(names_view(kept@) =~= before.push(name@));
            },
        }
        i += 1;
    }
    assert(components_view(components@).skip(i as int).len() == 0);
    Some(kept)
}

/// Whether two strings hold the same text.
pub fn same_text(a: &str, b: &str) -> (same: bool)
    ensures
        same == (a@ == b@),
{
    broadcast use {vstd::utf8::encode_utf8_decode_utf8, vstd::utf8::encode_utf8_valid_utf8};

    let x = a.as_bytes();
    let y = b.as_bytes();
    if x.len() != y.len() {
        return false;
    }
    let mut i: usize = 0;
    while i < x.len()
        invariant
            i <= x.len(),
            x.len() == y.len(),
            x@ == vstd::utf8::encode_utf8(a@),
            y@ == vstd::utf8::encode_utf8(b@),
            forall|k: int| 0 <= k < i ==> x@[k] == y@[k],
        decreases x.len() - i,
    {
        if x[i] != y[i] {
            return false;
        }
        i += 1;
    }
    assert(x@ =~= y@);
    assert(vstd::utf8::decode_utf8(vstd::utf8::encode_utf8(a@)) == a@);
    assert(vstd::utf8::decode_utf8(vstd::utf8::encode_utf8(b@)) == b@);
    true
}

/// Whether `relative` names the base itself: the empty path, `.` or `./`.
pub open spec fn names_base(relative: Seq<char>) -> bool {
    relative.len() == 0 || relative == seq!['.'] || relative == seq!['.', '/']
}

/// What [`safe_join`] returns for `base` and `relative`.
pub open spec fn safe_join_spec(base: Seq<char>, relative: Seq<char>) -> Option<Seq<char>> {
    if names_base(relative) {
        Some(base)
    } else {
        match normalized(path_components(relative)) {
            None => None,
            Some(names) => {
                let joined = path_joined(base, path_of_names(names));
                if path_starts_with(joined, base) {
                    Some(joined)
                } else {
                    None
                }
            },
        }
    }
}

/// Joins the untrusted `relative` onto `base` so that the result cannot
/// leave `base`.
///
/// An empty `relative`, `.` and `./` give `base`. Otherwise the components of
/// `relative` are walked by [`normalize`]; the names that remain are made
/// into a path and adjoined to `base`, and the result is returned only if
/// `base` is a prefix of it, component by component.
pub fn safe_join(base: &str, relative: &str) -> (joined: Option<String>)
    ensures
        text_view(joined) == safe_join_spec(base@, relative@),
{
    proof {
        reveal_strlit(".");
        reveal_strlit("./");
        assert("."@ =~= seq!['.']);
        assert("./"@ =~= seq!['.', '/']);
    }
    if relative.is_empty() || same_text(relative, ".") || same_text(relative, "./") {
        return Some(base.to_owned());
    }
    let components = split_components(relative);
    match normalize(&components) {
        None => None,
        Some(names) => {
            let suffix = build_path(&names);
            let joined = join_path(base, suffix.as_str());
            if starts_with(joined.as_str(), base) {
                Some(joined)
            } else {
                None
            }
        },
    }
}

/// Whether `path` lies within `base`: it is `base` itself, or `base` is a
/// prefix of it, component by component.
pub open spec fn within(path: Seq<char>, base: Seq<char>) -> bool {
    path == base || path_starts_with(path, base)
}

/// How many of `components` are `..`.
pub open spec fn climbs(components: Seq<ComponentView>) -> nat
    decreases components.len(),
{
    if components.len() == 0 {
        0
    } else {
        let first: nat = if components[0] is ParentDir { 1 } else { 0 };
        first + climbs(components.drop_first())
    }
}

/// How many of `components` are names.
pub open spec fn descends(components: Seq<ComponentView>) -> nat
    decreases components.len(),
{
    if components.len() == 0 {
        0
    } else {
        let first: nat = if components[0] is Normal { 1 } else { 0 };
        first + descends(components.drop_first())
    }
}

/// Whether walking `components` from a directory would leave it: some
/// leading part of them climbs more often than it descends.
pub open spec fn escapes(components: Seq<ComponentView>) -> bool {
    exists|k: int|
        0 <= k <= components.len() && climbs(#[trigger] components.take(k)) > descends(
            components.take(k),
        )
}

/// Whether `text` holds two dots in a row.
pub open spec fn has_dot_dot(text: Seq<char>) -> bool {
    exists|i: int| 0 <= i && i + 1 < text.len() && #[trigger] text[i] == '.' && text[i + 1] == '.'
}

/// A walk that starts with `kept` names and whose first `k` components climb
/// more often than `kept` and their own names allow has no result.
proof fn lemma_climb_rejected(kept: Seq<Seq<char>>, components: Seq<ComponentView>, k: int)
    requires
        0 <= k <= components.len(),
        climbs(components.take(k)) > kept.len() + descends(components.take(k)),
    ensures
        normalize_from(kept, components) is None,
    decreases components.len(),
{
    if k == 0 {
        assert(components.take(0).len() == 0);
    } else {
        let rest = components.drop_first();
        assert(components.take(k).drop_first() =~= rest.take(k - 1));
        assert(components.take(k)[0] == components[0]);
        match components[0] {
            ComponentView::Prefix => {},
            ComponentView::RootDir => {},
            ComponentView::CurDir => {
                lemma_climb_rejected(kept, rest, k - 1);
            },
            ComponentView::ParentDir => {
                if kept.len() > 0 {
                    lemma_climb_rejected(kept.drop_last(), rest, k - 1);
                }
            },
            ComponentView::Normal(name) => {
                if name.len() > 0 {
                    lemma_climb_rejected(kept.push(name), rest, k - 1);
                }
            },
        }
    }
}

/// Components that would leave the directory they are walked from are
/// rejected by the walk.
pub proof fn lemma_escape_rejected(components: Seq<ComponentView>)
    requires
        escapes(components),
    ensures
        normalized(components) is None,
{
    let k = choose|k: int|
        0 <= k <= components.len() && climbs(#[trigger] components.take(k)) > descends(
            components.take(k),
        );
    lemma_climb_rejected(Seq::empty(), components, k);
}

/// Whatever [`safe_join`] returns lies within `base`.
pub proof fn lemma_safe_join_within(base: Seq<char>, relative: Seq<char>)
    ensures
        safe_join_spec(base, relative) matches Some(path) ==> within(path, base),
{
}

/// A relative path that holds `..` and whose components would leave the
/// base is rejected by [`safe_join`], whatever the base.
pub proof fn lemma_safe_join_rejects_escape(base: Seq<char>, relative: Seq<char>)
    requires
        has_dot_dot(relative),
        escapes(path_components(relative)),
    ensures
        safe_join_spec(base, relative) is None,
{
    let i = choose|i: int|
        0 <= i && i + 1 < relative.len() && #[trigger] relative[i] == '.' && relative[i + 1] == '.';
    assert(relative.len() >= 2);
    if relative == seq!['.', '/'] {
        assert(i == 0);
        assert(relative[1] == '/');
    }
    assert(relative != seq!['.']);
    assert(!names_base(relative));
    lemma_escape_rejected(path_components(relative));
}

/// A walk over names alone, none of them empty, keeps them all.
pub proof fn lemma_names_kept(kept: Seq<Seq<char>>, names: Seq<Seq<char>>)
    requires
        forall|i: int| 0 <= i < names.len() ==> (#[trigger] names[i]).len() > 0,
    ensures
        normalize_from(kept, names.map_values(|name: Seq<char>| ComponentView::Normal(name)))
            == Some(kept + names),
    decreases names.len(),
{
    let components = names.map_values(|name: Seq<char>| ComponentView::Normal(name));
    if names.len() == 0 {
        assert(kept + names =~= kept);
    } else {
        assert(components[0] == ComponentView::Normal(names[0]));
        assert(components.drop_first() =~= names.drop_first().map_values(
            |name: Seq<char>| ComponentView::Normal(name),
        ));
        lemma_names_kept(kept.push(names[0]), names.drop_first());
        assert(kept.push(names[0]) + names.drop_first() =~= kept + names);
    }
}

/// A relative path that is made of names alone passes the walk unchanged:
/// it resolves to the names adjoined to `base`, if `camino` finds the
/// result beneath `base`, and is rejected only otherwise.
pub proof fn lemma_names_resolve(base: Seq<char>, relative: Seq<char>, names: Seq<Seq<char>>)
    requires
        !names_base(relative),
        path_components(relative) == names.map_values(|name: Seq<char>| ComponentView::Normal(name)),
        forall|i: int| 0 <= i < names.len() ==> (#[trigger] names[i]).len() > 0,
    ensures
        safe_join_spec(base, relative) == if path_starts_with(
            path_joined(base, path_of_names(names)),
            base,
        ) {
            Some(path_joined(base, path_of_names(names)))
        } else {
            None
        },
{
    lemma_names_kept(Seq::empty(), names);
    assert(Seq::<Seq<char>>::empty() + names =~= names);
}

} // verus!
