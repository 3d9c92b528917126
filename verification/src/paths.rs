//! Where caches lie, and the files that a model is made from.

use crate::gltf_sources::text_view;
use crate::records::views;
use std::path::{Component, Path, PathBuf};
use vstd::prelude::*;
use vstd::string::StringExecFns;
use vstd::utf8::encode_utf8;

verus! {

/// Where the last name of a path starts: behind its last slash.
pub open spec fn name_start(path: Seq<char>) -> nat
    decreases path.len(),
{
    if path.len() == 0 || path.last() == '/' {
        path.len()
    } else {
        name_start(path.drop_last())
    }
}

/// The last name of a path.
pub open spec fn last_name(path: Seq<char>) -> Seq<char> {
    path.skip(name_start(path) as int)
}

/// A path without its last name: nothing for a name alone, the root for a name in it.
pub open spec fn parent_of(path: Seq<char>) -> Seq<char> {
    let start = name_start(path) as int;
    if start <= 1 {
        path.take(start)
    } else {
        path.take(start - 1)
    }
}

/// A name that means the same everywhere: neither the directory itself nor the one above it, and
/// without characters that separate names.
pub open spec fn plain_name(name: Seq<char>) -> bool {
    &&& name.len() > 0
    &&& name != seq!['.']
    &&& name != seq!['.', '.']
    &&& forall|i: int|
        0 <= i < name.len() ==> (#[trigger] name[i]) != '/' && name[i] != '\\'
}

/// A letter by which a drive can go.
pub open spec fn is_drive_letter(c: char) -> bool {
    'a' <= c <= 'z' || 'A' <= c <= 'Z'
}

/// Whether a path starts as one on a drive does: with a letter and a colon.
pub open spec fn names_a_drive(path: Seq<char>) -> bool {
    path.len() >= 2 && is_drive_letter(path[0]) && path[1] == ':'
}

/// A path that means the same everywhere: its names are separated by slashes alone, and it starts
/// neither with a drive nor with a host.
pub open spec fn portable(path: Seq<char>) -> bool {
    &&& !names_a_drive(path)
    &&& path.len() >= 2 ==> !(path[0] == '/' && path[1] == '/')
    &&& forall|i: int| 0 <= i < path.len() ==> (#[trigger] path[i]) != '\\'
}

/// A part of a path.
pub enum PathPart {
    Prefix(String),
    Root,
    Current,
    Parent,
    Name(String),
}

pub enum PartView {
    Prefix(Seq<char>),
    Root,
    Current,
    Parent,
    Name(Seq<char>),
}

impl View for PathPart {
    type V = PartView;

    open spec fn view(&self) -> PartView {
        match self {
            PathPart::Prefix(text) => PartView::Prefix(text@),
            PathPart::Root => PartView::Root,
            PathPart::Current => PartView::Current,
            PathPart::Parent => PartView::Parent,
            PathPart::Name(text) => PartView::Name(text@),
        }
    }
}

/// What stands between two slashes: nothing where they follow each other, the directory above for
/// two dots, a name otherwise. A single dot counts at the start of a path alone.
pub open spec fn step_parts(step: Seq<char>, at_start: bool) -> Seq<PartView> {
    if step.len() == 0 {
        Seq::empty()
    } else if step == seq!['.'] {
        if at_start {
            seq![PartView::Current]
        } else {
            Seq::empty()
        }
    } else if step == seq!['.', '.'] {
        seq![PartView::Parent]
    } else {
        seq![PartView::Name(step)]
    }
}

/// The parts of a path whose names are separated by slashes: the root, if there is a slash in front,
/// and what stands between the slashes.
pub open spec fn slash_parts(path: Seq<char>) -> Seq<PartView>
    decreases path.len(),
    when name_start(path) <= path.len()
{
    let start = name_start(path);
    let name = last_name(path);
    if start == 0 {
        step_parts(name, true)
    } else if start == 1 {
        seq![PartView::Root] + step_parts(name, false)
    } else {
        slash_parts(path.take(start - 1)) + step_parts(name, false)
    }
}

/// A path ends in no name: it is empty, the root, or ends in the directory itself or the one above.
pub open spec fn nameless(path: Seq<char>) -> bool {
    !(slash_parts(path).len() > 0 && slash_parts(path).last() is Name)
}

/// Nothing is above a path: it is empty or the root.
pub open spec fn parentless(path: Seq<char>) -> bool {
    slash_parts(path).len() == 0 || slash_parts(path) == seq![PartView::Root]
}

/// A path in which every slash separates two parts or stands for the root, and a single dot stands at
/// the start alone, so that the path is no longer than its parts.
pub open spec fn tidy(path: Seq<char>) -> bool
    decreases path.len(),
    when name_start(path) <= path.len()
{
    let start = name_start(path);
    let name = last_name(path);
    &&& name.len() > 0
    &&& start == 0 || name != seq!['.']
    &&& start <= 1 || tidy(path.take(start - 1))
}

/// Where the last dot of a name is.
pub open spec fn last_dot(name: Seq<char>) -> Option<int>
    decreases name.len(),
{
    if name.len() == 0 {
        None
    } else if name.last() == '.' {
        Some(name.len() - 1)
    } else {
        last_dot(name.drop_last())
    }
}

/// A name without its extension. A dot in front does not start an extension.
pub open spec fn stem_of(name: Seq<char>) -> Seq<char> {
    match last_dot(name) {
        Some(at) => if at > 0 {
            name.take(at)
        } else {
            name
        },
        None => name,
    }
}

/// A path with another extension.
pub open spec fn with_extension_of(path: Seq<char>, extension: Seq<char>) -> Seq<char> {
    path.take(name_start(path) as int) + stem_of(last_name(path)) + seq!['.'] + extension
}

/// A path with another extension, if it ends in a name at all.
pub open spec fn extended_path(path: Seq<char>, extension: Seq<char>) -> Seq<char> {
    if nameless(path) {
        path
    } else {
        with_extension_of(path, extension)
    }
}

/// A character that separates names, on some machine.
pub open spec fn is_separator(c: char) -> bool {
    c == '/' || c == '\\'
}

/// A path taken from a directory: a path from the root stays as it is, any other is put behind the
/// directory, with a separator between them unless the directory is empty or ends in a slash.
pub open spec fn joined(directory: Seq<char>, path: Seq<char>, separator: char) -> Seq<char> {
    if path.len() > 0 && path[0] == '/' {
        path
    } else if directory.len() == 0 || directory.last() == '/' {
        directory + path
    } else {
        directory + seq![separator] + path
    }
}

/// Whether `out` is a path taken from a directory, with the separator of some machine.
pub open spec fn is_joined(out: Seq<char>, directory: Seq<char>, path: Seq<char>) -> bool {
    exists|separator: char|
        is_separator(separator) && out == #[trigger] joined(directory, path, separator)
}

/// Whether `out` is a path taken from a directory in a directory, with the separator of some machine
/// in both places.
pub open spec fn is_adjoined(
    out: Seq<char>,
    directory: Seq<char>,
    inner: Seq<char>,
    path: Seq<char>,
) -> bool {
    exists|separator: char|
        is_separator(separator) && out == joined(
            #[trigger] joined(directory, inner, separator),
            path,
            separator,
        )
}

/// Whether `parent` is a path without its last part. Of a tidy path it is what stands in front of the
/// last slash.
pub open spec fn is_parent(parent: Seq<char>, path: Seq<char>) -> bool {
    &&& portable(parent)
    &&& slash_parts(parent) == slash_parts(path).drop_last()
    &&& tidy(path) ==> parent == parent_of(path)
}

/// `Path::parent`: the path without its last part; an empty path and the root have no parent. Nothing
/// is said of paths that start with a drive or a host or hold backslashes, nor of how the parent of
/// an untidy path is written.
#[verifier::external_body]
fn path_parent(path: &str) -> (out: Option<String>)
    ensures
        portable(path@) && parentless(path@) ==> out is None,
        portable(path@) && !parentless(path@) ==> out is Some && is_parent(out->Some_0@, path@),
{
    Path::new(path).parent().map(|parent| parent.to_string_lossy().into_owned())
}

/// `Path::file_stem`: the name that a path ends in, without its extension. Nothing is said of paths
/// that start with a drive or a host or hold backslashes.
#[verifier::external_body]
fn path_file_stem(path: &str) -> (out: Option<String>)
    ensures
        portable(path@) && nameless(path@) ==> out is None,
        portable(path@) && !nameless(path@) ==> out is Some && out->Some_0@ == stem_of(
            slash_parts(path@).last()->Name_0,
        ),
{
    Path::new(path).file_stem().map(|stem| stem.to_string_lossy().into_owned())
}

/// Whether a machine can take a path for one that stands by itself, though it has no slash in front:
/// it starts with a drive or with a backslash.
pub open spec fn may_stand_alone(path: Seq<char>) -> bool {
    names_a_drive(path) || (path.len() > 0 && path[0] == '\\')
}

/// `Path::join`: a path taken from a directory, with the machine's separator between them. An empty
/// path gives the directory, with a separator behind it where it has none. A path that the machine
/// takes to start with a drive or at the root is given back alone. Nothing is said of directories
/// that start with a drive or a host or hold backslashes.
#[verifier::external_body]
fn path_join(directory: &str, path: &str) -> (out: String)
    ensures
        portable(directory@) ==> is_joined(out@, directory@, path@) || (may_stand_alone(path@)
            && out@ == path@),
{
    Path::new(directory).join(path).to_string_lossy().into_owned()
}

/// `PathBuf::from_iter`: a directory, a directory in it and a path in that, each taken from what
/// stands in front of it, with the machine's separator in both places. A path that the machine takes
/// to start with a drive or at the root is given back alone. Nothing is said of directories that
/// start with a drive or a host or hold backslashes, nor of an empty inner one.
#[verifier::external_body]
fn path_adjoin(directory: &str, inner: &str, path: &str) -> (out: String)
    ensures
        portable(directory@) && portable(inner@) && inner@.len() > 0 ==> is_adjoined(
            out@,
            directory@,
            inner@,
            path@,
        ) || (may_stand_alone(path@) && out@ == path@),
{
    PathBuf::from_iter([directory, inner, path]).to_string_lossy().into_owned()
}

/// Whether `out` is a path with another extension, or its first: its last part is the name that the
/// path ends in with the extension, and the parts in front of it are the same. Where the name is the
/// end of the path, so is it written. A path that ends in no name stays as it is.
pub open spec fn is_extended(out: Seq<char>, path: Seq<char>, extension: Seq<char>) -> bool {
    if nameless(path) {
        out == path
    } else {
        let name = slash_parts(path).last()->Name_0;
        &&& portable(out)
        &&& plain_name(last_name(out))
        &&& slash_parts(out) == slash_parts(path).drop_last().push(
            PartView::Name(stem_of(name) + seq!['.'] + extension),
        )
        &&& plain_name(last_name(path)) ==> out == with_extension_of(path, extension)
    }
}

/// `PathBuf::set_extension`: gives the name that a path ends in another extension, or its first, and
/// leaves a path without such a name as it is. Nothing is said of paths that start with a drive or a
/// host or hold backslashes, nor of how the parts in front of the name are written where slashes or
/// single dots stand behind it.
#[verifier::external_body]
fn path_set_extension(path: &str, extension: &str) -> (out: String)
    requires
        plain_name(extension@),
    ensures
        portable(path@) ==> is_extended(out@, path@, extension@),
{
    let mut path = PathBuf::from(path);
    path.set_extension(extension);
    path.to_string_lossy().into_owned()
}

/// `Path::with_extension`: the path with another extension, or its first, if it ends in a name.
/// Nothing is said of paths that start with a drive or a host or hold backslashes, nor of those with
/// slashes or single dots behind the name, nor of names like `..x`, of which two dots are left
/// without their extension.
#[verifier::external_body]
fn path_with_extension(path: &str, extension: &str) -> (out: String)
    requires
        plain_name(extension@),
    ensures
        portable(path@) && (nameless(path@) || (plain_name(last_name(path@)) && stem_of(
            last_name(path@),
        ) != seq!['.'])) ==> out@ == extended_path(path@, extension@),
{
    Path::new(path).with_extension(extension).to_string_lossy().into_owned()
}

/// `Path::components`: the parts of a path. Nothing is said of paths that start with a drive or a host
/// or hold backslashes.
#[verifier::external_body]
fn path_parts(path: &str) -> (out: Vec<PathPart>)
    ensures
        portable(path@) ==> views(out@) == slash_parts(path@),
{
    Path::new(path).components().map(|part| match part {
        Component::Prefix(p) => PathPart::Prefix(p.as_os_str().to_string_lossy().into_owned()),
        Component::RootDir => PathPart::Root,
        Component::CurDir => PathPart::Current,
        Component::ParentDir => PathPart::Parent,
        Component::Normal(name) => PathPart::Name(name.to_string_lossy().into_owned()),
    }).collect()
}

/// The path of a model's cache beside it: its own with the extension `cache`.
pub fn cache_path(source: &str) -> (out: String)
    ensures
        portable(source@) ==> is_extended(out@, source@, "cache"@),
{
    proof {
        reveal_strlit("cache");
    }
    path_set_extension(source, "cache")
}

/// Where a cache is first written, before it takes its place.
pub fn temporary_cache_path(path: &str) -> (out: String)
    ensures
        portable(path@) && (nameless(path@) || (plain_name(last_name(path@)) && stem_of(
            last_name(path@),
        ) != seq!['.'])) ==> out@ == extended_path(path@, "cache.tmp"@),
{
    proof {
        reveal_strlit("cache.tmp");
    }
    path_with_extension(path, "cache.tmp")
}

/// Whether a path lies in a directory: in its parent, or in the current directory if it has none.
pub open spec fn lies_in(path: Seq<char>, directory: Seq<char>) -> bool {
    if parentless(path) {
        directory == "."@
    } else {
        is_parent(directory, path)
    }
}

/// The name of the cache of a model: the name that the model's path ends in, with the extension
/// `cache` in place of its own, or `asset.cache`.
pub open spec fn cache_name_of(source: Seq<char>) -> Seq<char> {
    if nameless(source) {
        "asset"@ + ".cache"@
    } else {
        stem_of(slash_parts(source).last()->Name_0) + ".cache"@
    }
}

/// The name of the cache file for a model with this name, without its extension, if it has one.
pub fn cache_file_name(stem: Option<String>) -> (out: String)
    ensures
        out@ == match stem {
            Some(stem) => stem@,
            None => "asset"@,
        } + ".cache"@,
{
    let mut name = match stem {
        Some(stem) => stem,
        None => String::from_str("asset"),
    };
    name.append(".cache");
    name
}

/// The directory of a path, or the current one.
pub fn base_directory(parent: Option<String>) -> (out: String)
    ensures
        out@ == match parent {
            Some(parent) => parent@,
            None => "."@,
        },
{
    match parent {
        Some(parent) => parent,
        None => String::from_str("."),
    }
}

proof fn lemma_name_start(path: Seq<char>)
    ensures
        name_start(path) <= path.len(),
        name_start(path) == 0 || path[name_start(path) - 1] == '/',
        forall|i: int| name_start(path) <= i < path.len() ==> (#[trigger] path[i]) != '/',
    decreases path.len(),
{
    if path.len() > 0 && path.last() != '/' {
        let front = path.drop_last();
        lemma_name_start(front);
        assert forall|i: int| name_start(path) <= i < path.len() implies (#[trigger] path[i])
            != '/' by {
            if i < front.len() {
                assert(path[i] == front[i]);
            }
        }
    }
}

/// The last name behind a slash, or of a path that is no more than a name.
proof fn lemma_name_behind(front: Seq<char>, name: Seq<char>)
    requires
        front.len() == 0 || front.last() == '/',
        forall|i: int| 0 <= i < name.len() ==> (#[trigger] name[i]) != '/',
    ensures
        name_start(front + name) == front.len(),
        last_name(front + name) == name,
    decreases name.len(),
{
    let path = front + name;
    if name.len() == 0 {
        assert(path =~= front);
    } else {
        lemma_name_behind(front, name.drop_last());
        assert(path.drop_last() =~= front + name.drop_last());
        assert(path.last() == name.last());
    }
    assert(path.skip(front.len() as int) =~= name);
}

/// The names in a path without backslashes are plain.
proof fn lemma_names_clean(path: Seq<char>)
    requires
        forall|i: int| 0 <= i < path.len() ==> (#[trigger] path[i]) != '\\',
    ensures
        forall|k: int|
            0 <= k < slash_parts(path).len() && (#[trigger] slash_parts(path)[k]) is Name
                ==> plain_name(slash_parts(path)[k]->Name_0),
    decreases path.len(),
{
    lemma_name_start(path);
    let start = name_start(path) as int;
    let name = last_name(path);
    assert forall|i: int| 0 <= i < name.len() implies (#[trigger] name[i]) != '/' && name[i]
        != '\\' by {
        assert(name[i] == path[start + i]);
    }
    if start >= 2 {
        let front = path.take(start - 1);
        assert forall|i: int| 0 <= i < front.len() implies (#[trigger] front[i]) != '\\' by {
            assert(front[i] == path[i]);
        }
        lemma_names_clean(front);
        lemma_name_start(front);
        let end = step_parts(name, false);
        assert(slash_parts(path) == slash_parts(front) + end);
        assert forall|k: int|
            0 <= k < slash_parts(path).len() && (
            #[trigger] slash_parts(path)[k]) is Name implies plain_name(
            slash_parts(path)[k]->Name_0,
        ) by {
            if k < slash_parts(front).len() {
                assert(slash_parts(path)[k] == slash_parts(front)[k]);
            } else {
                assert(slash_parts(path)[k] == end[k - slash_parts(front).len()]);
            }
        }
    }
}

proof fn lemma_dot_splits(name: Seq<char>)
    ensures
        last_dot(name) matches Some(at) ==> 0 <= at < name.len(),
    decreases name.len(),
{
    if name.len() > 0 && name.last() != '.' {
        lemma_dot_splits(name.drop_last());
    }
}

/// The last dot of a name is that before an extension without dots.
proof fn lemma_dot_behind(stem: Seq<char>, extension: Seq<char>)
    requires
        forall|i: int| 0 <= i < extension.len() ==> (#[trigger] extension[i]) != '.',
    ensures
        last_dot(stem + seq!['.'] + extension) == Some(stem.len() as int),
    decreases extension.len(),
{
    let name = stem + seq!['.'] + extension;
    if extension.len() == 0 {
        assert(name.last() == '.');
    } else {
        lemma_dot_behind(stem, extension.drop_last());
        assert(name.drop_last() =~= stem + seq!['.'] + extension.drop_last());
        assert(name.last() == extension.last());
    }
}

/// The cache beside a model lies in the model's directory and has the model's name, with the
/// extension `cache`. The cache beside a cache is that cache itself. A path that ends in no name is
/// its own cache path.
pub proof fn law_cache_path(source: Seq<char>, cache: Seq<char>, again: Seq<char>)
    requires
        portable(source),
        is_extended(cache, source, "cache"@),
        is_extended(again, cache, "cache"@),
    ensures
        again == cache,
        nameless(source) ==> cache == source,
        !nameless(source) ==> {
            let name = slash_parts(source).last()->Name_0;
            let file = stem_of(name) + ".cache"@;
            &&& slash_parts(cache) == slash_parts(source).drop_last().push(PartView::Name(file))
            &&& last_name(cache) == file
            &&& stem_of(file) == stem_of(name)
            &&& tidy(source) ==> parent_of(cache) == parent_of(source)
        },
{
    if !nameless(source) {
        reveal_strlit("cache");
        reveal_strlit(".cache");
        let name = slash_parts(source).last()->Name_0;
        let stem = stem_of(name);
        let file = stem + seq!['.'] + "cache"@;
        assert(seq!['.'] + "cache"@ =~= ".cache"@);
        assert(file =~= stem + ".cache"@);
        lemma_names_clean(source);
        assert(slash_parts(source)[slash_parts(source).len() - 1] == PartView::Name(name));
        lemma_dot_splits(name);
        lemma_dot_behind(stem, "cache"@);
        assert(file.take(stem.len() as int) =~= stem);
        lemma_step_name(cache);
        lemma_name_start(cache);
        assert(cache =~= cache.take(name_start(cache) as int) + file);
        assert(with_extension_of(cache, "cache"@) =~= cache);
        if tidy(source) {
            lemma_tidy_end(source);
            lemma_cache_name(source);
            let start = name_start(source) as int;
            lemma_name_start(source);
            assert(cache.take(start) =~= source.take(start));
            if start > 1 {
                assert(cache.take(start - 1) =~= source.take(start - 1));
            }
        }
    }
}

/// A path whose last name is plain ends in that name.
proof fn lemma_step_name(path: Seq<char>)
    requires
        plain_name(last_name(path)),
    ensures
        !nameless(path),
        slash_parts(path).last() == PartView::Name(last_name(path)),
{
    lemma_name_start(path);
    let end = step_parts(last_name(path), name_start(path) == 0);
    assert(end =~= seq![PartView::Name(last_name(path))]);
    assert(slash_parts(path).last() == end[0]);
}

/// The name that a tidy path ends in.
proof fn lemma_tidy_end(path: Seq<char>)
    requires
        portable(path),
        tidy(path),
        !nameless(path),
    ensures
        plain_name(last_name(path)),
{
    lemma_name_start(path);
    lemma_names_clean(path);
    let end = step_parts(last_name(path), name_start(path) == 0);
    assert(end.len() == 1);
    assert(slash_parts(path).last() == end[0]);
}

/// The last name of a path with the extension `cache` is where it was.
proof fn lemma_cache_name(source: Seq<char>)
    requires
        plain_name(last_name(source)),
    ensures
        name_start(with_extension_of(source, "cache"@)) == name_start(source),
{
    reveal_strlit("cache");
    lemma_name_start(source);
    let front = source.take(name_start(source) as int);
    let name = last_name(source);
    lemma_dot_splits(name);
    let stem = stem_of(name);
    let file = stem + seq!['.'] + "cache"@;
    assert(with_extension_of(source, "cache"@) =~= front + file);
    assert forall|i: int| 0 <= i < file.len() implies (#[trigger] file[i]) != '/' by {
        if i < stem.len() {
            assert(file[i] == name[i]);
        }
    }
    lemma_name_behind(front, file);
}

/// The name of a cache does not start with a backslash.
proof fn lemma_cache_name_start(source: Seq<char>)
    requires
        portable(source),
    ensures
        may_stand_alone(cache_name_of(source)) ==> names_a_drive(cache_name_of(source)),
{
    reveal_strlit(".cache");
    reveal_strlit("asset");
    if !nameless(source) {
        lemma_names_clean(source);
        let name = slash_parts(source).last()->Name_0;
        assert(slash_parts(source)[slash_parts(source).len() - 1] == PartView::Name(name));
        lemma_dot_splits(name);
        assert(cache_name_of(source)[0] == name[0]);
    }
}

/// The path of a model's cache: in the directory `cache` beside the model, under the model's name. A
/// name that starts with a letter and a colon is one on a drive for some machines, and then stands
/// alone.
pub fn cache_path_for(source: &str) -> (out: String)
    ensures
        portable(source@) ==> exists|directory: Seq<char>| #[trigger]
            lies_in(source@, directory) && (is_adjoined(
                out@,
                directory,
                "cache"@,
                cache_name_of(source@),
            ) || (names_a_drive(cache_name_of(source@)) && out@ == cache_name_of(source@))),
{
    let parent = base_directory(path_parent(source));
    let name = cache_file_name(path_file_stem(source));
    let path = path_adjoin(parent.as_str(), "cache", name.as_str());
    proof {
        if portable(source@) {
            reveal_strlit("cache");
            reveal_strlit(".");
            lemma_cache_name_start(source@);
            assert(lies_in(source@, parent@));
        }
    }
    path
}

/// The path under which a file is known: its canonical one, where the file could be found.
pub open spec fn normalized(path: Seq<char>, canonical: Option<Seq<char>>) -> Seq<char> {
    match canonical {
        Some(canonical) => canonical,
        None => path,
    }
}

/// Gives the path under which a file is known.
pub fn normalize_path(path: String, canonical: Option<String>) -> (out: String)
    ensures
        out@ == normalized(path@, text_view(canonical)),
{
    match canonical {
        Some(canonical) => canonical,
        None => path,
    }
}

/// The path under which a file is known is known under itself, as long as `canonical`, what the file
/// system says of each path, stays the same and gives a canonical path back unchanged.
pub proof fn law_known_paths_stay(
    path: Seq<char>,
    canonical: spec_fn(Seq<char>) -> Option<Seq<char>>,
)
    requires
        canonical(path) matches Some(found) ==> canonical(found) == Some(found),
    ensures
        ({
            let known = normalized(path, canonical(path));
            normalized(known, canonical(known)) == known
        }),
{
}

/// Whether `path` is an address taken from a directory, or the address alone, where the machine takes
/// it so.
pub open spec fn is_candidate(path: Seq<char>, directory: Seq<char>, uri: Seq<char>) -> bool {
    is_joined(path, directory, uri) || (may_stand_alone(uri) && path == uri)
}

/// Whether each of these paths is the address at its place in `uris`, taken from a directory.
pub open spec fn all_joined(paths: Seq<String>, directory: Seq<char>, uris: Seq<String>) -> bool {
    forall|i: int|
        0 <= i < uris.len() ==> is_candidate(
            (#[trigger] paths[i])@,
            directory,
            uris[i]@,
        )
}

/// The paths of the files that a model names, in their order: each taken from the model's directory.
pub fn dependency_candidates(source: &str, uris: &[String]) -> (out: Vec<String>)
    ensures
        out@.len() == uris@.len(),
        portable(source@) ==> exists|directory: Seq<char>| #[trigger]
            lies_in(source@, directory) && all_joined(out@, directory, uris@),
{
    let base = base_directory(path_parent(source));
    let mut paths: Vec<String> = Vec::new();
    let mut i: usize = 0;
    while i < uris.len()
        invariant
            i <= uris@.len(),
            paths@.len() == i,
            portable(base@) ==> forall|k: int|
                0 <= k < i ==> is_candidate((#[trigger] paths@[k])@, base@, uris@[k]@),
        decreases uris@.len() - i,
    {
        paths.push(path_join(base.as_str(), uris[i].as_str()));
        i = i + 1;
    }
    proof {
        if portable(source@) {
            reveal_strlit(".");
            assert(lies_in(source@, base@));
        }
    }
    paths
}

/// The order of words: by their first difference, and a word before all that continue it.
pub open spec fn before(a: Seq<u16>, b: Seq<u16>) -> bool
    decreases a.len(),
{
    if b.len() == 0 {
        false
    } else if a.len() == 0 {
        true
    } else {
        a[0] < b[0] || (a[0] == b[0] && before(a.drop_first(), b.drop_first()))
    }
}

proof fn lemma_before_irreflexive(a: Seq<u16>)
    ensures
        !before(a, a),
    decreases a.len(),
{
    if a.len() > 0 {
        lemma_before_irreflexive(a.drop_first());
    }
}

proof fn lemma_before_transitive(a: Seq<u16>, b: Seq<u16>, c: Seq<u16>)
    requires
        before(a, b),
        before(b, c),
    ensures
        before(a, c),
    decreases a.len(),
{
    if a.len() > 0 && a[0] == b[0] && b[0] == c[0] {
        lemma_before_transitive(a.drop_first(), b.drop_first(), c.drop_first());
    }
}

proof fn lemma_before_total(a: Seq<u16>, b: Seq<u16>)
    ensures
        a == b || before(a, b) || before(b, a),
    decreases a.len(),
{
    if a.len() > 0 && b.len() > 0 {
        if a[0] == b[0] {
            lemma_before_total(a.drop_first(), b.drop_first());
            if a.drop_first() == b.drop_first() {
                assert(a =~= seq![a[0]] + a.drop_first());
                assert(b =~= seq![b[0]] + b.drop_first());
            }
        }
    } else if a.len() == 0 && b.len() == 0 {
        assert(a =~= b);
    }
}

/// How two words lie to each other.
#[derive(Clone, Copy, PartialEq, Eq, Structural, Debug)]
pub enum Relation {
    Before,
    Same,
    After,
}

fn relate(a: &Vec<u16>, b: &Vec<u16>) -> (out: Relation)
    ensures
        out is Before <==> before(a@, b@),
        out is Same <==> a@ == b@,
        out is After <==> before(b@, a@),
{
    let mut i: usize = 0;
    proof {
        assert(a@.skip(0) =~= a@);
        assert(b@.skip(0) =~= b@);
    }
    while i < a.len() && i < b.len()
        invariant
            i <= a@.len(),
            i <= b@.len(),
            a@.take(i as int) == b@.take(i as int),
            before(a@, b@) == before(a@.skip(i as int), b@.skip(i as int)),
            before(b@, a@) == before(b@.skip(i as int), a@.skip(i as int)),
        decreases a@.len() - i,
    {
        proof {
            assert(a@.skip(i as int).drop_first() =~= a@.skip(i + 1));
            assert(b@.skip(i as int).drop_first() =~= b@.skip(i + 1));
            lemma_before_total(a@, b@);
            lemma_before_irreflexive(a@);
        }
        if a[i] < b[i] {
            return Relation::Before;
        }
        if b[i] < a[i] {
            return Relation::After;
        }
        proof {
            assert(a@.take(i + 1) =~= a@.take(i as int).push(a@[i as int]));
            assert(b@.take(i + 1) =~= b@.take(i as int).push(b@[i as int]));
        }
        i = i + 1;
    }
    proof {
        lemma_before_irreflexive(a@);
        assert(a@.take(a@.len() as int) =~= a@);
        assert(b@.take(b@.len() as int) =~= b@);
    }
    if i < b.len() {
        Relation::Before
    } else if i < a.len() {
        Relation::After
    } else {
        Relation::Same
    }
}

/// A path with the word by which it is ordered.
pub struct KeyedPath {
    pub key: Vec<u16>,
    pub path: String,
}

/// The word for bytes: each one more than it is, so that nothing is below the end of a part.
pub open spec fn raised(bytes: Seq<u8>) -> Seq<u16> {
    Seq::new(bytes.len(), |i: int| (bytes[i] + 1) as u16)
}

/// The word for a part of a path: its sort, its text, and an end that is below all texts.
pub open spec fn part_word(part: PartView) -> Seq<u16> {
    match part {
        PartView::Prefix(text) => seq![1u16] + raised(encode_utf8(text)) + seq![0u16],
        PartView::Root => seq![2u16, 0u16],
        PartView::Current => seq![3u16, 0u16],
        PartView::Parent => seq![4u16, 0u16],
        PartView::Name(text) => seq![5u16] + raised(encode_utf8(text)) + seq![0u16],
    }
}

/// The word for a path: those of its parts, one after the other. Two paths are in the order of their
/// first differing parts, parts being ordered by their sorts and then by their texts.
pub open spec fn path_word(parts: Seq<PartView>) -> Seq<u16>
    decreases parts.len(),
{
    if parts.len() == 0 {
        Seq::empty()
    } else {
        path_word(parts.drop_last()) + part_word(parts.last())
    }
}

fn push_text(word: &mut Vec<u16>, text: &str)
    ensures
        final(word)@ == old(word)@ + raised(encode_utf8(text@)),
{
    let bytes = text.as_bytes();
    let mut i: usize = 0;
    proof {
        assert(word@ =~= old(word)@ + raised(bytes@).take(0));
    }
    while i < bytes.len()
        invariant
            i <= bytes@.len(),
            word@ == old(word)@ + raised(bytes@).take(i as int),
        decreases bytes@.len() - i,
    {
        word.push(bytes[i] as u16 + 1);
        proof {
            assert(word@ =~= old(word)@ + raised(bytes@).take(i + 1));
        }
        i = i + 1;
    }
    proof {
        assert(raised(bytes@).take(i as int) =~= raised(bytes@));
    }
}

/// The word by which a path of these parts is ordered.
pub fn key_of_parts(parts: &[PathPart]) -> (out: Vec<u16>)
    ensures
        out@ == path_word(views(parts@)),
{
    let mut word: Vec<u16> = Vec::new();
    let mut i: usize = 0;
    let ghost all = views(parts@);
    proof {
        assert(all.take(0) =~= Seq::<PartView>::empty());
    }
    while i < parts.len()
        invariant
            i <= parts@.len(),
            all == views(parts@),
            word@ == path_word(all.take(i as int)),
        decreases parts@.len() - i,
    {
        let ghost sofar = word@;
        match &parts[i] {
            PathPart::Prefix(text) => {
                word.push(1);
                push_text(&mut word, text.as_str());
            },
            PathPart::Root => word.push(2),
            PathPart::Current => word.push(3),
            PathPart::Parent => word.push(4),
            PathPart::Name(text) => {
                word.push(5);
                push_text(&mut word, text.as_str());
            },
        }
        word.push(0);
        proof {
            assert(all.take(i + 1).drop_last() =~= all.take(i as int));
            assert(all.take(i + 1).last() == parts@[i as int]@);
            assert(word@ =~= sofar + part_word(parts@[i as int]@));
        }
        i = i + 1;
    }
    proof {
        assert(all.take(i as int) =~= all);
    }
    word
}

/// The words are in order, and none comes twice.
pub open spec fn ascending(list: Seq<KeyedPath>) -> bool {
    forall|i: int, j: int|
        0 <= i < j < list.len() ==> before((#[trigger] list[i]).key@, (#[trigger] list[j]).key@)
}

/// The first entry of a list with this word is the one at `i`.
pub open spec fn first_with_key(list: Seq<KeyedPath>, key: Seq<u16>, i: int) -> bool {
    &&& 0 <= i < list.len()
    &&& list[i].key@ == key
    &&& forall|j: int| 0 <= j < i ==> (#[trigger] list[j]).key@ != key
}

/// Some entry of a list has this word.
pub open spec fn has_key(list: Seq<KeyedPath>, key: Seq<u16>) -> bool {
    exists|k: int| 0 <= k < list.len() && (#[trigger] list[k]).key@ == key
}

/// An entry is the first of its word in a list.
pub open spec fn is_first_in(list: Seq<KeyedPath>, entry: KeyedPath) -> bool {
    exists|i: int|
        #[trigger] first_with_key(list, entry.key@, i) && list[i].path@ == entry.path@
}

/// Every entry of `out` is the first of its word in `list`, and every word in `list` is in `out`.
pub open spec fn keeps_firsts(list: Seq<KeyedPath>, out: Seq<KeyedPath>) -> bool {
    &&& forall|k: int| 0 <= k < out.len() ==> is_first_in(list, #[trigger] out[k])
    &&& forall|i: int| 0 <= i < list.len() ==> has_key(out, (#[trigger] list[i]).key@)
}

/// Where a word belongs in a list that is in order, and whether it is there already.
fn find_place(list: &Vec<KeyedPath>, key: &Vec<u16>) -> (out: (usize, bool))
    requires
        ascending(list@),
    ensures
        out.0 <= list@.len(),
        forall|j: int| 0 <= j < out.0 ==> before((#[trigger] list@[j]).key@, key@),
        out.1 ==> out.0 < list@.len() && list@[out.0 as int].key@ == key@,
        !out.1 && out.0 < list@.len() ==> before(key@, list@[out.0 as int].key@),
{
    let mut p: usize = 0;
    while p < list.len()
        invariant
            p <= list@.len(),
            forall|j: int| 0 <= j < p ==> before((#[trigger] list@[j]).key@, key@),
        decreases list@.len() - p,
    {
        match relate(&list[p].key, key) {
            Relation::Before => {},
            Relation::Same => return (p, true),
            Relation::After => return (p, false),
        }
        p = p + 1;
    }
    (p, false)
}

/// Puts paths in order and leaves out those that came before.
#[verifier::rlimit(40)]
pub fn sort_paths(list: &[KeyedPath]) -> (out: Vec<KeyedPath>)
    ensures
        ascending(out@),
        keeps_firsts(list@, out@),
{
    let mut out: Vec<KeyedPath> = Vec::new();
    let mut i: usize = 0;
    while i < list.len()
        invariant
            i <= list@.len(),
            ascending(out@),
            forall|k: int| 0 <= k < out@.len() ==> is_first_in(list@, #[trigger] out@[k]),
            forall|m: int| 0 <= m < i ==> has_key(out@, (#[trigger] list@[m]).key@),
        decreases list@.len() - i,
    {
        let ghost x = list@[i as int].key@;
        let (p, found) = find_place(&out, &list[i].key);
        if !found {
            let ghost sofar = out@;
            let entry = KeyedPath {
                key: vstd::slice::slice_to_vec(list[i].key.as_slice()),
                path: list[i].path.clone(),
            };
            out.insert(p, entry);
            proof {
                lemma_inserted(list@, sofar, i as int, p as int);
                assert(out@ =~= sofar.insert(p as int, entry));
                assert forall|a: int, b: int| 0 <= a < b < out@.len() implies before(
                    (#[trigger] out@[a]).key@,
                    (#[trigger] out@[b]).key@,
                ) by {
                    let wa = if a < p {
                        a
                    } else {
                        a - 1
                    };
                    let wb = if b < p {
                        b
                    } else {
                        b - 1
                    };
                    if a != p && b != p {
                        assert(out@[a] == sofar[wa] && out@[b] == sofar[wb]);
                    } else if b == p {
                        assert(out@[a] == sofar[a]);
                    } else {
                        assert(out@[b] == sofar[b - 1]);
                        if b - 1 > p {
                            lemma_before_transitive(x, sofar[p as int].key@, sofar[b - 1].key@);
                        }
                    }
                }
                assert forall|k: int| 0 <= k < out@.len() implies is_first_in(
                    list@,
                    #[trigger] out@[k],
                ) by {
                    if k < p {
                        assert(out@[k] == sofar[k]);
                    } else if k > p {
                        assert(out@[k] == sofar[k - 1]);
                    } else {
                        assert(first_with_key(list@, out@[k].key@, i as int));
                    }
                }
                assert forall|m: int| 0 <= m < i + 1 implies has_key(
                    out@,
                    (#[trigger] list@[m]).key@,
                ) by {
                    if m == i {
                        assert(out@[p as int].key@ == list@[m].key@);
                    } else {
                        let k = choose|k: int|
                            0 <= k < sofar.len() && (#[trigger] sofar[k]).key@ == list@[m].key@;
                        let now = if k < p {
                            k
                        } else {
                            k + 1
                        };
                        assert(out@[now] == sofar[k]);
                    }
                }
            }
        } else {
            proof {
                assert(out@[p as int].key@ == list@[i as int].key@);
            }
        }
        i = i + 1;
    }
    out
}

/// An entry whose word lies between two others is the first of its word.
proof fn lemma_inserted(list: Seq<KeyedPath>, out: Seq<KeyedPath>, i: int, p: int)
    requires
        0 <= i < list.len(),
        0 <= p <= out.len(),
        ascending(out),
        forall|j: int| 0 <= j < p ==> before((#[trigger] out[j]).key@, list[i].key@),
        p < out.len() ==> before(list[i].key@, out[p].key@),
        forall|m: int| 0 <= m < i ==> has_key(out, (#[trigger] list[m]).key@),
    ensures
        first_with_key(list, list[i].key@, i),
{
    let x = list[i].key@;
    assert forall|j: int| 0 <= j < i implies (#[trigger] list[j]).key@ != x by {
        let k = choose|k: int| 0 <= k < out.len() && (#[trigger] out[k]).key@ == list[j].key@;
        lemma_before_irreflexive(x);
        if k > p {
            lemma_before_transitive(x, out[p].key@, out[k].key@);
        }
    }
}

/// A path has the word of its parts, where they are known.
pub open spec fn keyed(entry: KeyedPath) -> bool {
    portable(entry.path@) ==> entry.key@ == path_word(slash_parts(entry.path@))
}

/// A path with its word.
fn with_key(path: &str) -> (out: KeyedPath)
    ensures
        out.path@ == path@,
        keyed(out),
{
    KeyedPath { key: key_of_parts(&path_parts(path)), path: String::from_str(path) }
}

/// The paths of all files that a model is made from, in order and each once: the model itself and
/// those that it names.
pub fn find_gltf_dependencies(source: &str, named: &[String]) -> (out: Vec<KeyedPath>)
    ensures
        ascending(out@),
        forall|k: int| 0 <= k < out@.len() ==> keyed(#[trigger] out@[k]),
        exists|list: Seq<KeyedPath>|
            {
                &&& #[trigger] keeps_firsts(list, out@)
                &&& list.len() == named@.len() + 1
                &&& list[0].path@ == source@
                &&& forall|i: int|
                    0 <= i < named@.len() ==> list[i + 1].path@ == (#[trigger] named@[i])@
                &&& forall|i: int| 0 <= i < list.len() ==> keyed(#[trigger] list[i])
            },
{
    let mut list: Vec<KeyedPath> = Vec::new();
    list.push(with_key(source));
    let mut i: usize = 0;
    while i < named.len()
        invariant
            i <= named@.len(),
            list@.len() == i + 1,
            list@[0].path@ == source@,
            forall|k: int| 0 <= k < i ==> list@[k + 1].path@ == (#[trigger] named@[k])@,
            forall|k: int| 0 <= k < list@.len() ==> keyed(#[trigger] list@[k]),
        decreases named@.len() - i,
    {
        list.push(with_key(named[i].as_str()));
        i = i + 1;
    }
    let out = sort_paths(&list);
    proof {
        assert(keeps_firsts(list@, out@));
        assert forall|k: int| 0 <= k < out@.len() implies keyed(#[trigger] out@[k]) by {
            let i = choose|i: int|
                #[trigger] first_with_key(list@, out@[k].key@, i) && list@[i].path@
                    == out@[k].path@;
            assert(keyed(list@[i]));
        }
    }
    out
}

/// Whether a part stands before another by its sort: what a path starts with before the root, the root
/// before the directory itself, that before the one above, and names last.
pub open spec fn sorts_before(a: PartView, b: PartView) -> bool {
    match a {
        PartView::Prefix(_) => !(b is Prefix),
        PartView::Root => b is Current || b is Parent || b is Name,
        PartView::Current => b is Parent || b is Name,
        PartView::Parent => b is Name,
        PartView::Name(_) => false,
    }
}

/// Whether bytes are the same up to a place at which the first are over or lower.
pub open spec fn lower_at(a: Seq<u8>, b: Seq<u8>, k: int) -> bool {
    &&& 0 <= k <= a.len()
    &&& k < b.len()
    &&& a.take(k) == b.take(k)
    &&& k == a.len() || a[k] < b[k]
}

proof fn lemma_word_splits(front: Seq<PartView>, back: Seq<PartView>)
    ensures
        path_word(front + back) == path_word(front) + path_word(back),
    decreases back.len(),
{
    if back.len() == 0 {
        assert(front + back =~= front);
        assert(path_word(front) + Seq::<u16>::empty() =~= path_word(front));
    } else {
        lemma_word_splits(front, back.drop_last());
        assert((front + back).drop_last() =~= front + back.drop_last());
        assert((front + back).last() == back.last());
        assert(path_word(front) + path_word(back.drop_last()) + part_word(back.last())
            =~= path_word(front) + (path_word(back.drop_last()) + part_word(back.last())));
    }
}

/// What two words have in common in front does not count.
proof fn lemma_common_front(front: Seq<u16>, a: Seq<u16>, b: Seq<u16>)
    ensures
        before(front + a, front + b) == before(a, b),
    decreases front.len(),
{
    if front.len() == 0 {
        assert(front + a =~= a);
        assert(front + b =~= b);
    } else {
        lemma_common_front(front.drop_first(), a, b);
        assert((front + a).drop_first() =~= front.drop_first() + a);
        assert((front + b).drop_first() =~= front.drop_first() + b);
    }
}

/// The end of a text is below all that continues it.
proof fn lemma_lower_bytes(a: Seq<u8>, b: Seq<u8>, k: int, sort: u16, ra: Seq<u16>, rb: Seq<u16>)
    requires
        lower_at(a, b, k),
    ensures
        before(
            seq![sort] + raised(a) + seq![0u16] + ra,
            seq![sort] + raised(b) + seq![0u16] + rb,
        ),
{
    let front = seq![sort] + raised(a.take(k));
    let ea = raised(a.skip(k)) + seq![0u16] + ra;
    let eb = raised(b.skip(k)) + seq![0u16] + rb;
    assert(a.take(k) == b.take(k));
    assert forall|i: int| 0 <= i < k implies a[i] == b[i] by {
        assert(a.take(k)[i] == b.take(k)[i]);
    }
    assert(seq![sort] + raised(a) + seq![0u16] + ra =~= front + ea);
    assert(seq![sort] + raised(b) + seq![0u16] + rb =~= front + eb);
    lemma_common_front(front, ea, eb);
    assert(eb[0] == b[k] + 1);
    if k == a.len() {
        assert(ea[0] == 0);
    } else {
        assert(ea[0] == a[k] + 1);
    }
}

/// Paths are in the order of their first differing parts, whatever follows these: by the sorts of the parts,
/// and where both are names, or both something that a path starts with, by the bytes of their texts at the
/// first place `k` at which these differ. A path stands before all that continue it.
pub proof fn law_paths_go_by_their_first_differing_parts(
    front: Seq<PartView>,
    a: PartView,
    after_a: Seq<PartView>,
    b: PartView,
    after_b: Seq<PartView>,
    k: int,
)
    ensures
        before(path_word(front), path_word(front.push(a) + after_a)),
        sorts_before(a, b) ==> before(
            path_word(front.push(a) + after_a),
            path_word(front.push(b) + after_b),
        ),
        a matches PartView::Name(x) ==> (b matches PartView::Name(y) ==> (lower_at(
            encode_utf8(x),
            encode_utf8(y),
            k,
        ) ==> before(path_word(front.push(a) + after_a), path_word(front.push(b) + after_b)))),
        a matches PartView::Prefix(x) ==> (b matches PartView::Prefix(y) ==> (lower_at(
            encode_utf8(x),
            encode_utf8(y),
            k,
        ) ==> before(path_word(front.push(a) + after_a), path_word(front.push(b) + after_b)))),
{
    let word = path_word(front);
    let ea = part_word(a) + path_word(after_a);
    let eb = part_word(b) + path_word(after_b);
    lemma_word_splits(front.push(a), after_a);
    lemma_word_splits(front.push(b), after_b);
    assert(front.push(a).drop_last() =~= front);
    assert(front.push(b).drop_last() =~= front);
    assert(path_word(front.push(a) + after_a) =~= word + ea);
    assert(path_word(front.push(b) + after_b) =~= word + eb);
    lemma_common_front(word, ea, eb);
    lemma_common_front(word, Seq::empty(), ea);
    assert(word + Seq::<u16>::empty() =~= word);
    assert(ea[0] == part_word(a)[0]);
    assert(eb[0] == part_word(b)[0]);
    if let PartView::Name(x) = a {
        if let PartView::Name(y) = b {
            if lower_at(encode_utf8(x), encode_utf8(y), k) {
                lemma_lower_bytes(
                    encode_utf8(x),
                    encode_utf8(y),
                    k,
                    part_word(a)[0],
                    path_word(after_a),
                    path_word(after_b),
                );
            }
        }
    }
    if let PartView::Prefix(x) = a {
        if let PartView::Prefix(y) = b {
            if lower_at(encode_utf8(x), encode_utf8(y), k) {
                lemma_lower_bytes(
                    encode_utf8(x),
                    encode_utf8(y),
                    k,
                    part_word(a)[0],
                    path_word(after_a),
                    path_word(after_b),
                );
            }
        }
    }
}

/// The order of words is one: no word stands before itself, of two different words one stands before the
/// other, and what stands before a word stands before all that this one does.
pub proof fn law_words_are_in_order(a: Seq<u16>, b: Seq<u16>, c: Seq<u16>)
    ensures
        !before(a, a),
        a != b ==> before(a, b) || before(b, a),
        before(a, b) && before(b, c) ==> before(a, c),
{
    lemma_before_irreflexive(a);
    lemma_before_total(a, b);
    if before(a, b) && before(b, c) {
        lemma_before_transitive(a, b, c);
    }
}

/// In a sorted list nothing comes twice, and nothing is made up: each entry is in the list that was sorted,
/// and the first there with its word. No word of that list is missing.
pub proof fn law_sorted_paths_are_the_paths(
    list: Seq<KeyedPath>,
    out: Seq<KeyedPath>,
    k: int,
    l: int,
)
    requires
        ascending(out),
        keeps_firsts(list, out),
    ensures
        0 <= k < out.len() ==> exists|i: int|
            {
                &&& 0 <= i < list.len()
                &&& (#[trigger] list[i]).key@ == out[k].key@
                &&& list[i].path@ == out[k].path@
                &&& forall|j: int| 0 <= j < i ==> (#[trigger] list[j]).key@ != out[k].key@
            },
        0 <= l < list.len() ==> exists|i: int|
            0 <= i < out.len() && (#[trigger] out[i]).key@ == list[l].key@,
        0 <= k < l < out.len() ==> out[k].key@ != out[l].key@,
{
    if 0 <= k < out.len() {
        assert(is_first_in(list, out[k]));
        let i = choose|i: int|
            #[trigger] first_with_key(list, out[k].key@, i) && list[i].path@ == out[k].path@;
        assert(list[i].key@ == out[k].key@);
    }
    if 0 <= l < list.len() {
        assert(has_key(out, list[l].key@));
    }
    if 0 <= k < l < out.len() {
        assert(before(out[k].key@, out[l].key@));
        lemma_before_irreflexive(out[k].key@);
    }
}

/// A file is known under its canonical path where it has one, and under the given path otherwise.
pub proof fn law_canonical_paths_count(path: Seq<char>, canonical: Option<Seq<char>>)
    ensures
        canonical is Some ==> Some(normalized(path, canonical)) == canonical,
        canonical is None ==> normalized(path, canonical) == path,
{
}

/// The last dot of a name is a dot, and no other follows it; a name without its extension ends where its
/// last dot was, unless that stands in front.
pub proof fn law_stems_end_at_the_last_dot(name: Seq<char>)
    ensures
        match last_dot(name) {
            Some(at) => {
                &&& 0 <= at < name.len()
                &&& name[at] == '.'
                &&& forall|i: int| at < i < name.len() ==> #[trigger] name[i] != '.'
                &&& at > 0 ==> stem_of(name) == name.take(at)
                &&& at == 0 ==> stem_of(name) == name
            },
            None => {
                &&& forall|i: int| 0 <= i < name.len() ==> #[trigger] name[i] != '.'
                &&& stem_of(name) == name
            },
        },
    decreases name.len(),
{
    if name.len() > 0 && name.last() != '.' {
        let front = name.drop_last();
        law_stems_end_at_the_last_dot(front);
        assert forall|i: int| 0 <= i < front.len() implies front[i] == #[trigger] name[i] by {}
    }
}

/// The last name of a path is what follows its last slash, and the parent what stands in front of that; the
/// root keeps its slash.
pub proof fn law_last_names_follow_the_last_slash(path: Seq<char>)
    ensures
        path == path.take(name_start(path) as int) + last_name(path),
        forall|i: int| 0 <= i < last_name(path).len() ==> #[trigger] last_name(path)[i] != '/',
        name_start(path) == 0 ==> parent_of(path) == Seq::<char>::empty(),
        name_start(path) == 1 ==> parent_of(path) == seq!['/'],
        name_start(path) > 1 ==> path == parent_of(path) + seq!['/'] + last_name(path),
{
    lemma_name_start(path);
    let start = name_start(path) as int;
    assert(path =~= path.take(start) + last_name(path));
    assert forall|i: int| 0 <= i < last_name(path).len() implies #[trigger] last_name(path)[i]
        != '/' by {
        assert(last_name(path)[i] == path[start + i]);
    }
    if start == 0 {
        assert(parent_of(path) =~= Seq::<char>::empty());
    } else if start == 1 {
        assert(parent_of(path) =~= seq!['/']);
    } else {
        assert(path =~= parent_of(path) + seq!['/'] + last_name(path));
    }
}

/// A cache is named after the name that its model's path ends in, without the extension of that, and
/// `asset.cache` where the path ends in none.
pub proof fn law_caches_are_named_after_their_models(source: Seq<char>)
    ensures
        nameless(source) ==> cache_name_of(source) == "asset.cache"@,
        slash_parts(source).len() > 0 ==> (slash_parts(source).last() matches PartView::Name(name)
            ==> cache_name_of(source) == stem_of(name) + ".cache"@),
{
    reveal_strlit("asset");
    reveal_strlit(".cache");
    reveal_strlit("asset.cache");
    assert("asset"@ + ".cache"@ =~= "asset.cache"@);
}

} // verus!
