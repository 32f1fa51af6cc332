//! What the platform's path rules make of a path given as text.
use vstd::prelude::*;

verus! {

/// A text that every platform reads as one plain file name: not empty,
/// without a slash, a backslash or a colon (no separator, no drive prefix),
/// and neither `.` nor `..`.
pub open spec fn plain_file_name(text: Seq<char>) -> bool {
    &&& text.len() > 0
    &&& forall|i: int| 0 <= i < text.len() ==> #[trigger] text[i] != '/' && text[i] != '\\' && text[i] != ':'
    &&& text != seq!['.']
    &&& text != seq!['.', '.']
}

/// The pieces of a text between its `/` characters, in order: one more
/// piece than there are slashes, some of them empty where slashes meet or
/// the text begins or ends with one.
pub open spec fn slash_names(text: Seq<char>) -> Seq<Seq<char>>
    decreases text.len(),
{
    if text.len() == 0 {
        seq![Seq::empty()]
    } else if text.last() == '/' {
        slash_names(text.drop_last()).push(Seq::empty())
    } else {
        let names = slash_names(text.drop_last());
        names.update(names.len() - 1, names.last().push(text.last()))
    }
}

/// A relative path that every platform splits alike: plain file names
/// joined by `/`, which std treats as a separator on every platform.
pub open spec fn folder_path(text: Seq<char>) -> bool {
    forall|i: int| 0 <= i < slash_names(text).len() ==> plain_file_name(#[trigger] slash_names(text)[i])
}

/// The last name of a path: what follows its last `/`.
pub open spec fn last_name(text: Seq<char>) -> Seq<char> {
    slash_names(text).last()
}

/// The components of a folder path: one normal component per name.
pub open spec fn folder_parts(text: Seq<char>) -> Seq<PathPart> {
    Seq::new(slash_names(text).len(), |i: int| PathPart::Normal)
}

/// A text has at least one piece, and a text without `/` is its own only
/// piece.
pub proof fn lemma_slash_names(text: Seq<char>)
    ensures
        slash_names(text).len() >= 1,
        (forall|i: int| 0 <= i < text.len() ==> #[trigger] text[i] != '/') ==> slash_names(text)
            == seq![text],
    decreases text.len(),
{
    if text.len() > 0 {
        lemma_slash_names(text.drop_last());
        if forall|i: int| 0 <= i < text.len() ==> #[trigger] text[i] != '/' {
            assert(text.last() == text[text.len() - 1]);
            assert forall|i: int| 0 <= i < text.drop_last().len() implies #[trigger] text.drop_last()[i]
                != '/' by {
                assert(text.drop_last()[i] == text[i]);
            }
            assert(text.drop_last().push(text.last()) =~= text);
        }
    } else {
        assert(text =~= Seq::<char>::empty());
    }
}

/// A plain file name is a folder path of one name, itself.
pub proof fn lemma_plain_name_is_folder_path(text: Seq<char>)
    requires
        plain_file_name(text),
    ensures
        folder_path(text),
        slash_names(text) == seq![text],
        last_name(text) == text,
        folder_parts(text) == seq![PathPart::Normal],
{
    lemma_slash_names(text);
    assert(folder_parts(text) =~= seq![PathPart::Normal]);
}

/// The position of the last `.` of a file name, or -1.
pub open spec fn last_dot(name: Seq<char>) -> int
    decreases name.len(),
{
    if name.len() == 0 {
        -1
    } else if name.last() == '.' {
        name.len() - 1
    } else {
        last_dot(name.drop_last())
    }
}

/// The extension of a file name, as `Path::extension` documents it: none
/// without an embedded `.` or where the only `.` begins the name; else what
/// follows the last `.`.
pub open spec fn name_extension(name: Seq<char>) -> Option<Seq<char>> {
    if last_dot(name) <= 0 {
        None
    } else {
        Some(name.skip(last_dot(name) + 1))
    }
}

/// The stem of a file name, as `Path::file_stem` documents it: the whole
/// name without an embedded `.` or where the only `.` begins the name; else
/// what comes before the last `.`.
pub open spec fn name_stem(name: Seq<char>) -> Seq<char> {
    if last_dot(name) <= 0 {
        name
    } else {
        name.take(last_dot(name))
    }
}

/// A text that may be absent, by its characters.
pub open spec fn text_of(value: Option<String>) -> Option<Seq<char>> {
    match value {
        Some(text) => Some(text@),
        None => None,
    }
}

/// The kind of one component of a path.
#[derive(Debug, Clone, Copy, PartialEq, Eq)]
pub enum PathPart {
    Prefix,
    RootDir,
    CurDir,
    ParentDir,
    Normal,
}

/// `Path::is_absolute` (std) of the path that the text spells. What counts as
/// absolute depends on the platform; on every platform plain file names
/// joined by `/`, which have no root and no prefix, are not absolute, and
/// nothing more is stated.
#[verifier::external_body]
pub(crate) fn path_is_absolute(path: &str) -> (absolute: bool)
    ensures
        plain_file_name(path@) ==> !absolute,
        folder_path(path@) ==> !absolute,
{
    std::path::Path::new(path).is_absolute()
}

/// The kinds of the components that `Path::components` (std) yields for the
/// path. How a path splits depends on the platform; on every platform plain
/// file names joined by `/` are one normal component each, and nothing more
/// is stated.
#[verifier::external_body]
pub(crate) fn path_parts(path: &str) -> (parts: Vec<PathPart>)
    ensures
        plain_file_name(path@) ==> parts@ == seq![PathPart::Normal],
        folder_path(path@) ==> parts@ == folder_parts(path@),
{
    std::path::Path::new(path).components().map(
        |component| match component {
            std::path::Component::Prefix(_) => PathPart::Prefix,
            std::path::Component::RootDir => PathPart::RootDir,
            std::path::Component::CurDir => PathPart::CurDir,
            std::path::Component::ParentDir => PathPart::ParentDir,
            std::path::Component::Normal(_) => PathPart::Normal,
        },
    ).collect()
}

/// `Path::extension` (std) of the path, where it is valid UTF-8. The file name
/// it is taken from depends on the platform's separators; for plain file
/// names joined by `/` it is the last name on every platform, and the result
/// is that name's extension as `Path::extension` documents it; nothing more
/// is stated.
#[verifier::external_body]
pub(crate) fn path_extension(path: &str) -> (extension: Option<String>)
    ensures
        plain_file_name(path@) ==> text_of(extension) == name_extension(path@),
        folder_path(path@) ==> text_of(extension) == name_extension(last_name(path@)),
{
    std::path::Path::new(path).extension().and_then(|value| value.to_str()).map(|value| value.to_owned())
}

/// `Path::file_stem` (std) of the path, where it is valid UTF-8. The file name
/// it is taken from depends on the platform's separators; for plain file
/// names joined by `/` it is the last name, and the result is that name's
/// stem as `Path::file_stem` documents it; nothing more is stated.
#[verifier::external_body]
pub(crate) fn path_file_stem(path: &str) -> (stem: Option<String>)
    ensures
        plain_file_name(path@) ==> text_of(stem) == Some(name_stem(path@)),
        folder_path(path@) ==> text_of(stem) == Some(name_stem(last_name(path@))),
{
    std::path::Path::new(path).file_stem().and_then(|value| value.to_str()).map(|value| value.to_owned())
}

/// `Path::file_name` (std) of the path, where it is valid UTF-8. Which part is
/// the file name depends on the platform's separators; for plain file names
/// joined by `/` it is the last name on every platform (a plain file name is
/// its own file name), and nothing more is stated.
#[verifier::external_body]
pub(crate) fn path_file_name(path: &str) -> (name: Option<String>)
    ensures
        plain_file_name(path@) ==> text_of(name) == Some(path@),
        folder_path(path@) ==> text_of(name) == Some(last_name(path@)),
{
    std::path::Path::new(path).file_name().and_then(|value| value.to_str()).map(|value| value.to_owned())
}

} // verus!
