//! Build and launch profiles, and the standard palette of placeable objects.
use crate::error::EditError;
use crate::paths::{
    folder_path, name_extension, path_extension, path_file_name, path_parts, plain_file_name, slash_names,
    text_of,
};
use crate::resource::{all_ascii, ascii_chars, ascii_string, text_bytes};
use crate::text::{
    bytes_end_with_ignoring_ascii_case, bytes_equal_ignoring_ascii_case,
    ends_with_ignoring_ascii_case, equal_ignoring_ascii_case, is_blank, is_blank_text,
};
use vstd::prelude::*;
use vstd::std_specs::iter::IteratorSpec;

verus! {

/// How a module is built: its output file, the HAK files and custom TLK it
/// depends on, and what happens on warnings.
#[derive(Debug, Clone, PartialEq, Eq)]
pub struct ModuleBuildProfile {
    pub name: String,
    pub output_name: String,
    pub block_on_warnings: bool,
    pub deploy_development: bool,
    pub hak_files: Vec<String>,
    pub custom_tlk: Option<String>,
}

/// Which game executable a launch profile starts.
#[derive(Debug, Clone, Copy, PartialEq, Eq)]
pub enum NwnLaunchMode {
    Client,
    Server,
}

/// How the game is started for testing a module.
#[derive(Debug, Clone, PartialEq, Eq)]
pub struct NwnLaunchProfile {
    pub name: String,
    pub mode: NwnLaunchMode,
    pub executable_path: String,
    pub working_directory: String,
    pub arguments: Vec<String>,
}

/// A dependency file name that the editor accepts: not empty, a single path
/// component, and an extension (if any) equal to `extension` ignoring ASCII case.
pub open spec fn dependency_name_ok(
    value: Seq<char>,
    component_count: int,
    found_extension: Option<Seq<char>>,
    extension: Seq<char>,
) -> bool {
    &&& value.len() > 0
    &&& component_count == 1
    &&& match found_extension {
        Some(found) => equal_ignoring_ascii_case(text_bytes(found), text_bytes(extension)),
        None => true,
    }
}

/// Checks a dependency name from what the platform makes of it: how many path
/// components it has and its extension.
pub fn check_dependency_name(
    value: &str,
    component_count: usize,
    found_extension: Option<&str>,
    extension: &str,
) -> (result: Result<(), EditError>)
    ensures
        result is Ok == dependency_name_ok(
            value@,
            component_count as int,
            match found_extension {
                Some(found) => Some(found@),
                None => None,
            },
            extension@,
        ),
        result matches Err(error) ==> error == EditError::DependencyNameInvalid,
{
    let mismatched = match found_extension {
        Some(found) => !bytes_equal_ignoring_ascii_case(found.as_bytes(), extension.as_bytes()),
        None => false,
    };
    if value.is_empty() || component_count != 1 || mismatched {
        return Err(EditError::DependencyNameInvalid);
    }
    Ok(())
}

/// Checks the name of a HAK or TLK dependency: a single file name whose
/// extension, if it has one, is `extension`.
pub fn validate_dependency_name(value: &str, extension: &str) -> (result: Result<(), EditError>)
    ensures
        plain_file_name(value@) ==> (result is Ok == dependency_name_ok(
            value@,
            1,
            name_extension(value@),
            extension@,
        )),
        folder_path(value@) && slash_names(value@).len() > 1 ==> result is Err,
        result is Ok ==> value@.len() > 0,
        value@.len() == 0 ==> result is Err,
        result matches Err(error) ==> error == EditError::DependencyNameInvalid,
{
    let parts = path_parts(value);
    let found = path_extension(value);
    let found_text: Option<&str> = match &found {
        Some(text) => Some(text.as_str()),
        None => None,
    };
    let result = check_dependency_name(value, parts.len(), found_text, extension);
    proof {
        if plain_file_name(value@) {
            let seen = match found_text {
                Some(text) => Some(text@),
                None => None,
            };
            assert(seen == text_of(found));
        }
    }
    result
}

/// The rules on a profile that do not depend on the platform: a non-blank name
/// of at most 80 bytes and an output name ending in `.mod` (any case).
pub open spec fn build_profile_fields_ok(profile: ModuleBuildProfile) -> bool {
    &&& !is_blank_text(profile.name@)
    &&& text_bytes(profile.name@).len() <= 80
    &&& ends_with_ignoring_ascii_case(text_bytes(profile.output_name@), text_bytes(".mod"@))
}

/// What the platform makes of a dependency's file name: how many path
/// components it has, and its extension.
#[derive(Debug, Clone, PartialEq, Eq)]
pub struct DependencyPath {
    pub component_count: usize,
    pub extension: Option<String>,
}

/// What the platform makes of a build profile's file names: how many path
/// components the output name has, and each dependency's answer.
#[derive(Debug, Clone, PartialEq, Eq)]
pub struct BuildProfilePaths {
    pub output_component_count: usize,
    pub hak_files: Vec<DependencyPath>,
    pub custom_tlk: Option<DependencyPath>,
}

pub open spec fn opt_string_view(value: Option<String>) -> Option<Seq<char>> {
    match value {
        Some(text) => Some(text@),
        None => None,
    }
}

/// A dependency name that the editor accepts, from the platform's answer.
pub open spec fn dependency_path_ok(value: Seq<char>, path: DependencyPath, extension: Seq<char>) -> bool {
    dependency_name_ok(value, path.component_count as int, opt_string_view(path.extension), extension)
}

/// The answers are those for this profile: one per HAK file, one for the TLK
/// where it has one.
pub open spec fn paths_for(profile: ModuleBuildProfile, paths: BuildProfilePaths) -> bool {
    &&& paths.hak_files@.len() == profile.hak_files@.len()
    &&& (paths.custom_tlk is Some) == (profile.custom_tlk is Some)
}

/// The platform's answer on a dependency name agrees with what every
/// platform makes of a plain file name: one component, and the documented
/// extension.
pub open spec fn dependency_answer_agrees(value: Seq<char>, path: DependencyPath) -> bool {
    plain_file_name(value) ==> path.component_count == 1 && opt_string_view(path.extension)
        == name_extension(value)
}

/// The platform's answers on a profile's file names agree with what every
/// platform makes of its plain file names.
pub open spec fn answers_agree(profile: ModuleBuildProfile, paths: BuildProfilePaths) -> bool {
    &&& plain_file_name(profile.output_name@) ==> paths.output_component_count == 1
    &&& forall|i: int|
        0 <= i < profile.hak_files@.len() && i < paths.hak_files@.len() ==> dependency_answer_agrees(
            (#[trigger] profile.hak_files@[i])@,
            paths.hak_files@[i],
        )
    &&& match profile.custom_tlk {
        Some(tlk) => match paths.custom_tlk {
            Some(path) => dependency_answer_agrees(tlk@, path),
            None => true,
        },
        None => true,
    }
}

/// The verdict on a build profile, given the platform's answers on its file
/// names: its name and single-component `.mod` output first, then its HAK
/// files in order, then its TLK.
pub open spec fn spec_check_build_profile(profile: ModuleBuildProfile, paths: BuildProfilePaths) -> Result<
    (),
    EditError,
> {
    if !build_profile_fields_ok(profile) || paths.output_component_count != 1 {
        Err(EditError::BuildProfileInvalid)
    } else if !(forall|i: int|
        0 <= i < profile.hak_files@.len() ==> dependency_path_ok(
            (#[trigger] profile.hak_files@[i])@,
            paths.hak_files@[i],
            "hak"@,
        )) {
        Err(EditError::DependencyNameInvalid)
    } else {
        match profile.custom_tlk {
            Some(tlk) => match paths.custom_tlk {
                Some(path) => if dependency_path_ok(tlk@, path, "tlk"@) {
                    Ok(())
                } else {
                    Err(EditError::DependencyNameInvalid)
                },
                None => Ok(()),
            },
            None => Ok(()),
        }
    }
}

fn opt_text(value: &Option<String>) -> (borrowed: Option<&str>)
    ensures
        match borrowed {
            Some(text) => value is Some && text@ == value->0@,
            None => value is None,
        },
{
    match value {
        Some(text) => Some(text.as_str()),
        None => None,
    }
}

fn check_dependency_path(value: &str, path: &DependencyPath, extension: &str) -> (result: Result<(), EditError>)
    ensures
        result is Ok == dependency_path_ok(value@, *path, extension@),
        result matches Err(error) ==> error == EditError::DependencyNameInvalid,
{
    check_dependency_name(value, path.component_count, opt_text(&path.extension), extension)
}

/// Checks a build profile from the platform's answers on its file names.
pub fn check_build_profile(profile: &ModuleBuildProfile, paths: &BuildProfilePaths) -> (result: Result<
    (),
    EditError,
>)
    requires
        paths_for(*profile, *paths),
    ensures
        result == spec_check_build_profile(*profile, *paths),
{
    if is_blank(profile.name.as_str()) || profile.name.as_str().as_bytes().len() > 80
        || paths.output_component_count != 1 || !bytes_end_with_ignoring_ascii_case(
        profile.output_name.as_str().as_bytes(),
        ".mod".as_bytes(),
    ) {
        return Err(EditError::BuildProfileInvalid);
    }
    let mut index: usize = 0;
    while index < profile.hak_files.len()
        invariant
            paths_for(*profile, *paths),
            build_profile_fields_ok(*profile),
            paths.output_component_count == 1,
            index <= profile.hak_files@.len(),
            forall|i: int|
                0 <= i < index ==> dependency_path_ok(
                    (#[trigger] profile.hak_files@[i])@,
                    paths.hak_files@[i],
                    "hak"@,
                ),
        decreases profile.hak_files@.len() - index,
    {
        if check_dependency_path(profile.hak_files[index].as_str(), &paths.hak_files[index], "hak").is_err() {
            assert(!dependency_path_ok(profile.hak_files@[index as int]@, paths.hak_files@[index as int], "hak"@));
            return Err(EditError::DependencyNameInvalid);
        }
        index += 1;
    }
    match &profile.custom_tlk {
        Some(tlk) => match &paths.custom_tlk {
            Some(path) => {
                if check_dependency_path(tlk.as_str(), path, "tlk").is_ok() {
                    Ok(())
                } else {
                    Err(EditError::DependencyNameInvalid)
                }
            },
            None => Ok(()),
        },
        None => Ok(()),
    }
}

fn dependency_path(value: &str) -> (path: DependencyPath)
    ensures
        dependency_answer_agrees(value@, path),
{
    let path = DependencyPath { component_count: path_parts(value).len(), extension: path_extension(value) };
    assert(opt_string_view(path.extension) == text_of(path.extension));
    path
}

/// The platform's answers on a build profile's file names.
pub fn build_profile_paths(profile: &ModuleBuildProfile) -> (paths: BuildProfilePaths)
    ensures
        paths_for(*profile, paths),
        answers_agree(*profile, paths),
{
    let mut hak_files: Vec<DependencyPath> = Vec::new();
    let mut index: usize = 0;
    while index < profile.hak_files.len()
        invariant
            index <= profile.hak_files@.len(),
            hak_files@.len() == index,
            forall|i: int|
                0 <= i < index ==> dependency_answer_agrees(
                    (#[trigger] profile.hak_files@[i])@,
                    hak_files@[i],
                ),
        decreases profile.hak_files@.len() - index,
    {
        hak_files.push(dependency_path(profile.hak_files[index].as_str()));
        index += 1;
    }
    let custom_tlk = match &profile.custom_tlk {
        Some(tlk) => Some(dependency_path(tlk.as_str())),
        None => None,
    };
    BuildProfilePaths {
        output_component_count: path_parts(profile.output_name.as_str()).len(),
        hak_files,
        custom_tlk,
    }
}

/// An accepted build profile has a non-blank name, a `.mod` output and
/// non-empty dependency names.
pub proof fn lemma_checked_build_profile(profile: ModuleBuildProfile, paths: BuildProfilePaths)
    requires
        paths_for(profile, paths),
    ensures
        !build_profile_fields_ok(profile) ==> spec_check_build_profile(profile, paths) == Err::<
            (),
            EditError,
        >(EditError::BuildProfileInvalid),
        spec_check_build_profile(profile, paths) is Ok ==> build_profile_fields_ok(profile) && (forall|i: int|
            0 <= i < profile.hak_files@.len() ==> (#[trigger] profile.hak_files@[i])@.len() > 0)
            && (profile.custom_tlk matches Some(tlk) ==> tlk@.len() > 0),
        spec_check_build_profile(profile, paths) matches Err(error) ==> error
            == EditError::BuildProfileInvalid || error == EditError::DependencyNameInvalid,
{
    if spec_check_build_profile(profile, paths) is Ok {
        assert forall|i: int| 0 <= i < profile.hak_files@.len() implies (#[trigger] profile.hak_files@[i])@.len() > 0 by {
            assert(dependency_path_ok(profile.hak_files@[i]@, paths.hak_files@[i], "hak"@));
        }
    }
}

/// Checks a build profile: its name, its output file name (a single `.mod`
/// file name), its HAK files and its custom TLK. How a name splits into path
/// components and extension is the platform's; the verdict that follows is
/// `check_build_profile`'s.
pub fn validate_build_profile(profile: &ModuleBuildProfile) -> (result: Result<(), EditError>)
    ensures
        exists|paths: BuildProfilePaths|
            #![trigger spec_check_build_profile(*profile, paths)]
            paths_for(*profile, paths) && answers_agree(*profile, paths) && result
                == spec_check_build_profile(*profile, paths),
        !build_profile_fields_ok(*profile) ==> result == Err::<(), EditError>(
            EditError::BuildProfileInvalid,
        ),
        result is Ok ==> build_profile_fields_ok(*profile) && (forall|i: int|
            0 <= i < profile.hak_files@.len() ==> (#[trigger] profile.hak_files@[i])@.len() > 0)
            && (profile.custom_tlk matches Some(tlk) ==> tlk@.len() > 0),
        result matches Err(error) ==> error == EditError::BuildProfileInvalid || error
            == EditError::DependencyNameInvalid,
{
    let paths = build_profile_paths(profile);
    let result = check_build_profile(profile, &paths);
    proof {
        lemma_checked_build_profile(*profile, paths);
    }
    result
}

/// The file name of the executable that a launch mode starts.
pub open spec fn spec_launch_executable(mode: NwnLaunchMode) -> Seq<char> {
    match mode {
        NwnLaunchMode::Client => "nwmain.exe"@,
        NwnLaunchMode::Server => "nwserver.exe"@,
    }
}

pub fn launch_executable(mode: NwnLaunchMode) -> (name: &'static str)
    ensures
        name@ == spec_launch_executable(mode),
{
    match mode {
        NwnLaunchMode::Client => "nwmain.exe",
        NwnLaunchMode::Server => "nwserver.exe",
    }
}

/// An argument the game may receive: at most 4096 bytes and no NUL byte.
pub open spec fn launch_argument_ok(argument: Seq<char>) -> bool {
    let bytes = text_bytes(argument);
    &&& bytes.len() <= 4096
    &&& forall|i: int| 0 <= i < bytes.len() ==> #[trigger] bytes[i] != 0
}

/// A launch profile that the editor accepts, given what the file system says
/// of its paths and what the platform makes of the executable's file name.
pub open spec fn launch_profile_ok(
    profile: NwnLaunchProfile,
    executable_is_file: bool,
    executable_name: Option<Seq<char>>,
    working_directory_is_dir: bool,
) -> bool {
    &&& !is_blank_text(profile.name@)
    &&& text_bytes(profile.name@).len() <= 80
    &&& executable_is_file
    &&& match executable_name {
        Some(name) => equal_ignoring_ascii_case(
            text_bytes(name),
            text_bytes(spec_launch_executable(profile.mode)),
        ),
        None => false,
    }
    &&& working_directory_is_dir
    &&& profile.arguments@.len() <= 64
    &&& forall|i: int| 0 <= i < profile.arguments@.len() ==> launch_argument_ok(#[trigger] profile.arguments@[i]@)
}

fn has_nul(bytes: &[u8]) -> (found: bool)
    ensures
        found == exists|i: int| 0 <= i < bytes@.len() && bytes@[i] == 0,
{
    let mut i: usize = 0;
    while i < bytes.len()
        invariant
            i <= bytes@.len(),
            forall|k: int| 0 <= k < i ==> bytes@[k] != 0,
        decreases bytes@.len() - i,
    {
        if bytes[i] == 0 {
            return true;
        }
        i += 1;
    }
    false
}

/// Checks a launch profile from what the file system says of its executable
/// and working directory and what the platform makes of the executable's file
/// name.
pub fn check_launch_profile(
    profile: &NwnLaunchProfile,
    executable_is_file: bool,
    executable_name: Option<&str>,
    working_directory_is_dir: bool,
) -> (result: Result<(), EditError>)
    ensures
        result is Ok == launch_profile_ok(
            *profile,
            executable_is_file,
            match executable_name {
                Some(name) => Some(name@),
                None => None,
            },
            working_directory_is_dir,
        ),
        result matches Err(error) ==> error == EditError::LaunchProfileInvalid,
{
    let expected = launch_executable(profile.mode);
    let name_matches = match executable_name {
        Some(name) => bytes_equal_ignoring_ascii_case(name.as_bytes(), expected.as_bytes()),
        None => false,
    };
    if is_blank(profile.name.as_str()) || profile.name.as_str().as_bytes().len() > 80
        || !executable_is_file || !name_matches || !working_directory_is_dir
        || profile.arguments.len() > 64 {
        return Err(EditError::LaunchProfileInvalid);
    }
    let mut index: usize = 0;
    while index < profile.arguments.len()
        invariant
            index <= profile.arguments@.len(),
            forall|i: int| 0 <= i < index ==> launch_argument_ok(#[trigger] profile.arguments@[i]@),
        decreases profile.arguments@.len() - index,
    {
        let bytes = profile.arguments[index].as_str().as_bytes();
        if bytes.len() > 4096 || has_nul(bytes) {
            return Err(EditError::LaunchProfileInvalid);
        }
        index += 1;
    }
    Ok(())
}

/// The rules on a launch profile that do not depend on how the platform
/// names the executable: a non-blank name of at most 80 bytes, an executable
/// that is a file, a working directory that is a directory, and at most 64
/// acceptable arguments.
pub open spec fn launch_profile_basics_ok(
    profile: NwnLaunchProfile,
    executable_is_file: bool,
    working_directory_is_dir: bool,
) -> bool {
    &&& !is_blank_text(profile.name@)
    &&& text_bytes(profile.name@).len() <= 80
    &&& executable_is_file
    &&& working_directory_is_dir
    &&& profile.arguments@.len() <= 64
    &&& forall|i: int| 0 <= i < profile.arguments@.len() ==> launch_argument_ok(#[trigger] profile.arguments@[i]@)
}

/// Checks a launch profile, given what the file system says of its
/// executable (a file) and working directory (a directory). Which part of the
/// executable's path is its file name is the platform's; the verdict that
/// follows is `check_launch_profile`'s.
pub fn validate_launch_profile(
    profile: &NwnLaunchProfile,
    executable_is_file: bool,
    working_directory_is_dir: bool,
) -> (result: Result<(), EditError>)
    ensures
        exists|name: Option<Seq<char>>|
            #![trigger launch_profile_ok(*profile, executable_is_file, name, working_directory_is_dir)]
            (plain_file_name(profile.executable_path@) ==> name == Some(profile.executable_path@))
                && (result is Ok) == launch_profile_ok(
                *profile,
                executable_is_file,
                name,
                working_directory_is_dir,
            ),
        result is Ok ==> launch_profile_basics_ok(*profile, executable_is_file, working_directory_is_dir),
        result matches Err(error) ==> error == EditError::LaunchProfileInvalid,
{
    let name = path_file_name(profile.executable_path.as_str());
    let name_text: Option<&str> = match &name {
        Some(text) => Some(text.as_str()),
        None => None,
    };
    let result = check_launch_profile(profile, executable_is_file, name_text, working_directory_is_dir);
    proof {
        let seen = match name_text {
            Some(text) => Some(text@),
            None => None,
        };
        assert((result is Ok) == launch_profile_ok(*profile, executable_is_file, seen, working_directory_is_dir));
        assert(seen == text_of(name));
    }
    result
}

/// The character a profile name keeps for `c`: ASCII letters in lower case
/// and ASCII digits as they are; anything else becomes a dash.
pub open spec fn profile_char(c: char) -> char {
    if 'A' <= c <= 'Z' {
        ((c as u32) + 32) as char
    } else if ('a' <= c <= 'z') || ('0' <= c <= '9') {
        c
    } else {
        '-'
    }
}

pub open spec fn strip_leading_dashes(text: Seq<char>) -> Seq<char>
    decreases text.len(),
{
    if text.len() > 0 && text[0] == '-' {
        strip_leading_dashes(text.drop_first())
    } else {
        text
    }
}

pub open spec fn strip_trailing_dashes(text: Seq<char>) -> Seq<char>
    decreases text.len(),
{
    if text.len() > 0 && text.last() == '-' {
        strip_trailing_dashes(text.drop_last())
    } else {
        text
    }
}

/// A profile name made safe for a file name: each character mapped by
/// `profile_char`, dashes trimmed at both ends, at most 64 characters kept.
pub open spec fn spec_safe_profile_name(name: Seq<char>) -> Seq<char> {
    let trimmed = strip_trailing_dashes(strip_leading_dashes(name.map_values(|c: char| profile_char(c))));
    if trimmed.len() <= 64 {
        trimmed
    } else {
        trimmed.take(64)
    }
}

proof fn lemma_strip_leading(text: Seq<char>, start: int)
    requires
        0 <= start <= text.len(),
        forall|i: int| 0 <= i < start ==> text[i] == '-',
        start == text.len() || text[start] != '-',
    ensures
        strip_leading_dashes(text) == text.skip(start),
    decreases start,
{
    if start > 0 {
        lemma_strip_leading(text.drop_first(), start - 1);
        assert(text.drop_first().skip(start - 1) =~= text.skip(start));
    } else {
        assert(text.skip(0) =~= text);
    }
}

proof fn lemma_strip_trailing(text: Seq<char>, end: int)
    requires
        0 <= end <= text.len(),
        forall|i: int| end <= i < text.len() ==> text[i] == '-',
        end == 0 || text[end - 1] != '-',
    ensures
        strip_trailing_dashes(text) == text.take(end),
    decreases text.len() - end,
{
    if end < text.len() {
        lemma_strip_trailing(text.drop_last(), end);
        assert(text.drop_last().take(end) =~= text.take(end));
    } else {
        assert(text.take(end) =~= text);
    }
}

/// A profile name made safe for use as a file name.
pub fn safe_profile_name(name: &str) -> (safe: String)
    ensures
        safe@ == spec_safe_profile_name(name@),
{
    broadcast use vstd::string::axiom_spec_iter, vstd::string::next_postcondition;
    let ghost mapped = name@.map_values(|c: char| profile_char(c));
    let mut chars = name.chars();
    let mut out: Vec<u8> = Vec::new();
    let ghost mut k: int = 0;
    loop
        invariant
            0 <= k <= name@.len(),
            chars.remaining() == name@.skip(k),
            chars.obeys_prophetic_iter_laws(),
            mapped == name@.map_values(|c: char| profile_char(c)),
            out@.len() == k,
            forall|i: int| 0 <= i < k ==> (#[trigger] out@[i]) as char == mapped[i] && out@[i] < 128,
        ensures
            k == name@.len(),
            mapped == name@.map_values(|c: char| profile_char(c)),
            out@.len() == k,
            forall|i: int| 0 <= i < k ==> (#[trigger] out@[i]) as char == mapped[i] && out@[i] < 128,
        decreases name@.len() - k,
    {
        let next = chars.next();
        match next {
            Some(c) => {
                proof {
                    assert(name@.skip(k)[0] == name@[k]);
                    assert(name@.skip(k).drop_first() =~= name@.skip(k + 1));
                }
                let b: u8 = if 'A' <= c && c <= 'Z' {
                    (c as u32 + 32) as u8
                } else if ('a' <= c && c <= 'z') || ('0' <= c && c <= '9') {
                    c as u8
                } else {
                    45
                };
                out.push(b);
                proof {
                    k = k + 1;
                }
            },
            None => {
                proof {
                    assert(name@.skip(k).len() == 0);
                }
                break;
            },
        }
    }
    let mut start: usize = 0;
    while start < out.len() && out[start] == 45
        invariant
            start <= out@.len(),
            forall|i: int| 0 <= i < start ==> out@[i] == 45,
        decreases out@.len() - start,
    {
        start += 1;
    }
    let mut end: usize = out.len();
    while end > start && out[end - 1] == 45
        invariant
            start <= end <= out@.len(),
            forall|i: int| end <= i < out@.len() ==> out@[i] == 45,
        decreases end,
    {
        end -= 1;
    }
    let stop: usize = if end - start > 64 {
        start + 64
    } else {
        end
    };
    let mut kept: Vec<u8> = Vec::new();
    let mut i: usize = start;
    while i < stop
        invariant
            start <= i <= stop,
            stop <= out@.len(),
            kept@ == out@.subrange(start as int, i as int),
        decreases stop - i,
    {
        kept.push(out[i]);
        proof {
            assert(kept@ =~= out@.subrange(start as int, i + 1));
        }
        i += 1;
    }
    proof {
        assert(mapped.len() == out@.len());
        assert forall|j: int| 0 <= j < out@.len() implies mapped[j] == '-' <==> out@[j] == 45 by {
            assert(out@[j] as char == mapped[j]);
        }
        lemma_strip_leading(mapped, start as int);
        let after = mapped.skip(start as int);
        if end > start {
            lemma_strip_trailing(after, end - start);
        } else {
            lemma_strip_trailing(after, 0);
        }
        assert(all_ascii(kept@));
        assert(ascii_chars(kept@) =~= spec_safe_profile_name(name@));
    }
    ascii_string(kept)
}

/// The object palette of the editor.
#[derive(Debug, Clone, PartialEq, Eq)]
pub struct PaletteManifest {
    pub schema_version: u32,
    pub categories: Vec<PaletteCategory>,
}

/// A palette category: its id, its label and the resource types it lists.
#[derive(Debug, Clone, PartialEq, Eq)]
pub struct PaletteCategory {
    pub id: String,
    pub label: String,
    pub resource_types: Vec<u16>,
}

/// The categories of the standard palette: id, label and resource type.
pub open spec fn standard_palette_row(index: int) -> (Seq<char>, Seq<char>, u16) {
    if index == 0 {
        ("creatures"@, "Créatures"@, 2027u16)
    } else if index == 1 {
        ("doors"@, "Portes"@, 2042u16)
    } else if index == 2 {
        ("encounters"@, "Rencontres"@, 2040u16)
    } else if index == 3 {
        ("items"@, "Objets"@, 2025u16)
    } else if index == 4 {
        ("placeables"@, "Plaçables"@, 2044u16)
    } else if index == 5 {
        ("sounds"@, "Sons"@, 2035u16)
    } else if index == 6 {
        ("stores"@, "Marchands"@, 2051u16)
    } else if index == 7 {
        ("triggers"@, "Déclencheurs"@, 2032u16)
    } else {
        ("waypoints"@, "Points de passage"@, 2058u16)
    }
}

fn palette_category(id: &str, label: &str, resource_type: u16) -> (category: PaletteCategory)
    ensures
        category.id@ == id@,
        category.label@ == label@,
        category.resource_types@ == seq![resource_type],
{
    let mut resource_types: Vec<u16> = Vec::new();
    resource_types.push(resource_type);
    PaletteCategory { id: id.to_owned(), label: label.to_owned(), resource_types }
}

impl PaletteManifest {
    /// The standard palette: the nine object categories of a module, each
    /// with its blueprint resource type.
    pub fn standard() -> (manifest: PaletteManifest)
        ensures
            manifest.schema_version == 1,
            manifest.categories@.len() == 9,
            forall|i: int|
                0 <= i < 9 ==> {
                    let row = standard_palette_row(i);
                    &&& (#[trigger] manifest.categories@[i]).id@ == row.0
                    &&& manifest.categories@[i].label@ == row.1
                    &&& manifest.categories@[i].resource_types@ == seq![row.2]
                },
    {
        let mut categories: Vec<PaletteCategory> = Vec::new();
    categories.push(palette_category("creatures", "Créatures", 2027));
    categories.push(palette_category("doors", "Portes", 2042));
    categories.push(palette_category("encounters", "Rencontres", 2040));
    categories.push(palette_category("items", "Objets", 2025));
    categories.push(palette_category("placeables", "Plaçables", 2044));
    categories.push(palette_category("sounds", "Sons", 2035));
    categories.push(palette_category("stores", "Marchands", 2051));
    categories.push(palette_category("triggers", "Déclencheurs", 2032));
    categories.push(palette_category("waypoints", "Points de passage", 2058));
        PaletteManifest { schema_version: 1, categories }
    }
}

} // verus!
