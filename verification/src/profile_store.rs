//! The saved lists of build and launch profiles: kept in order of their names
//! ignoring ASCII case, one profile per name.
use crate::error::EditError;
use crate::profiles::{
    build_profile_fields_ok, build_profile_paths, check_build_profile, check_launch_profile,
    answers_agree, launch_profile_basics_ok, launch_profile_ok, lemma_checked_build_profile,
    opt_string_view,
    paths_for, spec_check_build_profile, BuildProfilePaths, ModuleBuildProfile, NwnLaunchProfile,
};
use crate::paths::{path_file_name, plain_file_name, text_of};
use crate::resource::{
    bytes_lt, compare_bytes_lt, copy_bytes, lemma_bytes_lt_asymmetric, lemma_bytes_lt_total,
    lemma_bytes_lt_transitive, text_bytes,
};
use crate::text::{
    ascii_lowercase, bytes_equal_ignoring_ascii_case, equal_ignoring_ascii_case, lower_text,
};
use vstd::prelude::*;
use vstd::seq_lib::group_to_multiset_ensures;

verus! {

/// A profile that is kept under its name.
pub trait NamedProfile: Sized {
    spec fn profile_name(&self) -> Seq<char>;

    fn name_text(&self) -> (name: &str)
        ensures
            name@ == self.profile_name(),
    ;
}

impl NamedProfile for ModuleBuildProfile {
    open spec fn profile_name(&self) -> Seq<char> {
        self.name@
    }

    fn name_text(&self) -> (name: &str) {
        self.name.as_str()
    }
}

impl NamedProfile for NwnLaunchProfile {
    open spec fn profile_name(&self) -> Seq<char> {
        self.name@
    }

    fn name_text(&self) -> (name: &str) {
        self.name.as_str()
    }
}

/// What profiles are ordered by: the bytes of the name in ASCII lower case.
pub open spec fn name_key(name: Seq<char>) -> Seq<u8> {
    text_bytes(lower_text(name))
}

/// Profile `a` comes strictly before `b` in name order.
pub open spec fn orders_before<P: NamedProfile>(a: P, b: P) -> bool {
    bytes_lt(name_key(a.profile_name()), name_key(b.profile_name()))
}

/// Two names that are the same ignoring ASCII case.
pub open spec fn same_name(a: Seq<char>, b: Seq<char>) -> bool {
    equal_ignoring_ascii_case(text_bytes(a), text_bytes(b))
}

/// `x` placed into an ordered list after every profile that does not come
/// after it.
pub open spec fn insert_by_name<P: NamedProfile>(sorted: Seq<P>, x: P) -> Seq<P>
    decreases sorted.len(),
{
    if sorted.len() == 0 {
        seq![x]
    } else if orders_before(x, sorted.last()) {
        insert_by_name(sorted.drop_last(), x).push(sorted.last())
    } else {
        sorted.push(x)
    }
}

/// The profiles in name order, profiles of equal order in their given order
/// (the stable sort by name).
pub open spec fn sort_by_name<P: NamedProfile>(profiles: Seq<P>) -> Seq<P>
    decreases profiles.len(),
{
    if profiles.len() == 0 {
        Seq::empty()
    } else {
        insert_by_name(sort_by_name(profiles.drop_last()), profiles.last())
    }
}

/// The profiles whose name differs from `name` ignoring ASCII case, in order.
pub open spec fn without_name<P: NamedProfile>(profiles: Seq<P>, name: Seq<char>) -> Seq<P>
    decreases profiles.len(),
{
    if profiles.len() == 0 {
        Seq::empty()
    } else {
        let rest = without_name(profiles.drop_last(), name);
        if same_name(profiles.last().profile_name(), name) {
            rest
        } else {
            rest.push(profiles.last())
        }
    }
}

/// The list after `profile` is saved into it: any profile of the same name
/// (ignoring ASCII case) replaced by it, in name order.
pub open spec fn replace_by_name<P: NamedProfile>(profiles: Seq<P>, profile: P) -> Seq<P> {
    sort_by_name(without_name(profiles, profile.profile_name()).push(profile))
}

/// The order key of a profile's name.
fn name_key_of<P: NamedProfile>(profile: &P) -> (key: Vec<u8>)
    ensures
        key@ == name_key(profile.profile_name()),
{
    let lower = ascii_lowercase(profile.name_text());
    copy_bytes(lower.as_str().as_bytes())
}

/// Places `x` into the ordered list after every profile that does not come
/// after it.
fn insert_sorted<P: NamedProfile>(sorted: &mut Vec<P>, x: P)
    ensures
        final(sorted)@ == insert_by_name(old(sorted)@, x),
{
    let ghost start = sorted@;
    let key = name_key_of(&x);
    let mut position: usize = sorted.len();
    proof {
        assert(start.take(start.len() as int) =~= start);
        assert(insert_by_name(start, x) + start.skip(start.len() as int) =~= insert_by_name(
            start,
            x,
        ));
    }
    while position > 0
        invariant
            position <= start.len(),
            sorted@ == start,
            key@ == name_key(x.profile_name()),
            insert_by_name(start, x) == insert_by_name(start.take(position as int), x) + start.skip(
                position as int,
            ),
        ensures
            position <= start.len(),
            sorted@ == start,
            insert_by_name(start, x) == insert_by_name(start.take(position as int), x) + start.skip(
                position as int,
            ),
            position == 0 || !orders_before(x, start[position - 1]),
        decreases position,
    {
        let other = name_key_of(&sorted[position - 1]);
        if !compare_bytes_lt(key.as_slice(), other.as_slice()) {
            break;
        }
        proof {
            let prefix = start.take(position as int);
            assert(prefix.drop_last() =~= start.take(position - 1));
            assert(prefix.last() == start[position - 1]);
            assert(seq![start[position - 1]] + start.skip(position as int) =~= start.skip(
                position - 1,
            ));
            assert(insert_by_name(prefix, x) == insert_by_name(start.take(position - 1), x).push(
                start[position - 1],
            ));
            assert(insert_by_name(start.take(position - 1), x).push(start[position - 1])
                + start.skip(position as int) =~= insert_by_name(start.take(position - 1), x)
                + start.skip(position - 1));
        }
        position = position - 1;
    }
    proof {
        let prefix = start.take(position as int);
        if position > 0 {
            assert(prefix.last() == start[position - 1]);
        }
        assert(insert_by_name(prefix, x) =~= prefix.push(x));
        assert(prefix.push(x) + start.skip(position as int) =~= start.insert(position as int, x));
    }
    sorted.insert(position, x);
}

/// Empties `profiles` into a list of the same profiles in reverse order.
fn reversed<P: NamedProfile>(profiles: Vec<P>) -> (reversed: Vec<P>)
    ensures
        reversed@.len() == profiles@.len(),
        forall|i: int|
            0 <= i < profiles@.len() ==> #[trigger] reversed@[i] == profiles@[profiles@.len() - 1 - i],
{
    let ghost start = profiles@;
    let mut pending = profiles;
    let mut out: Vec<P> = Vec::new();
    while pending.len() > 0
        invariant
            pending@ == start.take(pending@.len() as int),
            pending@.len() <= start.len(),
            out@.len() == start.len() - pending@.len(),
            forall|i: int| 0 <= i < out@.len() ==> #[trigger] out@[i] == start[start.len() - 1 - i],
        decreases pending@.len(),
    {
        let next = pending.pop();
        match next {
            Some(x) => {
                out.push(x);
            },
            None => {},
        }
    }
    out
}

/// The profiles in name order, those of equal order kept in their order.
pub fn sort_profiles<P: NamedProfile>(profiles: Vec<P>) -> (sorted: Vec<P>)
    ensures
        sorted@ == sort_by_name(profiles@),
{
    let ghost start = profiles@;
    let mut pending = reversed(profiles);
    let mut sorted: Vec<P> = Vec::new();
    while pending.len() > 0
        invariant
            pending@.len() <= start.len(),
            forall|i: int|
                0 <= i < pending@.len() ==> #[trigger] pending@[i] == start[start.len() - 1 - i],
            sorted@ == sort_by_name(start.take(start.len() - pending@.len())),
        decreases pending@.len(),
    {
        let ghost done = start.len() - pending@.len();
        let next = pending.pop();
        match next {
            Some(x) => {
                proof {
                    assert(x == start[done]);
                    assert(start.take(done + 1).drop_last() =~= start.take(done));
                }
                insert_sorted(&mut sorted, x);
            },
            None => {},
        }
    }
    proof {
        assert(start.take(start.len() as int) =~= start);
    }
    sorted
}

/// The profiles whose name differs from `name` ignoring ASCII case, in order.
fn remove_named<P: NamedProfile>(profiles: Vec<P>, name: &str) -> (kept: Vec<P>)
    ensures
        kept@ == without_name(profiles@, name@),
{
    let ghost start = profiles@;
    let mut pending = reversed(profiles);
    let mut kept: Vec<P> = Vec::new();
    while pending.len() > 0
        invariant
            pending@.len() <= start.len(),
            forall|i: int|
                0 <= i < pending@.len() ==> #[trigger] pending@[i] == start[start.len() - 1 - i],
            kept@ == without_name(start.take(start.len() - pending@.len()), name@),
        decreases pending@.len(),
    {
        let ghost done = start.len() - pending@.len();
        let next = pending.pop();
        match next {
            Some(x) => {
                proof {
                    assert(x == start[done]);
                    assert(start.take(done + 1).drop_last() =~= start.take(done));
                }
                if !bytes_equal_ignoring_ascii_case(x.name_text().as_bytes(), name.as_bytes()) {
                    kept.push(x);
                }
            },
            None => {},
        }
    }
    proof {
        assert(start.take(start.len() as int) =~= start);
    }
    kept
}

/// The list after `profile` is saved into it: any profile of the same name
/// (ignoring ASCII case) replaced by it, in name order.
pub fn replace_profile<P: NamedProfile>(profiles: Vec<P>, profile: P) -> (stored: Vec<P>)
    ensures
        stored@ == replace_by_name(profiles@, profile),
{
    let mut kept = remove_named(profiles, profile.name_text());
    kept.push(profile);
    sort_profiles(kept)
}

/// The platform's answers agree with what every platform makes of the plain
/// file names of each saved profile.
pub open spec fn all_answers_agree(saved: Seq<ModuleBuildProfile>, answers: Seq<BuildProfilePaths>) -> bool {
    forall|i: int| 0 <= i < saved.len() && i < answers.len() ==> answers_agree(#[trigger] saved[i], answers[i])
}

/// The answers are those for the saved profiles, one per profile.
pub open spec fn all_paths_for(saved: Seq<ModuleBuildProfile>, answers: Seq<BuildProfilePaths>) -> bool {
    &&& answers.len() == saved.len()
    &&& forall|i: int| 0 <= i < saved.len() ==> paths_for(#[trigger] saved[i], answers[i])
}

/// The fault of the first of the first `n` saved build profiles that its
/// check refuses, if one is refused.
pub open spec fn first_build_fault(
    saved: Seq<ModuleBuildProfile>,
    answers: Seq<BuildProfilePaths>,
    n: int,
) -> Option<EditError>
    decreases n,
{
    if n <= 0 {
        None
    } else {
        match first_build_fault(saved, answers, n - 1) {
            Some(error) => Some(error),
            None => match spec_check_build_profile(saved[n - 1], answers[n - 1]) {
                Err(error) => Some(error),
                Ok(()) => None,
            },
        }
    }
}

/// The saved build profiles as they are listed, given the platform's answers
/// on each one's file names: the first refused profile's fault, else all of
/// them in name order.
pub open spec fn spec_list_build_profiles(
    saved: Seq<ModuleBuildProfile>,
    answers: Seq<BuildProfilePaths>,
) -> Result<Seq<ModuleBuildProfile>, EditError> {
    match first_build_fault(saved, answers, saved.len() as int) {
        Some(error) => Err(error),
        None => Ok(sort_by_name(saved)),
    }
}

/// The build profiles after `profile` is saved among them, given the
/// platform's answers: `profile` checked, then the saved ones listed, then any
/// of the same name replaced by it.
pub open spec fn spec_store_build_profile(
    saved: Seq<ModuleBuildProfile>,
    answers: Seq<BuildProfilePaths>,
    profile: ModuleBuildProfile,
    paths: BuildProfilePaths,
) -> Result<Seq<ModuleBuildProfile>, EditError> {
    match spec_check_build_profile(profile, paths) {
        Err(error) => Err(error),
        Ok(()) => match spec_list_build_profiles(saved, answers) {
            Err(error) => Err(error),
            Ok(listed) => Ok(replace_by_name(listed, profile)),
        },
    }
}

proof fn lemma_build_fault_stays(
    saved: Seq<ModuleBuildProfile>,
    answers: Seq<BuildProfilePaths>,
    n: int,
    k: int,
)
    requires
        0 <= n <= k,
        first_build_fault(saved, answers, n) is Some,
    ensures
        first_build_fault(saved, answers, k) == first_build_fault(saved, answers, n),
    decreases k - n,
{
    if k > n {
        lemma_build_fault_stays(saved, answers, n, k - 1);
    }
}

/// Without a fault every profile passes the platform-free rules; a profile
/// failing them is a fault; a fault is one of the two profile errors.
proof fn lemma_build_fault_facts(saved: Seq<ModuleBuildProfile>, answers: Seq<BuildProfilePaths>, n: int)
    requires
        0 <= n <= saved.len(),
        all_paths_for(saved, answers),
    ensures
        first_build_fault(saved, answers, n) is None ==> forall|i: int|
            0 <= i < n ==> build_profile_fields_ok(#[trigger] saved[i]),
        first_build_fault(saved, answers, n) matches Some(error) ==> error
            == EditError::BuildProfileInvalid || error == EditError::DependencyNameInvalid,
    decreases n,
{
    if n > 0 {
        lemma_build_fault_facts(saved, answers, n - 1);
        assert(paths_for(saved[n - 1], answers[n - 1]));
        lemma_checked_build_profile(saved[n - 1], answers[n - 1]);
    }
}

/// Lists saved build profiles from the platform's answers on their file
/// names: each one checked in saved order, the first fault ending the listing,
/// then put in name order.
pub fn list_checked_build_profiles(saved: Vec<ModuleBuildProfile>, answers: &[BuildProfilePaths]) -> (listed:
    Result<Vec<ModuleBuildProfile>, EditError>)
    requires
        all_paths_for(saved@, answers@),
    ensures
        match spec_list_build_profiles(saved@, answers@) {
            Ok(profiles) => listed matches Ok(found) && found@ == profiles,
            Err(error) => listed == Err::<Vec<ModuleBuildProfile>, EditError>(error),
        },
{
    let mut i: usize = 0;
    while i < saved.len()
        invariant
            i <= saved@.len(),
            all_paths_for(saved@, answers@),
            first_build_fault(saved@, answers@, i as int) is None,
        decreases saved@.len() - i,
    {
        assert(paths_for(saved@[i as int], answers@[i as int]));
        if let Err(error) = check_build_profile(&saved[i], &answers[i]) {
            proof {
                lemma_build_fault_stays(saved@, answers@, i + 1, saved@.len() as int);
            }
            return Err(error);
        }
        i = i + 1;
    }
    Ok(sort_profiles(saved))
}

/// The saved build profiles as they are listed: each one checked in saved
/// order, the first fault ending the listing, then put in name order. How the
/// file names split is the platform's; the listing that follows from its
/// answers is `list_checked_build_profiles`'s.
pub fn order_build_profiles(saved: Vec<ModuleBuildProfile>) -> (listed: Result<
    Vec<ModuleBuildProfile>,
    EditError,
>)
    ensures
        exists|answers: Seq<BuildProfilePaths>|
            #![trigger spec_list_build_profiles(saved@, answers)]
            {
                &&& all_paths_for(saved@, answers)
                &&& all_answers_agree(saved@, answers)
                &&& match spec_list_build_profiles(saved@, answers) {
                    Ok(profiles) => listed matches Ok(found) && found@ == profiles,
                    Err(error) => listed == Err::<Vec<ModuleBuildProfile>, EditError>(error),
                }
            },
        listed matches Ok(profiles) ==> profiles@ == sort_by_name(saved@) && forall|i: int|
            0 <= i < saved@.len() ==> build_profile_fields_ok(#[trigger] saved@[i]),
        (exists|i: int| 0 <= i < saved@.len() && !build_profile_fields_ok(#[trigger] saved@[i]))
            ==> listed is Err,
        listed matches Err(error) ==> error == EditError::BuildProfileInvalid || error
            == EditError::DependencyNameInvalid,
{
    let answers = build_answers(&saved);
    let ghost given = answers@;
    let listed = list_checked_build_profiles(saved, answers.as_slice());
    proof {
        lemma_build_fault_facts(saved@, given, saved@.len() as int);
    }
    listed
}

fn build_answers(saved: &Vec<ModuleBuildProfile>) -> (answers: Vec<BuildProfilePaths>)
    ensures
        all_paths_for(saved@, answers@),
        all_answers_agree(saved@, answers@),
{
    let mut answers: Vec<BuildProfilePaths> = Vec::new();
    let mut i: usize = 0;
    while i < saved.len()
        invariant
            i <= saved@.len(),
            answers@.len() == i,
            forall|k: int| 0 <= k < i ==> paths_for(#[trigger] saved@[k], answers@[k]),
            forall|k: int| 0 <= k < i ==> answers_agree(#[trigger] saved@[k], answers@[k]),
        decreases saved@.len() - i,
    {
        answers.push(build_profile_paths(&saved[i]));
        i = i + 1;
    }
    answers
}

/// Saves a build profile among the saved ones from the platform's answers on
/// all their file names: `profile` checked, then the saved ones listed, then
/// any of the same name replaced by it.
pub fn store_checked_build_profile(
    saved: Vec<ModuleBuildProfile>,
    answers: &[BuildProfilePaths],
    profile: ModuleBuildProfile,
    paths: &BuildProfilePaths,
) -> (stored: Result<Vec<ModuleBuildProfile>, EditError>)
    requires
        all_paths_for(saved@, answers@),
        paths_for(profile, *paths),
    ensures
        match spec_store_build_profile(saved@, answers@, profile, *paths) {
            Ok(profiles) => stored matches Ok(found) && found@ == profiles,
            Err(error) => stored == Err::<Vec<ModuleBuildProfile>, EditError>(error),
        },
{
    if let Err(error) = check_build_profile(&profile, paths) {
        return Err(error);
    }
    let listed = list_checked_build_profiles(saved, answers)?;
    Ok(replace_profile(listed, profile))
}

/// The build profiles after `profile` is saved among them: `profile` checked,
/// then the saved ones listed, then any of the same name replaced by it. How
/// the file names split is the platform's; what follows from its answers is
/// `store_checked_build_profile`'s.
pub fn store_build_profile(saved: Vec<ModuleBuildProfile>, profile: ModuleBuildProfile) -> (stored:
    Result<Vec<ModuleBuildProfile>, EditError>)
    ensures
        exists|answers: Seq<BuildProfilePaths>, paths: BuildProfilePaths|
            #![trigger spec_store_build_profile(saved@, answers, profile, paths)]
            {
                &&& all_paths_for(saved@, answers)
                &&& all_answers_agree(saved@, answers)
                &&& paths_for(profile, paths)
                &&& answers_agree(profile, paths)
                &&& match spec_store_build_profile(saved@, answers, profile, paths) {
                    Ok(profiles) => stored matches Ok(found) && found@ == profiles,
                    Err(error) => stored == Err::<Vec<ModuleBuildProfile>, EditError>(error),
                }
            },
        !build_profile_fields_ok(profile) ==> stored == Err::<Vec<ModuleBuildProfile>, EditError>(
            EditError::BuildProfileInvalid,
        ),
        (exists|i: int| 0 <= i < saved@.len() && !build_profile_fields_ok(#[trigger] saved@[i]))
            ==> stored is Err,
        stored matches Ok(profiles) ==> {
            &&& build_profile_fields_ok(profile)
            &&& forall|i: int| 0 <= i < saved@.len() ==> build_profile_fields_ok(#[trigger] saved@[i])
            &&& profiles@ == replace_by_name(sort_by_name(saved@), profile)
        },
        stored matches Err(error) ==> error == EditError::BuildProfileInvalid || error
            == EditError::DependencyNameInvalid,
{
    let answers = build_answers(&saved);
    let paths = build_profile_paths(&profile);
    let ghost given = answers@;
    let ghost old_saved = saved@;
    let stored = store_checked_build_profile(saved, answers.as_slice(), profile, &paths);
    proof {
        lemma_build_fault_facts(old_saved, given, old_saved.len() as int);
        lemma_checked_build_profile(profile, paths);
        assert(spec_store_build_profile(old_saved, given, profile, paths) == spec_store_build_profile(saved@, given, profile, paths));
    }
    stored
}

/// What the file system says of each launch profile's paths: whether its
/// executable is a file and whether its working directory is a directory.
pub open spec fn paths_checked(profiles: Seq<NwnLaunchProfile>, paths: Seq<(bool, bool)>) -> bool {
    &&& paths.len() == profiles.len()
    &&& forall|i: int|
        0 <= i < profiles.len() ==> launch_profile_basics_ok(
            #[trigger] profiles[i],
            paths[i].0,
            paths[i].1,
        )
}

/// Each platform answer on a plain executable path is that name itself.
pub open spec fn names_agree(saved: Seq<NwnLaunchProfile>, names: Seq<Option<Seq<char>>>) -> bool {
    forall|i: int|
        0 <= i < saved.len() && i < names.len() && plain_file_name((#[trigger] saved[i]).executable_path@)
            ==> names[i] == Some(saved[i].executable_path@)
}

/// The platform's executable names, by their texts.
pub open spec fn names_view(names: Seq<Option<String>>) -> Seq<Option<Seq<char>>> {
    Seq::new(names.len(), |i: int| opt_string_view(names[i]))
}

/// The saved launch profiles as they are listed, given what the file system
/// says of each one's paths and what the platform makes of each one's
/// executable name: refused if any profile is refused, else in name order.
pub open spec fn spec_list_launch_profiles(
    saved: Seq<NwnLaunchProfile>,
    paths: Seq<(bool, bool)>,
    names: Seq<Option<Seq<char>>>,
) -> Result<Seq<NwnLaunchProfile>, EditError> {
    if forall|i: int|
        0 <= i < saved.len() ==> launch_profile_ok(#[trigger] saved[i], paths[i].0, names[i], paths[i].1) {
        Ok(sort_by_name(saved))
    } else {
        Err(EditError::LaunchProfileInvalid)
    }
}

/// The launch profiles after `profile` is saved among them, given the file
/// system's and the platform's answers on all of them.
pub open spec fn spec_store_launch_profile(
    saved: Seq<NwnLaunchProfile>,
    paths: Seq<(bool, bool)>,
    names: Seq<Option<Seq<char>>>,
    profile: NwnLaunchProfile,
    profile_paths: (bool, bool),
    profile_name: Option<Seq<char>>,
) -> Result<Seq<NwnLaunchProfile>, EditError> {
    if !launch_profile_ok(profile, profile_paths.0, profile_name, profile_paths.1) {
        Err(EditError::LaunchProfileInvalid)
    } else {
        match spec_list_launch_profiles(saved, paths, names) {
            Err(error) => Err(error),
            Ok(listed) => Ok(replace_by_name(listed, profile)),
        }
    }
}

fn name_text(name: &Option<String>) -> (borrowed: Option<&str>)
    ensures
        match borrowed {
            Some(text) => opt_string_view(*name) == Some(text@),
            None => name is None,
        },
{
    match name {
        Some(text) => Some(text.as_str()),
        None => None,
    }
}

/// Lists saved launch profiles from what the file system says of their paths
/// and what the platform makes of their executable names: refused if any
/// profile is refused, else put in name order.
pub fn list_checked_launch_profiles(
    saved: Vec<NwnLaunchProfile>,
    paths: &[(bool, bool)],
    names: &[Option<String>],
) -> (listed: Result<Vec<NwnLaunchProfile>, EditError>)
    requires
        paths@.len() == saved@.len(),
        names@.len() == saved@.len(),
    ensures
        match spec_list_launch_profiles(saved@, paths@, names_view(names@)) {
            Ok(profiles) => listed matches Ok(found) && found@ == profiles,
            Err(error) => listed == Err::<Vec<NwnLaunchProfile>, EditError>(error),
        },
{
    let ghost seen = names_view(names@);
    let mut i: usize = 0;
    while i < saved.len()
        invariant
            i <= saved@.len(),
            paths@.len() == saved@.len(),
            names@.len() == saved@.len(),
            seen == names_view(names@),
            forall|k: int|
                0 <= k < i ==> launch_profile_ok(#[trigger] saved@[k], paths@[k].0, seen[k], paths@[k].1),
        decreases saved@.len() - i,
    {
        let (executable_is_file, working_directory_is_dir) = paths[i];
        let name = name_text(&names[i]);
        proof {
            assert(seen[i as int] == opt_string_view(names@[i as int]));
        }
        if check_launch_profile(&saved[i], executable_is_file, name, working_directory_is_dir).is_err() {
            proof {
                let shown = match name {
                    Some(text) => Some(text@),
                    None => None,
                };
                assert(shown == seen[i as int]);
                assert(!launch_profile_ok(saved@[i as int], paths@[i as int].0, seen[i as int], paths@[i as int].1));
            }
            return Err(EditError::LaunchProfileInvalid);
        }
        proof {
            let shown = match name {
                Some(text) => Some(text@),
                None => None,
            };
            assert(shown == seen[i as int]);
        }
        i = i + 1;
    }
    Ok(sort_profiles(saved))
}

fn executable_names(saved: &Vec<NwnLaunchProfile>) -> (names: Vec<Option<String>>)
    ensures
        names@.len() == saved@.len(),
        names_agree(saved@, names_view(names@)),
{
    let mut names: Vec<Option<String>> = Vec::new();
    let mut i: usize = 0;
    while i < saved.len()
        invariant
            i <= saved@.len(),
            names@.len() == i,
            forall|k: int|
                0 <= k < i && plain_file_name((#[trigger] saved@[k]).executable_path@) ==> opt_string_view(
                    names@[k],
                ) == Some(saved@[k].executable_path@),
        decreases saved@.len() - i,
    {
        let name = path_file_name(saved[i].executable_path.as_str());
        assert(opt_string_view(name) == text_of(name));
        names.push(name);
        i = i + 1;
    }
    proof {
        assert forall|k: int|
            0 <= k < saved@.len() && k < names@.len() && plain_file_name((#[trigger] saved@[k]).executable_path@)
                implies names_view(names@)[k] == Some(saved@[k].executable_path@) by {
        }
    }
    names
}

proof fn lemma_launch_ok_basics(saved: Seq<NwnLaunchProfile>, paths: Seq<(bool, bool)>, names: Seq<Option<Seq<char>>>)
    requires
        paths.len() == saved.len(),
        spec_list_launch_profiles(saved, paths, names) is Ok,
    ensures
        paths_checked(saved, paths),
{
    assert forall|i: int| 0 <= i < saved.len() implies launch_profile_basics_ok(
        #[trigger] saved[i],
        paths[i].0,
        paths[i].1,
    ) by {
        assert(launch_profile_ok(saved[i], paths[i].0, names[i], paths[i].1));
    }
}

proof fn lemma_basics_fault(saved: Seq<NwnLaunchProfile>, paths: Seq<(bool, bool)>, names: Seq<Option<Seq<char>>>)
    requires
        paths.len() == saved.len(),
        !paths_checked(saved, paths),
    ensures
        spec_list_launch_profiles(saved, paths, names) is Err,
{
    let i = choose|i: int| 0 <= i < saved.len() && !launch_profile_basics_ok(#[trigger] saved[i], paths[i].0, paths[i].1);
    assert(!launch_profile_ok(saved[i], paths[i].0, names[i], paths[i].1));
}

/// The saved launch profiles as they are listed, given what the file system
/// says of each one's paths: each one checked in saved order, the first fault
/// ending the listing, then put in name order. Which part of an executable's
/// path is its file name is the platform's; the listing that follows from
/// its answers is `list_checked_launch_profiles`'s.
pub fn order_launch_profiles(saved: Vec<NwnLaunchProfile>, paths: &[(bool, bool)]) -> (listed:
    Result<Vec<NwnLaunchProfile>, EditError>)
    requires
        paths@.len() == saved@.len(),
    ensures
        exists|names: Seq<Option<Seq<char>>>|
            #![trigger spec_list_launch_profiles(saved@, paths@, names)]
            {
                &&& names.len() == saved@.len()
                &&& names_agree(saved@, names)
                &&& match spec_list_launch_profiles(saved@, paths@, names) {
                    Ok(profiles) => listed matches Ok(found) && found@ == profiles,
                    Err(error) => listed == Err::<Vec<NwnLaunchProfile>, EditError>(error),
                }
            },
        listed matches Ok(profiles) ==> profiles@ == sort_by_name(saved@) && paths_checked(
            saved@,
            paths@,
        ),
        !paths_checked(saved@, paths@) ==> listed is Err,
        listed matches Err(error) ==> error == EditError::LaunchProfileInvalid,
{
    let names = executable_names(&saved);
    let ghost seen = names_view(names@);
    let ghost old_saved = saved@;
    let listed = list_checked_launch_profiles(saved, paths, names.as_slice());
    proof {
        if spec_list_launch_profiles(old_saved, paths@, seen) is Ok {
            lemma_launch_ok_basics(old_saved, paths@, seen);
        }
        if !paths_checked(old_saved, paths@) {
            lemma_basics_fault(old_saved, paths@, seen);
        }
    }
    listed
}

/// Saves a launch profile among the saved ones from the file system's and the
/// platform's answers on all of them: `profile` checked, then the saved ones
/// listed, then any of the same name replaced by it.
pub fn store_checked_launch_profile(
    saved: Vec<NwnLaunchProfile>,
    saved_paths: &[(bool, bool)],
    saved_names: &[Option<String>],
    profile: NwnLaunchProfile,
    profile_paths: (bool, bool),
    profile_name: Option<&str>,
) -> (stored: Result<Vec<NwnLaunchProfile>, EditError>)
    requires
        saved_paths@.len() == saved@.len(),
        saved_names@.len() == saved@.len(),
    ensures
        match spec_store_launch_profile(
            saved@,
            saved_paths@,
            names_view(saved_names@),
            profile,
            profile_paths,
            match profile_name {
                Some(text) => Some(text@),
                None => None,
            },
        ) {
            Ok(profiles) => stored matches Ok(found) && found@ == profiles,
            Err(error) => stored == Err::<Vec<NwnLaunchProfile>, EditError>(error),
        },
{
    if check_launch_profile(&profile, profile_paths.0, profile_name, profile_paths.1).is_err() {
        return Err(EditError::LaunchProfileInvalid);
    }
    let listed = list_checked_launch_profiles(saved, saved_paths, saved_names)?;
    Ok(replace_profile(listed, profile))
}

/// The launch profiles after `profile` is saved among them, given what the
/// file system says of the paths of each: `profile` checked, then the saved
/// ones listed, then any of the same name replaced by it. Which part of an
/// executable's path is its file name is the platform's; what follows from
/// its answers is `store_checked_launch_profile`'s.
pub fn store_launch_profile(
    saved: Vec<NwnLaunchProfile>,
    saved_paths: &[(bool, bool)],
    profile: NwnLaunchProfile,
    profile_paths: (bool, bool),
) -> (stored: Result<Vec<NwnLaunchProfile>, EditError>)
    requires
        saved_paths@.len() == saved@.len(),
    ensures
        exists|names: Seq<Option<Seq<char>>>, name: Option<Seq<char>>|
            #![trigger spec_store_launch_profile(saved@, saved_paths@, names, profile, profile_paths, name)]
            {
                &&& names.len() == saved@.len()
                &&& names_agree(saved@, names)
                &&& (plain_file_name(profile.executable_path@) ==> name == Some(profile.executable_path@))
                &&& match spec_store_launch_profile(saved@, saved_paths@, names, profile, profile_paths, name) {
                    Ok(profiles) => stored matches Ok(found) && found@ == profiles,
                    Err(error) => stored == Err::<Vec<NwnLaunchProfile>, EditError>(error),
                }
            },
        !launch_profile_basics_ok(profile, profile_paths.0, profile_paths.1) ==> stored is Err,
        !paths_checked(saved@, saved_paths@) ==> stored is Err,
        stored matches Ok(profiles) ==> {
            &&& launch_profile_basics_ok(profile, profile_paths.0, profile_paths.1)
            &&& paths_checked(saved@, saved_paths@)
            &&& profiles@ == replace_by_name(sort_by_name(saved@), profile)
        },
        stored matches Err(error) ==> error == EditError::LaunchProfileInvalid,
{
    let names = executable_names(&saved);
    let own = path_file_name(profile.executable_path.as_str());
    let own_name = name_text(&own);
    assert(opt_string_view(own) == text_of(own));
    let ghost seen = names_view(names@);
    let ghost shown = match own_name {
        Some(text) => Some(text@),
        None => None,
    };
    let ghost old_saved = saved@;
    let ghost old_profile = profile;
    let stored = store_checked_launch_profile(saved, saved_paths, names.as_slice(), profile, profile_paths, own_name);
    proof {
        if spec_list_launch_profiles(old_saved, saved_paths@, seen) is Ok {
            lemma_launch_ok_basics(old_saved, saved_paths@, seen);
        }
        if !paths_checked(old_saved, saved_paths@) {
            lemma_basics_fault(old_saved, saved_paths@, seen);
        }
        assert(spec_store_launch_profile(old_saved, saved_paths@, seen, old_profile, profile_paths, shown)
            == spec_store_launch_profile(saved@, saved_paths@, seen, profile, profile_paths, shown));
    }
    stored
}

/// The profiles are in name order: none comes strictly before one placed
/// earlier.
pub open spec fn in_name_order<P: NamedProfile>(profiles: Seq<P>) -> bool {
    forall|i: int, j: int|
        0 <= i < j < profiles.len() ==> !orders_before(#[trigger] profiles[j], #[trigger] profiles[i])
}

proof fn lemma_insert_multiset<P: NamedProfile>(sorted: Seq<P>, x: P)
    ensures
        insert_by_name(sorted, x).to_multiset() =~= sorted.to_multiset().insert(x),
    decreases sorted.len(),
{
    broadcast use group_to_multiset_ensures;

    if sorted.len() == 0 {
        assert(seq![x] =~= Seq::<P>::empty().push(x));
    } else {
        assert(sorted =~= sorted.drop_last().push(sorted.last()));
        if orders_before(x, sorted.last()) {
            lemma_insert_multiset(sorted.drop_last(), x);
        }
    }
}

proof fn lemma_sort_multiset<P: NamedProfile>(profiles: Seq<P>)
    ensures
        sort_by_name(profiles).to_multiset() =~= profiles.to_multiset(),
    decreases profiles.len(),
{
    broadcast use group_to_multiset_ensures;

    if profiles.len() > 0 {
        lemma_sort_multiset(profiles.drop_last());
        lemma_insert_multiset(sort_by_name(profiles.drop_last()), profiles.last());
        assert(profiles =~= profiles.drop_last().push(profiles.last()));
    }
}

/// Profiles that do not come before each other in name order, nor a third
/// after the second, do not put the third before the first.
proof fn lemma_not_before_transitive<P: NamedProfile>(a: P, b: P, c: P)
    requires
        !orders_before(b, a),
        !orders_before(c, b),
    ensures
        !orders_before(c, a),
{
    let ka = name_key(a.profile_name());
    let kb = name_key(b.profile_name());
    let kc = name_key(c.profile_name());
    lemma_bytes_lt_total(ka, kb);
    lemma_bytes_lt_total(kb, kc);
    if bytes_lt(kc, ka) {
        if bytes_lt(ka, kb) {
            lemma_bytes_lt_transitive(kc, ka, kb);
        }
        if bytes_lt(kb, kc) {
            lemma_bytes_lt_transitive(kb, kc, ka);
        }
    }
}

proof fn lemma_insert_in_order<P: NamedProfile>(sorted: Seq<P>, x: P)
    requires
        in_name_order(sorted),
    ensures
        in_name_order(insert_by_name(sorted, x)),
    decreases sorted.len(),
{
    broadcast use group_to_multiset_ensures;

    if sorted.len() == 0 {
    } else if orders_before(x, sorted.last()) {
        let front = sorted.drop_last();
        let last = sorted.last();
        let rest = insert_by_name(front, x);
        lemma_insert_in_order(front, x);
        lemma_insert_multiset(front, x);
        assert forall|i: int| 0 <= i < rest.len() implies !orders_before(last, rest[i]) by {
            let e = rest[i];
            assert(rest.to_multiset().count(e) > 0);
            if e == x {
                lemma_bytes_lt_asymmetric(name_key(x.profile_name()), name_key(last.profile_name()));
            } else {
                assert(front.to_multiset().count(e) > 0);
                let k = choose|k: int| 0 <= k < front.len() && front[k] == e;
                assert(sorted[k] == e);
                assert(!orders_before(sorted[sorted.len() - 1], sorted[k]));
            }
        }
        let result = rest.push(last);
        assert forall|i: int, j: int| 0 <= i < j < result.len() implies !orders_before(
            #[trigger] result[j],
            #[trigger] result[i],
        ) by {
            if j < rest.len() {
                assert(result[i] == rest[i] && result[j] == rest[j]);
            } else {
                assert(result[j] == last && result[i] == rest[i]);
            }
        }
    } else {
        let last = sorted.last();
        let result = sorted.push(x);
        assert forall|i: int, j: int| 0 <= i < j < result.len() implies !orders_before(
            #[trigger] result[j],
            #[trigger] result[i],
        ) by {
            if j < sorted.len() {
                assert(result[i] == sorted[i] && result[j] == sorted[j]);
            } else {
                assert(result[j] == x && result[i] == sorted[i]);
                if i < sorted.len() - 1 {
                    assert(!orders_before(sorted[sorted.len() - 1], sorted[i]));
                    lemma_not_before_transitive(sorted[i], last, x);
                }
            }
        }
    }
}

proof fn lemma_sort_in_order<P: NamedProfile>(profiles: Seq<P>)
    ensures
        in_name_order(sort_by_name(profiles)),
    decreases profiles.len(),
{
    if profiles.len() > 0 {
        lemma_sort_in_order(profiles.drop_last());
        lemma_insert_in_order(sort_by_name(profiles.drop_last()), profiles.last());
    }
}

proof fn lemma_without_name<P: NamedProfile>(profiles: Seq<P>, name: Seq<char>)
    ensures
        forall|i: int|
            0 <= i < without_name(profiles, name).len() ==> !same_name(
                (#[trigger] without_name(profiles, name)[i]).profile_name(),
                name,
            ),
        forall|i: int|
            0 <= i < profiles.len() && !same_name((#[trigger] profiles[i]).profile_name(), name)
                ==> without_name(profiles, name).contains(profiles[i]),
    decreases profiles.len(),
{
    if profiles.len() > 0 {
        let front = profiles.drop_last();
        lemma_without_name(front, name);
        let rest = without_name(front, name);
        assert forall|i: int|
            0 <= i < profiles.len() && !same_name(
                (#[trigger] profiles[i]).profile_name(),
                name,
            ) implies without_name(profiles, name).contains(profiles[i]) by {
            if i < front.len() {
                assert(front[i] == profiles[i]);
                assert(rest.contains(front[i]));
                let k = choose|k: int| 0 <= k < rest.len() && rest[k] == front[i];
                if !same_name(profiles.last().profile_name(), name) {
                    assert(rest.push(profiles.last())[k] == rest[k]);
                }
            } else {
                assert(without_name(profiles, name) == rest.push(profiles.last()));
                assert(rest.push(profiles.last())[rest.len() as int] == profiles.last());
            }
        }
    }
}

/// Listing puts the profiles in name order, without losing or adding any.
pub proof fn law_sorting_orders_profiles<P: NamedProfile>(profiles: Seq<P>)
    ensures
        in_name_order(sort_by_name(profiles)),
        sort_by_name(profiles).to_multiset() == profiles.to_multiset(),
{
    lemma_sort_in_order(profiles);
    lemma_sort_multiset(profiles);
}

/// Saving a profile replaces every profile of its name: the saved list holds
/// it once, any profile in it with that name (ignoring ASCII case) is the
/// saved one, every profile of another name is kept, and the list is in name
/// order.
pub proof fn law_saving_replaces_same_name<P: NamedProfile>(profiles: Seq<P>, profile: P)
    ensures
        replace_by_name(profiles, profile).to_multiset().count(profile) == 1,
        forall|i: int|
            0 <= i < replace_by_name(profiles, profile).len() && same_name(
                (#[trigger] replace_by_name(profiles, profile)[i]).profile_name(),
                profile.profile_name(),
            ) ==> replace_by_name(profiles, profile)[i] == profile,
        forall|i: int|
            0 <= i < profiles.len() && !same_name(
                (#[trigger] profiles[i]).profile_name(),
                profile.profile_name(),
            ) ==> replace_by_name(profiles, profile).contains(profiles[i]),
        in_name_order(replace_by_name(profiles, profile)),
{
    broadcast use group_to_multiset_ensures;

    let name = profile.profile_name();
    let kept = without_name(profiles, name);
    let saved = kept.push(profile);
    let result = replace_by_name(profiles, profile);
    lemma_without_name(profiles, name);
    lemma_sort_multiset(saved);
    lemma_sort_in_order(saved);
    assert(same_name(name, name));
    assert(!kept.contains(profile)) by {
        if kept.contains(profile) {
            let k = choose|k: int| 0 <= k < kept.len() && kept[k] == profile;
            assert(!same_name(kept[k].profile_name(), name));
        }
    }
    assert(kept.to_multiset().count(profile) == 0);
    assert forall|i: int|
        0 <= i < result.len() && same_name(
            (#[trigger] result[i]).profile_name(),
            name,
        ) implies result[i] == profile by {
        let e = result[i];
        assert(result.to_multiset().count(e) > 0);
        if e != profile {
            assert(kept.to_multiset().count(e) > 0);
            let k = choose|k: int| 0 <= k < kept.len() && kept[k] == e;
            assert(!same_name(kept[k].profile_name(), name));
        }
    }
    assert forall|i: int|
        0 <= i < profiles.len() && !same_name(
            (#[trigger] profiles[i]).profile_name(),
            name,
        ) implies result.contains(profiles[i]) by {
        assert(kept.contains(profiles[i]));
        assert(kept.to_multiset().count(profiles[i]) > 0);
        assert(result.to_multiset().count(profiles[i]) > 0);
    }
}

} // verus!
