use aurora_forge::error::EditError;
use aurora_forge::profile_store::{
    list_checked_build_profiles, list_checked_launch_profiles, store_checked_build_profile,
    store_checked_launch_profile, order_build_profiles, order_launch_profiles, replace_profile, sort_profiles,
    store_build_profile, store_launch_profile,
};
use aurora_forge::profiles::{
    check_build_profile, BuildProfilePaths, DependencyPath, validate_launch_profile, ModuleBuildProfile, NwnLaunchMode, NwnLaunchProfile};

fn build(name: &str, output: &str) -> ModuleBuildProfile {
    ModuleBuildProfile {
        name: name.to_owned(),
        output_name: output.to_owned(),
        block_on_warnings: false,
        deploy_development: false,
        hak_files: Vec::new(),
        custom_tlk: None,
    }
}

fn launch(name: &str) -> NwnLaunchProfile {
    NwnLaunchProfile {
        name: name.to_owned(),
        mode: NwnLaunchMode::Server,
        executable_path: "bin/nwserver.exe".to_owned(),
        working_directory: "bin".to_owned(),
        arguments: vec!["-module".to_owned(), "opennever-test".to_owned()],
    }
}

fn build_names(profiles: &[ModuleBuildProfile]) -> Vec<&str> {
    profiles.iter().map(|p| p.name.as_str()).collect()
}

#[test]
fn profiles_are_listed_by_name_ignoring_case_and_stably() {
    let sorted = sort_profiles(vec![
        build("beta", "b.mod"),
        build("Alpha", "a.mod"),
        build("ALPHA", "c.mod"),
        build("_x", "x.mod"),
    ]);
    assert_eq!(build_names(&sorted), vec!["_x", "Alpha", "ALPHA", "beta"]);
    assert_eq!(sorted[1].output_name, "a.mod");
}

#[test]
fn saving_a_profile_replaces_the_one_of_the_same_name() {
    let saved = vec![build("Release", "old.mod"), build("Debug", "debug.mod")];
    let stored = store_build_profile(saved, build("RELEASE", "new.mod")).expect("stored");
    assert_eq!(build_names(&stored), vec!["Debug", "RELEASE"]);
    assert_eq!(stored[1].output_name, "new.mod");
}

#[test]
fn saving_checks_the_new_profile_and_the_saved_ones() {
    let bad_new = store_build_profile(Vec::new(), build("x", "x.hak"));
    assert_eq!(bad_new, Err(EditError::BuildProfileInvalid));
    let bad_saved = store_build_profile(vec![build(" ", "a.mod")], build("x", "x.mod"));
    assert_eq!(bad_saved, Err(EditError::BuildProfileInvalid));
    assert_eq!(order_build_profiles(vec![build("a", "a.txt")]), Err(EditError::BuildProfileInvalid));
    assert_eq!(
        order_build_profiles(vec![build("b", "b.mod"), build("a", "a.mod")]).map(|l| l.len()),
        Ok(2)
    );
}

#[test]
fn one_launch_profile_is_kept_per_name() {
    let profile = launch("Serveur local");
    let stored = store_launch_profile(Vec::new(), &[], profile.clone(), (true, true))
        .expect("save launch profile");
    assert_eq!(stored, vec![profile.clone()]);
    let again = store_launch_profile(stored, &[(true, true)], launch("serveur LOCAL"), (true, true))
        .expect("save again");
    assert_eq!(again.len(), 1);
    assert_eq!(again[0].name, "serveur LOCAL");
}

#[test]
fn launch_profiles_need_their_paths() {
    assert_eq!(
        store_launch_profile(Vec::new(), &[], launch("a"), (false, true)),
        Err(EditError::LaunchProfileInvalid)
    );
    assert_eq!(
        order_launch_profiles(vec![launch("b"), launch("a")], &[(true, true), (true, false)]),
        Err(EditError::LaunchProfileInvalid)
    );
    let listed = order_launch_profiles(vec![launch("b"), launch("a")], &[(true, true), (true, true)])
        .expect("listed");
    assert_eq!(listed[0].name, "a");
}

#[test]
fn replacing_keeps_other_names() {
    let stored = replace_profile(
        vec![build("c", "c.mod"), build("a", "a.mod"), build("B", "b.mod")],
        build("b", "new.mod"),
    );
    assert_eq!(build_names(&stored), vec!["a", "b", "c"]);
}

#[test]
fn persists_only_bounded_nwn_launch_profiles() {
    let profile = NwnLaunchProfile {
        name: "Serveur local".into(),
        mode: NwnLaunchMode::Server,
        executable_path: "workspace/nwserver.exe".into(),
        working_directory: "workspace".into(),
        arguments: vec!["-module".into(), "opennever-test".into()],
    };
    assert_eq!(validate_launch_profile(&profile, true, true), Ok(()));
    assert_eq!(store_launch_profile(Vec::new(), &[], profile.clone(), (true, true)), Ok(vec![profile]));
}

fn plain_paths() -> BuildProfilePaths {
    BuildProfilePaths { output_component_count: 1, hak_files: Vec::new(), custom_tlk: None }
}

#[test]
fn build_profiles_are_judged_on_the_platform_answers() {
    let mut with_hak = build("Release", "release.mod");
    with_hak.hak_files = vec!["tiles.hak".to_owned()];
    let answer = |count: usize, extension: Option<&str>| BuildProfilePaths {
        output_component_count: 1,
        hak_files: vec![DependencyPath { component_count: count, extension: extension.map(|e| e.to_owned()) }],
        custom_tlk: None,
    };
    assert_eq!(check_build_profile(&with_hak, &answer(1, Some("HAK"))), Ok(()));
    assert_eq!(check_build_profile(&with_hak, &answer(2, Some("hak"))), Err(EditError::DependencyNameInvalid));
    assert_eq!(check_build_profile(&with_hak, &answer(1, Some("tlk"))), Err(EditError::DependencyNameInvalid));
    let nested = BuildProfilePaths { output_component_count: 2, ..answer(1, None) };
    assert_eq!(check_build_profile(&with_hak, &nested), Err(EditError::BuildProfileInvalid));

    let listed = list_checked_build_profiles(
        vec![build("b", "b.mod"), build("A", "a.mod")],
        &[plain_paths(), plain_paths()],
    )
    .expect("listed");
    assert_eq!(build_names(&listed), vec!["A", "b"]);
    assert_eq!(
        list_checked_build_profiles(vec![build("b", "b.mod"), with_hak.clone()], &[plain_paths(), answer(3, None)]),
        Err(EditError::DependencyNameInvalid)
    );
    let stored = store_checked_build_profile(
        vec![build("release", "old.mod"), build("Debug", "d.mod")],
        &[plain_paths(), plain_paths()],
        build("RELEASE", "new.mod"),
        &plain_paths(),
    )
    .expect("stored");
    assert_eq!(build_names(&stored), vec!["Debug", "RELEASE"]);
    assert_eq!(
        store_checked_build_profile(Vec::new(), &[], build("x", "x.mod"), &BuildProfilePaths { output_component_count: 0, ..plain_paths() }),
        Err(EditError::BuildProfileInvalid)
    );
}

#[test]
fn launch_profiles_are_judged_on_the_platform_names() {
    let names = |list: &[Option<&str>]| list.iter().map(|n| n.map(|t| t.to_owned())).collect::<Vec<_>>();
    let listed = list_checked_launch_profiles(
        vec![launch("b"), launch("a")],
        &[(true, true), (true, true)],
        &names(&[Some("NWSERVER.EXE"), Some("nwserver.exe")]),
    )
    .expect("listed");
    assert_eq!(listed.iter().map(|p| p.name.as_str()).collect::<Vec<_>>(), vec!["a", "b"]);
    assert_eq!(
        list_checked_launch_profiles(vec![launch("b")], &[(true, true)], &names(&[Some("nwmain.exe")])),
        Err(EditError::LaunchProfileInvalid)
    );
    assert_eq!(
        list_checked_launch_profiles(vec![launch("b")], &[(true, true)], &names(&[None])),
        Err(EditError::LaunchProfileInvalid)
    );
    let stored = store_checked_launch_profile(
        vec![launch("Local")],
        &[(true, true)],
        &names(&[Some("nwserver.exe")]),
        launch("local"),
        (true, true),
        Some("nwserver.exe"),
    )
    .expect("stored");
    assert_eq!(stored, vec![launch("local")]);
    assert_eq!(
        store_checked_launch_profile(Vec::new(), &[], &[], launch("x"), (true, true), Some("other.exe")),
        Err(EditError::LaunchProfileInvalid)
    );
}
