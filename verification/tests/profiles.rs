use aurora_forge::error::EditError;
use aurora_forge::profiles::{
    check_launch_profile, launch_executable, safe_profile_name, validate_build_profile,
    validate_dependency_name, validate_launch_profile, ModuleBuildProfile, NwnLaunchMode,
    NwnLaunchProfile, PaletteManifest,
};

fn profile() -> ModuleBuildProfile {
    ModuleBuildProfile {
        name: "Release".to_owned(),
        output_name: "Adventure.MOD".to_owned(),
        block_on_warnings: true,
        deploy_development: false,
        hak_files: vec!["tiles.hak".to_owned()],
        custom_tlk: Some("custom.tlk".to_owned()),
    }
}

fn launch() -> NwnLaunchProfile {
    NwnLaunchProfile {
        name: "Local".to_owned(),
        mode: NwnLaunchMode::Client,
        executable_path: "bin/nwmain.exe".to_owned(),
        working_directory: "bin".to_owned(),
        arguments: vec!["+connect".to_owned(), "localhost".to_owned()],
    }
}

#[test]
fn build_profiles_need_a_single_mod_output_and_matching_dependencies() {
    let local = ModuleBuildProfile {
        name: "Test local".to_owned(),
        output_name: "test.mod".to_owned(),
        block_on_warnings: true,
        deploy_development: false,
        hak_files: vec!["custom.hak".to_owned()],
        custom_tlk: Some("dialog.tlk".to_owned()),
    };
    assert_eq!(validate_build_profile(&local), Ok(()));
    assert_eq!(validate_build_profile(&profile()), Ok(()));
    let mut invalid = profile();
    invalid.output_name = "module.erf".to_owned();
    assert_eq!(validate_build_profile(&invalid), Err(EditError::BuildProfileInvalid));
    let mut invalid = profile();
    invalid.output_name = "out/module.mod".to_owned();
    assert_eq!(validate_build_profile(&invalid), Err(EditError::BuildProfileInvalid));
    let mut invalid = profile();
    invalid.name = " ".to_owned();
    assert_eq!(validate_build_profile(&invalid), Err(EditError::BuildProfileInvalid));
    let mut invalid = profile();
    invalid.hak_files = vec!["tiles.erf".to_owned()];
    assert_eq!(validate_build_profile(&invalid), Err(EditError::DependencyNameInvalid));
    let mut invalid = profile();
    invalid.custom_tlk = Some("../dialog.tlk".to_owned());
    assert_eq!(validate_build_profile(&invalid), Err(EditError::DependencyNameInvalid));
}

#[test]
fn dependency_names_are_single_files_of_their_kind() {
    assert_eq!(validate_dependency_name("tiles.HAK", "hak"), Ok(()));
    assert_eq!(validate_dependency_name("tiles", "hak"), Ok(()));
    assert_eq!(validate_dependency_name("", "hak"), Err(EditError::DependencyNameInvalid));
    assert_eq!(validate_dependency_name("a/b.hak", "hak"), Err(EditError::DependencyNameInvalid));
}

#[test]
fn launch_profiles_need_the_right_executable_and_bounded_arguments() {
    assert_eq!(validate_launch_profile(&launch(), true, true), Ok(()));
    assert_eq!(validate_launch_profile(&launch(), false, true), Err(EditError::LaunchProfileInvalid));
    assert_eq!(validate_launch_profile(&launch(), true, false), Err(EditError::LaunchProfileInvalid));
    let mut server = launch();
    server.mode = NwnLaunchMode::Server;
    assert_eq!(validate_launch_profile(&server, true, true), Err(EditError::LaunchProfileInvalid));
    server.executable_path = "bin/NWServer.EXE".to_owned();
    assert_eq!(validate_launch_profile(&server, true, true), Ok(()));
    let mut noisy = launch();
    noisy.arguments = vec!["a\0b".to_owned()];
    assert_eq!(validate_launch_profile(&noisy, true, true), Err(EditError::LaunchProfileInvalid));
    let mut many = launch();
    many.arguments = vec!["x".to_owned(); 65];
    assert_eq!(validate_launch_profile(&many, true, true), Err(EditError::LaunchProfileInvalid));
    assert_eq!(check_launch_profile(&launch(), true, Some("NWMAIN.exe"), true), Ok(()));
    assert_eq!(check_launch_profile(&launch(), true, None, true), Err(EditError::LaunchProfileInvalid));
    assert_eq!(launch_executable(NwnLaunchMode::Server), "nwserver.exe");
}

#[test]
fn safe_profile_names_keep_lowercase_ascii_words() {
    assert_eq!(safe_profile_name("  My Profile! "), "my-profile");
    assert_eq!(safe_profile_name("Été 2"), "t--2");
    assert_eq!(safe_profile_name("---"), "");
    assert_eq!(safe_profile_name(&"A".repeat(70)), "a".repeat(64));
}

#[test]
fn the_standard_palette_lists_the_nine_object_categories() {
    let palette = PaletteManifest::standard();
    assert_eq!(palette.schema_version, 1);
    assert_eq!(palette.categories.len(), 9);
    assert_eq!(palette.categories[0].id, "creatures");
    assert_eq!(palette.categories[4].label, "Plaçables");
    assert_eq!(palette.categories[8].resource_types, vec![2058]);
}
