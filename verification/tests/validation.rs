use minework::utils::validators::inquire_validators::{
    against_enum as enum_validator, directory_validation, is_non_empty, PathKind, Validation,
};
use minework::utils::validators::{
    against_enum, against_minecraft_versions, directory_check, valid_options_suggestion, DirectoryProblem, versions_suggestion, EnumError,
    VersionError,
};

fn strings(v: &[&str]) -> Vec<String> {
    v.iter().map(|s| s.to_string()).collect()
}

#[test]
fn inclusive_check_needs_a_known_value() {
    let loaders = strings(&["None", "Fabric"]);
    assert_eq!(against_enum(&loaders, "Fabric", None, None), Ok(()));
    assert_eq!(against_enum(&loaders, "Fabric", Some(true), None), Ok(()));
    let e = against_enum(&loaders, "Forge", None, Some("try Fabric".to_string())).unwrap_err();
    assert_eq!(
        e,
        EnumError::Invalid { entry: "Forge".to_string(), suggestion: Some("try Fabric".to_string()) }
    );
    assert_eq!(e.message(), "Invalid entry \"Forge\"");
}

#[test]
fn exclusive_check_refuses_duplicates() {
    let names = strings(&["MineWorld"]);
    assert_eq!(against_enum(&names, "Other", Some(false), None), Ok(()));
    let e = against_enum(&names, "MineWorld", Some(false), None).unwrap_err();
    assert_eq!(e, EnumError::Duplicate { entry: "MineWorld".to_string() });
    assert_eq!(e.message(), "\"MineWorld\" is a duplicate entry");
}

#[test]
fn messages_quote_and_escape_the_entry() {
    let e = EnumError::Duplicate { entry: "a\"b\n".to_string() };
    assert_eq!(e.message(), "\"a\\\"b\\n\" is a duplicate entry");
}

#[test]
fn unknown_version_lists_ten_and_counts_the_rest() {
    let versions: Vec<String> = (0..12).map(|i| format!("1.{}", i)).collect();
    assert_eq!(against_minecraft_versions(&versions, "1.3"), Ok(()));
    let e = against_minecraft_versions(&versions, "9.9").unwrap_err();
    assert_eq!(e.entry, "9.9");
    assert_eq!(e.listed, versions[..10].to_vec());
    assert_eq!(e.more, 2);
}

#[test]
fn unknown_version_among_few() {
    let versions = strings(&["1.21.5", "1.21.4"]);
    assert_eq!(
        against_minecraft_versions(&versions, "1.0"),
        Err(VersionError { entry: "1.0".to_string(), listed: versions.clone(), more: 0 })
    );
}

#[test]
fn enum_validator_messages() {
    let names = strings(&["a", "b"]);
    let unique = enum_validator(&names, Some(false));
    assert_eq!(unique.validate("a"), Validation::Invalid("\"a\" is a duplicate entry".to_string()));
    assert_eq!(unique.validate("c"), Validation::Valid);
    let member = enum_validator(&names, None);
    assert_eq!(
        member.validate("z"),
        Validation::Invalid("Invalid entry \"z\". Valid options:\n  \u{2022} a\n  \u{2022} b".to_string())
    );
    assert_eq!(member.validate("b"), Validation::Valid);
    assert!(member.inclusive && !unique.inclusive);
}

#[test]
fn non_empty_validator() {
    let v = is_non_empty("Profile name");
    assert_eq!(v.validate(" \t "), Validation::Invalid("Profile name cannot be empty".to_string()));
    assert_eq!(v.validate(" x "), Validation::Valid);
}

#[test]
fn default_suggestion_lists_every_option() {
    assert_eq!(
        valid_options_suggestion(&strings(&["None", "Fabric"])),
        "\n   Valid options include:\n     \u{2022} None\n     \u{2022} Fabric"
    );
    assert_eq!(valid_options_suggestion(&[]), "\n   Valid options include:\n");
}

#[test]
fn versions_suggestion_counts_the_rest() {
    assert_eq!(
        versions_suggestion(&strings(&["1.21.5", "1.21.4"]), 3, "curl | fzf"),
        "\n   Supported Minecraft versions include:\n     \u{2022} 1.21.5\n     \u{2022} 1.21.4\n     ... and 3 more.\n\n   Search all versions using:\n     curl | fzf"
    );
    assert_eq!(
        versions_suggestion(&strings(&["1.0"]), 0, "q"),
        "\n   Supported Minecraft versions include:\n     \u{2022} 1.0\n\n   Search all versions using:\n     q"
    );
}

#[test]
fn directory_verdicts() {
    assert_eq!(directory_validation(Ok(PathKind::Directory)), Validation::Valid);
    assert_eq!(
        directory_validation(Ok(PathKind::Missing)),
        Validation::Invalid("Path does not exist".to_string())
    );
    assert_eq!(
        directory_validation(Ok(PathKind::NotADirectory)),
        Validation::Invalid("Path is not a directory".to_string())
    );
    assert_eq!(
        directory_validation(Err("variable not found".to_string())),
        Validation::Invalid("Invalid path: variable not found".to_string())
    );
}

#[test]
fn game_directory_verdicts() {
    assert_eq!(directory_check(true, true), Ok(()));
    assert_eq!(directory_check(false, false), Err(DirectoryProblem::Missing));
    assert_eq!(directory_check(true, false), Err(DirectoryProblem::NotADirectory));
    assert_eq!(DirectoryProblem::Missing.message("\"/x\""), "Directory \"/x\" does not exist");
    assert_eq!(
        DirectoryProblem::NotADirectory.message("\"/x\""),
        "While \"/x\" exists, it is not a directory"
    );
}
