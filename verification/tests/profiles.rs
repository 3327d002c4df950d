use minework::cli::profile::create::new_profile;
use minework::cli::profile::delete::{
    is_delete_all, requested_names, selection_names, split_names, DeleteError, DeletedProfile, DeletionPrompt,
};
use minework::cli::profile::info::{picker_ignored, InfoError, InfoTarget, PropertyRow};
use minework::cli::profile::supported_mod_loaders;
use minework::cli::{colors_disabled, Args, ProfileCommand, Shell, SubCommand};
use minework::config::{Config, InitStep, ModOptions, ProfileConfig, ProfileOptions};

fn strings(v: &[&str]) -> Vec<String> {
    v.iter().map(|s| s.to_string()).collect()
}

fn profile(name: &str) -> ProfileOptions {
    new_profile(name.to_string(), "1.21.5".to_string(), "/games/mc".to_string(), "Fabric".to_string())
}

fn config_with(names: &[&str], active: Option<usize>) -> ProfileConfig {
    ProfileConfig { active, list: names.iter().map(|n| profile(n)).collect() }
}

fn names_of(c: &ProfileConfig) -> Vec<String> {
    c.list.iter().map(|p| p.name.clone()).collect()
}

#[test]
fn default_config_is_empty() {
    let c = Config::default();
    assert_eq!(c.version, 1);
    assert_eq!(c.profile.active, None);
    assert!(c.profile.list.is_empty());
}

#[test]
fn init_step_follows_the_path() {
    assert_eq!(Config::init_step(true, false), InitStep::NotAFile);
    assert_eq!(Config::init_step(false, false), InitStep::CreateDefault);
    assert_eq!(Config::init_step(true, true), InitStep::Read);
}

#[test]
fn new_profile_has_no_mods() {
    let p = profile("MineWorld");
    assert_eq!(p.name, "MineWorld");
    assert_eq!(p.game.version, "1.21.5");
    assert_eq!(p.game.directory, "/games/mc");
    assert_eq!(p.mod_config.loader, "Fabric");
    assert!(p.mod_config.list.is_empty());
}

#[test]
fn first_profile_becomes_active() {
    let mut c = config_with(&[], None);
    c.add_profile(profile("a"));
    assert_eq!(c.active, Some(0));
    c.add_profile(profile("b"));
    assert_eq!(c.active, Some(0));
    assert_eq!(names_of(&c), strings(&["a", "b"]));
    let mut d = config_with(&["x"], None);
    d.add_profile(profile("y"));
    assert_eq!(d.active, None);
}

#[test]
fn clear_profiles_removes_everything() {
    let mut c = config_with(&["a", "b", "c"], Some(1));
    assert_eq!(c.clear_profiles(), 3);
    assert!(c.list.is_empty());
    assert_eq!(c.active, None);
}

#[test]
fn position_finds_the_first_match() {
    let c = config_with(&["a", "b", "a"], None);
    assert_eq!(c.position("a"), Some(0));
    assert_eq!(c.position("b"), Some(1));
    assert_eq!(c.position("z"), None);
    assert_eq!(c.names(), strings(&["a", "b", "a"]));
    assert!(!c.is_active(0));
}

#[test]
fn split_names_split_at_commas() {
    assert_eq!(split_names("MineWorld, TestWorld"), strings(&["MineWorld", "TestWorld"]));
    assert_eq!(split_names("(all)"), strings(&["(all)"]));
    assert_eq!(split_names("a,,b"), strings(&["a", "", "b"]));
    assert_eq!(split_names(""), strings(&[""]));
}

#[test]
fn requested_names_take_every_value() {
    assert_eq!(
        requested_names(&strings(&["MineWorld", "TestWorld"])),
        strings(&["MineWorld", "TestWorld"])
    );
    assert_eq!(requested_names(&strings(&["a,b", " c "])), strings(&["a", "b", "c"]));
    assert_eq!(requested_names(&strings(&["(all)"])), strings(&["(all)"]));
    assert_eq!(requested_names(&strings(&[])), strings(&[]));
}

#[test]
fn delete_all_is_the_single_marker() {
    assert!(is_delete_all(&strings(&["(all)"])));
    assert!(!is_delete_all(&strings(&["(all)", "a"])));
    assert!(!is_delete_all(&strings(&["a"])));
    assert_eq!(selection_names(strings(&["a", "(all)"])), strings(&["(all)"]));
    assert_eq!(selection_names(strings(&["a", "b"])), strings(&["a", "b"]));
}

#[test]
fn deletion_needs_profiles() {
    let empty = config_with(&[], None);
    assert_eq!(empty.ensure_deletable(), Err(DeleteError::NoProfiles));
    assert_eq!(DeleteError::NoProfiles.message(), "No profiles found to delete");
    assert_eq!(config_with(&["a"], None).ensure_deletable(), Ok(()));
    assert_eq!(config_with(&["a", "b"], None).deletion_choices(), strings(&["(all)", "a", "b"]));
}

#[test]
fn plan_deletion_sorts_and_dedups() {
    let c = config_with(&["a", "b", "c"], None);
    assert_eq!(c.plan_deletion(&strings(&["c", "a", "c"])), Ok(vec![0, 2]));
    assert_eq!(c.plan_deletion(&strings(&[])), Ok(vec![]));
}

#[test]
fn plan_deletion_reports_the_first_unknown_name() {
    let c = config_with(&["a", "b"], None);
    let e = c.plan_deletion(&strings(&["a", "x", "y"])).unwrap_err();
    assert_eq!(e, DeleteError::NotFound { name: "x".to_string() });
    assert_eq!(e.message(), "Profile \"x\" not found");
}

#[test]
fn deletion_prompt_names_one_profile() {
    let c = config_with(&["a", "b"], Some(1));
    assert_eq!(c.deletion_prompt(&vec![1]), DeletionPrompt::ActiveProfile { name: "b".to_string() });
    assert_eq!(c.deletion_prompt(&vec![0]), DeletionPrompt::Profile { name: "a".to_string() });
    assert_eq!(c.deletion_prompt(&vec![0, 1]), DeletionPrompt::Profiles { count: 2 });
    assert_eq!(c.deletion_prompt(&vec![]), DeletionPrompt::Profiles { count: 0 });
}

#[test]
fn delete_positions_keeps_the_others_in_order() {
    let mut c = config_with(&["a", "b", "c", "d"], Some(2));
    let deleted = c.delete_positions(&vec![0, 3]);
    assert_eq!(names_of(&c), strings(&["b", "c"]));
    assert_eq!(c.active, Some(1));
    assert_eq!(
        deleted,
        vec![
            DeletedProfile { name: "a".to_string(), was_active: false },
            DeletedProfile { name: "d".to_string(), was_active: false },
        ]
    );
}

#[test]
fn deleting_the_active_profile_leaves_none_active() {
    let mut c = config_with(&["a", "b", "c"], Some(1));
    let deleted = c.delete_positions(&vec![1]);
    assert_eq!(names_of(&c), strings(&["a", "c"]));
    assert_eq!(c.active, None);
    assert_eq!(deleted, vec![DeletedProfile { name: "b".to_string(), was_active: true }]);
}

#[test]
fn active_profile_is_still_active_after_deletion() {
    let mut c = config_with(&["a", "b", "c", "d", "e"], Some(3));
    let before = c.list[3].name.clone();
    let plan = c.plan_deletion(&strings(&["b", "a", "e"])).unwrap();
    c.delete_positions(&plan);
    assert_eq!(c.list.len(), 2);
    assert_eq!(c.list[c.active.unwrap()].name, before);
}

#[test]
fn dangling_active_position_moves_down() {
    let mut c = config_with(&["a", "b"], Some(10));
    c.delete_positions(&vec![1]);
    assert_eq!(c.active, Some(9));
}

#[test]
fn adding_then_deleting_restores_the_profiles() {
    let mut c = config_with(&["a", "b"], Some(1));
    let before = config_with(&["a", "b"], Some(1));
    c.add_profile(profile("new"));
    let plan = c.plan_deletion(&strings(&["new"])).unwrap();
    c.delete_positions(&plan);
    assert_eq!(c, before);
    let mut e = config_with(&[], None);
    e.add_profile(profile("only"));
    e.delete_positions(&vec![0]);
    assert_eq!(e, config_with(&[], None));
}

#[test]
fn info_target_prefers_the_name() {
    let c = config_with(&["a", "b"], Some(0));
    assert_eq!(c.info_target(Some("b"), true, false), Ok(InfoTarget::Profile(1)));
    let e = c.info_target(Some("z"), false, false).unwrap_err();
    assert_eq!(e, InfoError::NotFound { name: "z".to_string() });
    assert_eq!(e.message(), "Profile \"z\" not found");
}

#[test]
fn info_target_picker_and_active() {
    let c = config_with(&["a", "b"], Some(1));
    assert_eq!(c.info_target(None, true, false), Ok(InfoTarget::Pick(strings(&["a", "b"]))));
    assert_eq!(c.info_target(None, true, true), Ok(InfoTarget::Profile(1)));
    assert_eq!(c.info_target(None, false, false), Ok(InfoTarget::Profile(1)));
    assert!(picker_ignored(true, true));
    assert!(!picker_ignored(true, false));
    let none_active = config_with(&["a"], None);
    assert_eq!(none_active.info_target(None, false, false), Err(InfoError::NoActive));
    assert_eq!(InfoError::NoActive.message(), "No active profile set");
    let empty = config_with(&[], None);
    assert_eq!(empty.info_target(None, true, false), Err(InfoError::NoProfiles));
    assert_eq!(InfoError::NoProfiles.message(), "No profiles found");
    assert_eq!(c.picked_profile("b"), Ok(1));
    assert_eq!(c.picked_profile("q"), Err(InfoError::SelectionMissing));
    assert_eq!(InfoError::SelectionMissing.message(), "Selected profile should exist");
}

fn row(p: &str, v: &str) -> PropertyRow {
    PropertyRow { property: p.to_string(), value: v.to_string() }
}

#[test]
fn detail_rows_describe_the_profile() {
    let mut p = profile("MineWorld");
    p.mod_config.list.push(ModOptions {
        name: "Sodium".to_string(),
        from: "modrinth".to_string(),
        id: "AANobbMI".to_string(),
    });
    assert_eq!(
        p.detail_rows(true),
        vec![
            row("Profile name", "MineWorld (active \u{2713})"),
            row("Minecraft version", "1.21.5"),
            row("Minecraft directory", "/games/mc"),
            row("Mod loader", "Fabric"),
            row("# of mods installed", "1"),
        ]
    );
    assert_eq!(p.detail_rows(false)[0], row("Profile name", "MineWorld"));
}

#[test]
fn listing_numbers_the_profiles_from_one() {
    let c = config_with(&["a", "b"], Some(1));
    let l = c.listing();
    assert_eq!(l.len(), 2);
    assert!(!l[0].active && l[1].active);
    assert_eq!(l[1].rows[0], row("Profile #", "2"));
    assert_eq!(l[1].rows[1], row("Profile name", "b (active \u{2713})"));
    assert_eq!(l[0].rows.len(), 6);
    assert_eq!(l[0].rows[5], row("# of mods installed", "0"));
}

#[test]
fn mod_options_display() {
    let m = ModOptions { name: "Sodium".to_string(), from: "modrinth".to_string(), id: "AANobbMI".to_string() };
    assert_eq!(m.to_display_string(), "Sodium (AANobbMI)");
}

#[test]
fn mod_loaders_are_none_and_fabric() {
    assert_eq!(supported_mod_loaders(), strings(&["None", "Fabric"]));
}

#[test]
fn colors_follow_flag_and_environment() {
    assert!(colors_disabled(true, None));
    assert!(colors_disabled(false, Some("1")));
    assert!(!colors_disabled(false, Some("")));
    assert!(!colors_disabled(false, None));
}

#[test]
fn arguments_hold_the_subcommand() {
    let a = Args {
        subcommand: SubCommand::Profile(ProfileCommand::Info { name: None, picker: true }),
        config_file: "config.json".to_string(),
        no_color: false,
        no_location_section: false,
        no_backtrace_section: false,
        non_interactive: true,
    };
    assert_eq!(a.subcommand, SubCommand::Profile(ProfileCommand::Info { name: None, picker: true }));
    assert_ne!(SubCommand::Completion(Shell::Bash), SubCommand::Completion(Shell::Nushell));
}
