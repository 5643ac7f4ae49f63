use rem_launcher::backups::{backup_entry_allowed, backup_request, create_backup_name, listed_backup};
use rem_launcher::install::Instance;
use rem_launcher::instances::content_item_target;
use rem_launcher::models::SearchQuery;
use rem_launcher::modpacks::{checked_pack_instance_stem, override_target, safe_rel};
use rem_launcher::modrinth::search_path;
use rem_launcher::servers::{add_server, valid_address};
use std::path::PathBuf;

#[test]
fn addresses_reject_every_whitespace() {
    assert!(!valid_address("play\texample.com"));
    assert!(!valid_address("play\u{3000}example.com"));
    assert!(!valid_address("play\u{a0}example.com"));
    assert!(valid_address("play.example.com:25565"));
    assert_eq!(add_server(vec![], "S", "a\u{2003}b").unwrap_err(), "invalid server address");
}

#[test]
fn pack_instance_names_pass_the_instance_guard() {
    assert_eq!(checked_pack_instance_stem("", "/../../a"), None);
    assert_eq!(checked_pack_instance_stem("", "..").as_deref(), Some("pack-.."));
    assert_eq!(checked_pack_instance_stem("", "a:b"), None);
    assert_eq!(checked_pack_instance_stem("Fabulously Optimized", "x").as_deref(), Some("Fabulously-Optimized"));
}

#[test]
fn search_sends_the_sort_order() {
    let q = |sort: Option<&str>| SearchQuery {
        text: "sodium".into(),
        limit: 10,
        sort: sort.map(|s| s.to_string()),
        ..Default::default()
    };
    assert_eq!(search_path(&q(None)), "/search?query=sodium&limit=10&offset=0");
    assert_eq!(search_path(&q(Some(""))), "/search?query=sodium&limit=10&offset=0");
    assert_eq!(search_path(&q(Some("downloads"))), "/search?query=sodium&limit=10&offset=0&index=downloads");
    assert_ne!(search_path(&q(Some("newest"))), search_path(&q(None)));
}

#[test]
fn mod_paths_are_one_normal_component() {
    let i = Instance {
        name: "t".into(),
        game_version: "1.21".into(),
        loader: "fabric".into(),
        dir: PathBuf::from("/data/t"),
    };
    assert!(i.safe_mod_path("/").is_none());
    assert!(i.safe_mod_path("x/../../evil.jar").is_none());
    assert!(i.safe_mod_path("..").is_none());
    assert!(i.safe_mod_path("/etc/passwd").is_none());
    assert_eq!(i.safe_mod_path("lithium.jar").unwrap(), PathBuf::from("/data/t/mods/lithium.jar"));
}

#[test]
fn written_pack_and_backup_paths_stay_below() {
    assert_eq!(safe_rel("./mods/a.jar").as_deref(), Some("./mods/a.jar"));
    assert_eq!(safe_rel("config//x.toml").as_deref(), Some("config//x.toml"));
    assert_eq!(override_target("overrides/", "overrides/"), None);
    assert_eq!(override_target("overrides/config/a.txt", "overrides/").as_deref(), Some("config/a.txt"));
    assert!(!backup_entry_allowed(""));
    assert!(backup_entry_allowed("world/region/r.0.0.mca"));
    assert!(backup_entry_allowed("world/"));
}

#[test]
fn content_removal_checks_the_instance_name() {
    assert_eq!(content_item_target("../../x", "mods/a.jar").unwrap_err(), "invalid instance name");
    let (d, l) = content_item_target("survival", "mods/a.jar").unwrap();
    assert_eq!((d.as_str(), l.as_str()), ("mods", "a.jar"));
    assert_eq!(content_item_target("survival", "a.jar").unwrap_err(), "content path must include a directory");
}

#[test]
fn backup_commands_check_names() {
    assert_eq!(create_backup_name("../x", None, 5).unwrap_err(), "invalid instance name");
    assert_eq!(create_backup_name("world", Some("My Save"), 5).unwrap(), "My_Save-5.zip");
    assert_eq!(backup_request("world", "../a.zip").unwrap_err(), "invalid backup file name");
    assert_eq!(backup_request("a/b", "w-1.zip").unwrap_err(), "invalid instance name");
    assert!(backup_request("world", "w-1.zip").is_ok());
    let e = listed_backup("w-1.zip", 10, Some(42)).unwrap();
    assert_eq!((e.file_name.as_str(), e.size_bytes, e.created_at.as_str()), ("w-1.zip", 10, "42"));
    assert_eq!(listed_backup("w-1.zip", 0, None).unwrap().created_at, "0");
    assert!(listed_backup("notes.txt", 3, Some(1)).is_none());
}
