use rem_launcher::backups::valid_backup_file_name;
use rem_launcher::install::{install_profile_json, Instance, ProfileError};
use rem_launcher::instances::valid_instance_name;
use rem_launcher::models::SearchQuery;
use rem_launcher::providers::{CurseForgeProvider, ProviderError};
use rem_launcher::servers::{valid_address, valid_name};
use rem_launcher::text::hex_of;
use sha1::Digest;
use std::path::PathBuf;

#[test]
fn missing_key_errors() {
    let p = CurseForgeProvider::new(None);
    let q = SearchQuery::default();
    assert!(matches!(p.search(&q), Err(ProviderError::MissingApiKey)));
}

#[test]
fn rejects_non_zip() {
    assert!(matches!(install_profile_json(b"not zip"), Err(ProfileError::Zip(_))));
}

#[test]
fn rejects_traversal() {
    let i = Instance {
        name: "t".into(),
        game_version: "1.20.1".into(),
        loader: "fabric".into(),
        dir: PathBuf::from("/data/t"),
    };
    assert!(i.safe_mod_path("../evil.jar").is_none());
    assert!(i.safe_mod_path("a/b.jar").is_none());
    assert!(i.safe_mod_path("sodium.jar").is_some());
}

#[test]
fn hex_known() {
    let mut h = sha1::Sha1::new();
    h.update(b"abc");
    assert_eq!(hex_of(&h.finalize()), "a9993e364706816aba3e25717850c26c9cd0d89d");
}

#[test]
fn validates_backup_names() {
    assert!(valid_backup_file_name("worlds-123.zip"));
    assert!(valid_backup_file_name("my_world.zip"));
    assert!(!valid_backup_file_name(""));
    assert!(!valid_backup_file_name("worlds.tar"));
    assert!(!valid_backup_file_name("../evil.zip"));
    assert!(!valid_backup_file_name(".hidden.zip"));
    assert!(!valid_backup_file_name("a/b.zip"));
    assert!(!valid_backup_file_name("a\\b.zip"));
    assert!(!valid_backup_file_name("world:name.zip"));
}

#[test]
fn guards_traversal_and_specials() {
    assert!(valid_instance_name("survival"));
    assert!(!valid_instance_name(""));
    assert!(!valid_instance_name("../evil"));
    assert!(!valid_instance_name("a/b"));
    assert!(!valid_instance_name(".."));
    assert!(!valid_instance_name(".hidden"));
    assert!(!valid_instance_name("con:drive"));
    assert!(!valid_instance_name("a*b"));
}

#[test]
fn validates_server_names() {
    assert!(valid_name("Hypixel"));
    assert!(!valid_name(""));
    assert!(!valid_name("   "));
    assert!(!valid_name("a\nb"));
    assert!(!valid_name(&"x".repeat(81)));
}

#[test]
fn validates_server_addresses() {
    assert!(valid_address("play.example.com"));
    assert!(valid_address("play.example.com:25565"));
    assert!(!valid_address(""));
    assert!(!valid_address("play example.com"));
    assert!(!valid_address("play/example.com:25565"));
}
