use rem_launcher::accounts::{add_account, epoch_text, remove_account, Account, AccountKind};
use rem_launcher::instances::{
    check_download_sha512, create_instance, delete_instance, verify_report, InstalledMod, Instance,
};
use rem_launcher::servers::{add_server, remove_server};

fn instance(name: &str) -> Instance {
    Instance {
        name: name.to_string(),
        game_version: "1.21".to_string(),
        loader: "quilt".to_string(),
        jvm_args: Some("-Xss2m".to_string()),
        max_memory_mb: Some(2048),
    }
}

fn profile(id: &str, name: &str) -> Account {
    Account {
        id: id.to_string(),
        kind: AccountKind::Offline,
        mc_name: name.to_string(),
        uuid: format!("uuid-{id}"),
        ms_refresh: None,
        last_used: None,
        skin_url: None,
        cape_id: None,
    }
}

fn ids(v: &[Account]) -> Vec<(String, String)> {
    v.iter().map(|a| (a.id.clone(), a.mc_name.clone())).collect()
}

#[test]
fn delete_after_create_restores_store() {
    let all = vec![instance("alpha"), instance("beta")];
    let created = create_instance(all, "  gamma ", "1.21".into(), "quilt".into()).unwrap();
    assert_eq!(created.len(), 3);
    assert_eq!(created[2].name, "gamma");
    let back = delete_instance(created, " gamma").unwrap();
    let names: Vec<&str> = back.iter().map(|i| i.name.as_str()).collect();
    assert_eq!(names, vec!["alpha", "beta"]);
    assert_eq!(back[0].jvm_args.as_deref(), Some("-Xss2m"));
}

#[test]
fn remove_after_add_account_equals_remove_alone() {
    let all = || vec![profile("a", "Alex"), profile("b", "Steve"), profile("a", "Old")];
    let added = add_account(all(), profile("a", "New"));
    assert_eq!(ids(&remove_account(added, "a")), ids(&remove_account(all(), "a")));
}

#[test]
fn adding_an_account_twice_is_adding_it_once() {
    let all = || vec![profile("x", "One"), profile("y", "Two")];
    let once = add_account(all(), profile("x", "Three"));
    let twice = add_account(add_account(all(), profile("x", "Three")), profile("x", "Three"));
    assert_eq!(ids(&once), ids(&twice));
    assert_eq!(ids(&once), vec![("y".to_string(), "Two".to_string()), ("x".to_string(), "Three".to_string())]);
}

#[test]
fn added_server_is_the_only_one_with_its_id_and_removal_undoes_it() {
    let base = add_server(vec![], "Lobby", "lobby.example.net").unwrap();
    let base = add_server(base, "Mini", "mini.example.net:25570").unwrap();
    let added = add_server(base.clone(), "Again", "LOBBY.example.net").unwrap();
    let with_id = added.iter().filter(|s| s.id == "server:lobby.example.net").count();
    assert_eq!(with_id, 1);
    assert_eq!(added.last().unwrap().name, "Again");
    let removed_after: Vec<String> =
        remove_server(added, "server:lobby.example.net").iter().map(|s| s.id.clone()).collect();
    let removed_alone: Vec<String> =
        remove_server(base, "server:lobby.example.net").iter().map(|s| s.id.clone()).collect();
    assert_eq!(removed_after, removed_alone);
    assert_eq!(removed_after, vec!["server:mini.example.net:25570".to_string()]);
}

fn entry(pid: &str, file: &str) -> InstalledMod {
    InstalledMod {
        project_id: pid.to_string(),
        version_number: "2.0".to_string(),
        file_name: file.to_string(),
        url: None,
        sha512: None,
        content_type: None,
    }
}

#[test]
fn verify_counts_each_entry_once() {
    let lock = vec![entry("p", "a.jar"), entry("q", "b.jar"), entry("r", "c.jar"), entry("s", "d.jar")];
    let disk = vec!["mods/a.jar".to_string(), "c.jar".to_string(), "mods/zz.jar".to_string()];
    let report = verify_report(&lock, disk);
    assert_eq!(report.ok_tracked, 2);
    assert_eq!(report.missing_files, vec!["b.jar".to_string(), "d.jar".to_string()]);
    assert_eq!(report.ok_tracked + report.missing_files.len(), lock.len());
    assert_eq!(report.untracked_files, vec!["mods/zz.jar".to_string()]);
}

#[test]
fn epoch_stamp() {
    assert_eq!(epoch_text(Some(1_700_000_123)), "1700000123");
    assert_eq!(epoch_text(Some(0)), "0");
    assert_eq!(epoch_text(None), "0");
}

#[test]
fn sha512_download_check() {
    let bytes = b"hello";
    let hex = "9b71d224bd62f3785d96d46ad3ea3d73319bfbc2890caadae2dff72519673ca72323c3d99ba5c11d7c7acc6e14b8c5da0c4663475c2e5c3adef46f73bcdec043".to_string();
    assert_eq!(check_download_sha512(bytes, None, "f.jar").unwrap_err(), "missing sha512 for f.jar");
    assert!(check_download_sha512(bytes, Some(&hex), "f.jar").is_ok());
    assert!(check_download_sha512(bytes, Some(&hex.to_uppercase()), "f.jar").is_ok());
    assert_eq!(
        check_download_sha512(b"hellO", Some(&hex), "f.jar").unwrap_err(),
        "sha512 mismatch for f.jar"
    );
}
