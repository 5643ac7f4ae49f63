use rem_launcher::accounts::{
    add_account, remove_account, safe_cache_key, scrub_for_storage, token_key, touch_account,
    Account, AccountKind,
};
use rem_launcher::backups::{
    backup_entry_allowed, backup_file_name, sort_backups, valid_backup_file_name, BackupEntry,
};
use rem_launcher::digest::{sha1_matches, sha512_matches};
use rem_launcher::install::{
    check_download_sha1, mod_file_name_allowed, InstallError, PathPart, ProfileError,
};
use rem_launcher::instances::{
    clone_instance, configure_instance, content_dir, create_instance, delete_instance,
    install_target, lock_after_install, lock_after_removal, mod_content_path, repair_lock,
    sort_listing, split_content_path, valid_file_name, verify_report, InstalledMod, Instance,
};
use rem_launcher::launch::{client_download, find_version_url, first_line, java_info, DownloadArtifact};
use rem_launcher::install::VersionEntry;
use rem_launcher::models::{ContentType, SearchQuery, VersionDependency};
use rem_launcher::modpacks::{
    checked_pack_instance_stem, file_hash_ok, file_wanted, override_target, pack_game_and_loader,
    pack_index_bytes, pack_instance_stem, pack_loader, pick_download, safe_rel, url_host_ok,
};
use rem_launcher::modrinth::{
    check_status, content_type_of, facet_str, project_from_full, project_from_hit,
    project_path, project_type_filter, projects_from_hits, search_path,
    version_from_full, versions_path, FullFile, FullProject, FullVersion, SearchHit,
};
use rem_launcher::providers::{CurseForgeProvider, ProviderError, ProviderId};
use rem_launcher::servers::{add_server, ping_address, record_ping, remove_server, ServerEntry};
use rem_launcher::text::{decimal, hex_of, trim};

fn inst(name: &str) -> Instance {
    Instance {
        name: name.to_string(),
        game_version: "1.20.1".to_string(),
        loader: "fabric".to_string(),
        jvm_args: None,
        max_memory_mb: None,
    }
}

fn locked(pid: &str, file: &str, ct: Option<&str>) -> InstalledMod {
    InstalledMod {
        project_id: pid.to_string(),
        version_number: "1.0".to_string(),
        file_name: file.to_string(),
        url: None,
        sha512: None,
        content_type: ct.map(|s| s.to_string()),
    }
}

fn names(v: &[Instance]) -> Vec<String> {
    v.iter().map(|i| i.name.clone()).collect()
}

fn strings(v: &[&str]) -> Vec<String> {
    v.iter().map(|s| s.to_string()).collect()
}

#[test]
fn trim_removes_unicode_whitespace() {
    assert_eq!(trim("  a b \t\n"), "a b");
    assert_eq!(trim("\u{3000}x\u{a0}"), "x");
    assert_eq!(trim("   "), "");
}

#[test]
fn lowercase_and_decimal_and_hex() {
    let saved = add_server(vec![], "S", "Play.Example.COM").unwrap();
    assert_eq!(saved[0].id, "server:play.example.com");
    assert_eq!(saved[0].address, "Play.Example.COM");
    assert_eq!(decimal(0), "0");
    assert_eq!(decimal(1700000000), "1700000000");
    assert_eq!(decimal(u64::MAX), "18446744073709551615");
    assert_eq!(hex_of(&[0x00, 0x0f, 0xa0, 0xff]), "000fa0ff");
}

#[test]
fn create_instance_rules() {
    let all = create_instance(vec![], "  survival ", "1.20.1".into(), "fabric".into()).unwrap();
    assert_eq!(names(&all), vec!["survival"]);
    assert_eq!(all[0].jvm_args, None);
    let err = create_instance(all.clone(), "survival", "1.20.1".into(), "quilt".into()).unwrap_err();
    assert_eq!(err, "instance already exists");
    let err = create_instance(all, "a/b", "1.20.1".into(), "quilt".into()).unwrap_err();
    assert_eq!(err, "instance name must be 1-64 chars without / \\ : * ? \" < > | or leading dots");
}

#[test]
fn instance_name_length_counts_bytes() {
    let ok = "x".repeat(64);
    let long = "x".repeat(65);
    assert!(rem_launcher::instances::valid_instance_name(&ok));
    assert!(!rem_launcher::instances::valid_instance_name(&long));
    // 22 three-byte characters: 66 bytes.
    assert!(!rem_launcher::instances::valid_instance_name(&"\u{4e16}".repeat(22)));
    assert!(rem_launcher::instances::valid_instance_name(&"\u{4e16}".repeat(21)));
}

#[test]
fn delete_and_clone_and_configure() {
    let all = vec![inst("a"), inst("b")];
    let all = delete_instance(all, " a ").unwrap();
    assert_eq!(names(&all), vec!["b"]);
    assert_eq!(delete_instance(all.clone(), "..").unwrap_err(), "invalid instance name");

    let mut src = inst("base");
    src.jvm_args = Some("-Xss4m".into());
    src.max_memory_mb = Some(6144);
    let all = vec![src];
    let cloned = clone_instance(all.clone(), "base", "copy").unwrap();
    assert_eq!(names(&cloned), vec!["base", "copy"]);
    assert_eq!(cloned[1].jvm_args.as_deref(), Some("-Xss4m"));
    assert_eq!(cloned[1].max_memory_mb, Some(6144));
    assert_eq!(
        clone_instance(all.clone(), "base", " base").unwrap_err(),
        "new name must be different from source name"
    );
    assert_eq!(
        clone_instance(all.clone(), "missing", "copy").unwrap_err(),
        "source instance does not exist"
    );
    assert_eq!(
        clone_instance(cloned.clone(), "base", "copy").unwrap_err(),
        "instance with this name already exists"
    );
    assert_eq!(clone_instance(all.clone(), "base", "x|y").unwrap_err(), "invalid instance name");

    let conf = configure_instance(cloned.clone(), "copy", Some(2048), Some("   ".into())).unwrap();
    assert_eq!(conf[1].max_memory_mb, Some(2048));
    assert_eq!(conf[1].jvm_args, None);
    assert_eq!(conf[0].max_memory_mb, Some(6144));
    let conf = configure_instance(conf, "copy", None, Some("-XX:+UseG1GC".into())).unwrap();
    assert_eq!(conf[1].jvm_args.as_deref(), Some("-XX:+UseG1GC"));
    assert_eq!(configure_instance(conf, "nope", None, None).unwrap_err(), "unknown instance");
}

#[test]
fn lockfile_install_replaces_file_and_project() {
    let lock = vec![
        locked("p1", "a.jar", None),
        locked("p2", "b.jar", None),
        locked("p3", "c.zip", Some("resourcepack")),
    ];
    let lock = lock_after_install(lock, locked("p2", "b2.jar", None));
    let files: Vec<&str> = lock.iter().map(|m| m.file_name.as_str()).collect();
    assert_eq!(files, vec!["a.jar", "c.zip", "b2.jar"]);
    let lock = lock_after_install(lock, locked("p9", "a.jar", None));
    let pids: Vec<&str> = lock.iter().map(|m| m.project_id.as_str()).collect();
    assert_eq!(pids, vec!["p3", "p2", "p9"]);
}

#[test]
fn content_paths() {
    assert_eq!(content_dir(Some("resourcepack")), "resourcepacks");
    assert_eq!(content_dir(Some("shader")), "shaderpacks");
    assert_eq!(content_dir(Some("datapack")), "datapacks");
    assert_eq!(content_dir(Some("mod")), "mods");
    assert_eq!(content_dir(None), "mods");
    assert_eq!(split_content_path("mods/a.jar").unwrap(), ("mods".to_string(), "a.jar".to_string()));
    assert_eq!(split_content_path("a.jar").unwrap_err(), "content path must include a directory");
    assert_eq!(split_content_path("saves/a.jar").unwrap_err(), "invalid content file name");
    assert_eq!(split_content_path("mods/x/a.jar").unwrap_err(), "invalid content file name");
    assert_eq!(split_content_path("mods/.a").unwrap_err(), "invalid content file name");
    assert_eq!(mod_content_path("a.jar"), "mods/a.jar");
    assert_eq!(mod_content_path("shaderpacks/s.zip"), "shaderpacks/s.zip");
    assert!(valid_file_name("sodium.jar"));
    assert!(!valid_file_name("a\\b.jar"));
    let lock = vec![locked("p1", "s.zip", Some("shader")), locked("p2", "s.zip", None)];
    let lock = lock_after_removal(lock, "shaderpacks", "s.zip");
    assert_eq!(lock.len(), 1);
    assert_eq!(lock[0].project_id, "p2");
}

#[test]
fn install_target_checks() {
    let all = vec![inst("survival")];
    let url = "https://cdn.modrinth.com/data/a.jar";
    let h = Some("abcd");
    assert_eq!(install_target(&all, "survival", "a.jar", url, h, Some("shader")).unwrap(), "shaderpacks");
    assert_eq!(install_target(&all, "survival", ".a.jar", url, h, None).unwrap_err(), "invalid file name");
    assert_eq!(install_target(&all, "creative", "a.jar", url, h, None).unwrap_err(), "unknown instance");
    assert_eq!(install_target(&all, "../x", "a.jar", url, h, None).unwrap_err(), "invalid instance name");
    assert_eq!(
        install_target(&all, "survival", "a.jar", "https://evil.example/a.jar", h, None).unwrap_err(),
        "download host not allowed"
    );
    assert_eq!(
        install_target(&all, "survival", "a.jar", "http://cdn.modrinth.com/a.jar", h, None).unwrap_err(),
        "download host not allowed"
    );
    assert_eq!(install_target(&all, "survival", "a.jar", url, None, None).unwrap_err(), "missing sha512 for a.jar");
}

#[test]
fn verify_then_repair_reports_nothing_missing() {
    let lock = vec![
        locked("p1", "a.jar", None),
        locked("p2", "gone.jar", None),
        locked("p3", "pack.zip", Some("resourcepack")),
    ];
    let disk = strings(&["mods/a.jar", "mods/extra.jar", "resourcepacks/pack.zip"]);
    let report = verify_report(&lock, disk.clone());
    assert_eq!(report.missing_files, vec!["gone.jar"]);
    assert_eq!(report.untracked_files, vec!["mods/extra.jar"]);
    assert_eq!(report.ok_tracked, 2);
    let repaired = repair_lock(lock, &report.missing_files);
    assert_eq!(repaired.len(), 2);
    let again = verify_report(&repaired, disk);
    assert!(again.missing_files.is_empty());
    assert_eq!(again.ok_tracked, 2);
}

#[test]
fn listing_is_sorted() {
    let v = sort_listing(strings(&["mods/b.jar", "datapacks/z.zip", "mods/a.jar", "mods/B.jar"]));
    assert_eq!(v, strings(&["datapacks/z.zip", "mods/B.jar", "mods/a.jar", "mods/b.jar"]));
}

fn account(id: &str, token: bool) -> Account {
    Account {
        id: id.to_string(),
        kind: AccountKind::Microsoft,
        mc_name: "Steve".to_string(),
        uuid: "u".to_string(),
        ms_refresh: if token { Some(serde_json::Value::String("secret".into())) } else { None },
        last_used: None,
        skin_url: None,
        cape_id: None,
    }
}

#[test]
fn account_store() {
    assert_eq!(token_key("abc"), "ms-token:abc");
    assert_eq!(safe_cache_key("msal-cache").as_deref(), Some("msal-cache"));
    assert_eq!(safe_cache_key("a.b"), None);
    assert_eq!(safe_cache_key("a/b"), None);
    assert_eq!(safe_cache_key(""), None);
    assert_eq!(safe_cache_key(&"k".repeat(129)), None);
    assert!(safe_cache_key(&"k".repeat(128)).is_some());

    let all = add_account(vec![account("a", false), account("b", false)], account("a", true));
    let ids: Vec<&str> = all.iter().map(|a| a.id.as_str()).collect();
    assert_eq!(ids, vec!["b", "a"]);
    let stored = scrub_for_storage(all);
    assert!(stored.iter().all(|a| a.ms_refresh.is_none()));
    let touched = touch_account(stored, "a", "1700000000");
    assert_eq!(touched[1].last_used.as_deref(), Some("1700000000"));
    assert_eq!(touched[0].last_used, None);
    let left = remove_account(touched, "b");
    assert_eq!(left.len(), 1);
    assert_eq!(left[0].id, "a");
}

#[test]
fn server_store() {
    let all = add_server(vec![], " Hypixel ", " Play.Example.com ").unwrap();
    assert_eq!(all[0].id, "server:play.example.com");
    assert_eq!(all[0].name, "Hypixel");
    assert_eq!(all[0].address, "Play.Example.com");
    let all = add_server(all, "Again", "play.example.com").unwrap();
    assert_eq!(all.len(), 1);
    assert_eq!(all[0].name, "Again");
    assert_eq!(add_server(all.clone(), "", "x").unwrap_err(), "server name must be 1-80 characters");
    assert_eq!(add_server(all.clone(), "n", "a b").unwrap_err(), "invalid server address");
    assert_eq!(ping_address(&all, "server:play.example.com").unwrap(), "play.example.com:25565");
    assert_eq!(ping_address(&all, "nope").unwrap_err(), "unknown server");
    let (all, entry) = record_ping(all, "server:play.example.com", 42).unwrap();
    assert_eq!(entry.last_ping_ms, Some(42));
    assert_eq!(all[0].last_ping_ms, Some(42));
    let with_port = vec![ServerEntry {
        id: "s".into(),
        name: "n".into(),
        address: "h:1234".into(),
        last_ping_ms: None,
    }];
    assert_eq!(ping_address(&with_port, "s").unwrap(), "h:1234");
    assert!(remove_server(all, "server:play.example.com").is_empty());
}

#[test]
fn backup_names() {
    assert_eq!(backup_file_name(None, 1700000000), "worlds-1700000000.zip");
    assert_eq!(backup_file_name(Some("   "), 5), "worlds-5.zip");
    assert_eq!(backup_file_name(Some(" My World.zip.zip "), 7), "My_World-7.zip");
    assert_eq!(backup_file_name(Some("../évasion"), 1), "___évasion-1.zip");
    for n in ["a:b", "..", ".zip", "x/y\\z", "\u{4e16}"] {
        assert!(valid_backup_file_name(&backup_file_name(Some(n), 3)));
    }
}

#[test]
fn restore_guard() {
    assert!(backup_entry_allowed("world/level.dat"));
    assert!(!backup_entry_allowed("../x"));
    assert!(!backup_entry_allowed("a/../../x"));
    assert!(!backup_entry_allowed("/etc/passwd"));
    assert!(!backup_entry_allowed("\\x"));
    assert!(!backup_entry_allowed("C:x"));
    assert!(backup_entry_allowed("é:x"));
}

#[test]
fn backups_newest_first() {
    let e = |n: &str, t: &str| BackupEntry { file_name: n.into(), size_bytes: 1, created_at: t.into() };
    let v = sort_backups(vec![e("a", "100"), e("b", "300"), e("c", "200")]);
    let order: Vec<&str> = v.iter().map(|b| b.file_name.as_str()).collect();
    assert_eq!(order, vec!["b", "c", "a"]);
}

#[test]
fn launch_lookups() {
    let entry = |id: &str, url: &str| VersionEntry {
        id: id.into(),
        kind: "release".into(),
        url: url.into(),
        time: "t".into(),
        releaseTime: "r".into(),
        sha1: "s".into(),
    };
    let entries = vec![entry("1.20.1", "u1"), entry("1.21", "u2")];
    assert_eq!(find_version_url(&entries, "1.21").unwrap(), "u2");
    assert_eq!(find_version_url(&entries, "9.9").unwrap_err(), "unknown version 9.9");
    let dl = |n: &str| DownloadArtifact { name: n.into(), sha1: format!("{n}-sha"), url: format!("{n}-url") };
    assert_eq!(
        client_download(&vec![dl("server"), dl("client")]).unwrap(),
        ("client-url".to_string(), "client-sha".to_string())
    );
    assert_eq!(client_download(&vec![dl("server")]).unwrap_err(), "version package has no client download");
    assert_eq!(first_line("openjdk version \"21\"\r\nmore"), "openjdk version \"21\"");
    assert_eq!(first_line("no newline\r"), "no newline\r");
    assert_eq!(first_line(""), "");
    let info = java_info("java", b"openjdk 17.0.2\nOpenJDK Runtime").unwrap();
    assert_eq!(info.path, "java");
    assert_eq!(info.version_line, "openjdk 17.0.2");
    assert!(java_info("javaw", b"").is_none());
    assert!(java_info("javaw", b"\nsecond").is_none());
}

#[test]
fn modpack_paths_and_hosts() {
    assert_eq!(safe_rel("mods/a.jar").as_deref(), Some("mods/a.jar"));
    assert_eq!(safe_rel(""), None);
    assert_eq!(safe_rel("../x"), None);
    assert_eq!(safe_rel("/abs"), None);
    assert_eq!(safe_rel("\\abs"), None);
    assert_eq!(safe_rel("C:\\x"), None);
    assert!(url_host_ok("https://cdn.modrinth.com/data/x.jar"));
    assert!(url_host_ok("https://objects.github.com/x"));
    assert!(url_host_ok("https://gitlab.com"));
    assert!(!url_host_ok("https://evil.com/cdn.modrinth.com"));
    assert!(!url_host_ok("https://evilgithub.com/x"));
    assert!(!url_host_ok("https://github.com.evil.com/x"));
    assert!(!url_host_ok("cdn.modrinth.com/x"));
    assert!(!url_host_ok("http://cdn.modrinth.com/x.jar"));
    assert!(!url_host_ok("ftp://github.com/x"));
    assert_eq!(
        pick_download(&strings(&["https://evil.com/a", "https://github.com/a", "https://gitlab.com/b"])),
        "https://github.com/a"
    );
    assert_eq!(pick_download(&strings(&["https://evil.com/a"])), "");
    assert_eq!(
        override_target("overrides/config/a.toml", "overrides/").as_deref(),
        Some("config/a.toml")
    );
    assert_eq!(override_target("overrides/config/", "overrides/"), None);
    assert_eq!(override_target("overrides/../x", "overrides/"), None);
    assert_eq!(override_target("server-overrides/a", "overrides/"), None);
    assert!(file_wanted(None));
    assert!(file_wanted(Some("required")));
    assert!(!file_wanted(Some("unsupported")));
}

fn deps(v: &[(&str, &str)]) -> Vec<(String, String)> {
    v.iter().map(|(a, b)| (a.to_string(), b.to_string())).collect()
}

#[test]
fn modpack_metadata() {
    let d = deps(&[("minecraft", "1.20.1"), ("forge", "47"), ("quilt-loader", "0.2")]);
    assert_eq!(pack_loader(&d), "quilt");
    assert_eq!(pack_game_and_loader(1, &d).unwrap(), ("1.20.1".to_string(), "quilt"));
    assert_eq!(pack_game_and_loader(2, &d).unwrap_err(), "unsupported mrpack formatVersion 2");
    assert_eq!(
        pack_game_and_loader(1, &deps(&[("minecraft", "")])).unwrap_err(),
        "mrpack has no minecraft dependency"
    );
    assert_eq!(pack_loader(&deps(&[])), "vanilla");
    assert_eq!(pack_loader(&deps(&[("neoforge", "1"), ("forge", "2")])), "neoforge");
    assert!(pack_index_bytes(b"not a zip").is_err());
}

#[test]
fn modpack_hashes() {
    let sha1_hello = "AAF4C61DDCC5E8A2DABEDE0F3B482CD9AEA9434D";
    assert!(file_hash_ok(b"hello", &deps(&[("sha1", sha1_hello)])));
    assert!(!file_hash_ok(b"hello!", &deps(&[("sha1", sha1_hello)])));
    assert!(!file_hash_ok(b"anything", &deps(&[])));
    assert!(!file_hash_ok(b"anything", &deps(&[("md5", "00")])));
    assert!(!file_hash_ok(b"hello", &deps(&[("sha512", "00"), ("sha1", sha1_hello)])));
    let sha512_abc = "ddaf35a193617abacc417349ae20413112e6fa4e89a97ea20a9eeee64b55d39a2192992a274fc1a836ba3c23a3feebbd454d4423643ce80e2a9ac94fa54ca49f";
    assert!(sha512_matches(b"abc", sha512_abc));
    assert!(file_hash_ok(b"abc", &deps(&[("sha512", sha512_abc)])));
    assert!(!file_hash_ok(b"abd", &deps(&[("sha512", sha512_abc)])));
    assert!(sha1_matches(b"hello", sha1_hello));
}

#[test]
fn modpack_instance_names() {
    assert_eq!(pack_instance_stem("Better MC [Fabric]", "abcdefghij"), "Better-MC--Fabric-");
    assert_eq!(pack_instance_stem("", "abcdefghij"), "pack-abcdefgh");
    assert_eq!(pack_instance_stem("", "abc"), "pack-abc");
    assert_eq!(pack_instance_stem(&"x".repeat(60), "v"), "x".repeat(48));
    let awkward = format!("{}é", "a".repeat(47));
    assert_eq!(checked_pack_instance_stem(&awkward, "v"), None);
    assert_eq!(checked_pack_instance_stem("", "abcdefgé"), None);
    assert_eq!(checked_pack_instance_stem("Pack!", "v").as_deref(), Some("Pack-"));
}

#[test]
fn modrinth_requests() {
    let odd = SearchQuery { text: "a b&c/é~".into(), limit: 5, ..Default::default() };
    assert_eq!(search_path(&odd), "/search?query=a%20b%26c%2F%C3%A9~&limit=5&offset=0");
    let q = SearchQuery {
        text: "sodium".into(),
        content_type: Some(ContentType::Mod),
        game_versions: strings(&["1.20.1"]),
        loaders: strings(&["fabric"]),
        limit: 3,
        offset: 0,
        sort: None,
    };
    assert_eq!(
        search_path(&q),
        "/search?query=sodium&limit=3&offset=0&facets=%5B%5B%22project_type%3Amod%22%5D%2C%5B%22versions%3A1.20.1%22%5D%2C%5B%22categories%3Afabric%22%5D%5D"
    );
    let plain = SearchQuery { text: "a b".into(), limit: 500, ..Default::default() };
    assert_eq!(search_path(&plain), "/search?query=a%20b&limit=100&offset=0");
    let zero = SearchQuery { content_type: Some(ContentType::Unknown), ..Default::default() };
    assert_eq!(search_path(&zero), "/search?query=&limit=1&offset=0");
    assert_eq!(project_path("AANobbMI"), "/project/AANobbMI");
    assert_eq!(
        versions_path("abc", &strings(&["1.20.1"]), &strings(&["fabric"])),
        "/project/abc/version?game_versions=%5B%221.20.1%22%5D&loaders=%5B%22fabric%22%5D"
    );
    assert_eq!(versions_path("abc", &[], &strings(&["fabric"])), "/project/abc/version?loaders=%5B%22fabric%22%5D");
    assert_eq!(versions_path("abc", &[], &[]), "/project/abc/version?");
    assert_eq!(
        versions_path("p", &strings(&["a", "b"]), &[]),
        "/project/p/version?game_versions=%5B%22a%22%2C%22b%22%5D"
    );
    assert_eq!(
        versions_path("p", &[], &strings(&["q\"x"])),
        "/project/p/version?loaders=%5B%22q%5C%22x%22%5D"
    );
    assert_eq!(facet_str(&[]), None);
    assert_eq!(facet_str(&strings(&["1.20.1", "1.21"])).as_deref(), Some("[\"1.20.1\",\"1.21\"]"));
    assert!(matches!(check_status(429, "429 Too Many Requests"), Err(ProviderError::RateLimited)));
    match check_status(404, "404 Not Found") {
        Err(ProviderError::Http(m)) => assert_eq!(m, "status 404 Not Found"),
        _ => panic!("expected an HTTP error"),
    }
    assert!(check_status(200, "200 OK").is_ok());
}

#[test]
fn modrinth_content_types() {
    for t in [ContentType::Mod, ContentType::ResourcePack, ContentType::DataPack, ContentType::Shader, ContentType::Modpack] {
        assert_eq!(content_type_of(project_type_filter(t)), t);
    }
    assert_eq!(project_type_filter(ContentType::Unknown), "");
    assert_eq!(content_type_of("plugin"), ContentType::Unknown);
}

#[test]
fn modrinth_responses() {
    let hit = SearchHit {
        project_id: "AANobbMI".into(),
        slug: Some("sodium".into()),
        title: "Sodium".into(),
        description: "fast".into(),
        project_type: "mod".into(),
        versions: strings(&["1.20.1"]),
        icon_url: None,
        downloads: 10,
    };
    let p = project_from_hit(hit.clone());
    assert_eq!(p.provider, "modrinth");
    assert_eq!(p.id, "AANobbMI");
    assert_eq!(p.content_type, ContentType::Mod);
    assert!(p.loaders.is_empty());
    assert_eq!(projects_from_hits(vec![hit.clone(), hit]).len(), 2);
    let full = FullProject {
        id: "x".into(),
        slug: None,
        title: "T".into(),
        description: "D".into(),
        project_type: "shader".into(),
        game_versions: vec![],
        loaders: strings(&["iris"]),
        icon_url: None,
        downloads: 1,
    };
    let p = project_from_full(full);
    assert_eq!(p.content_type, ContentType::Shader);
    assert_eq!(p.loaders, strings(&["iris"]));
    let v = version_from_full(FullVersion {
        id: "v".into(),
        project_id: "x".into(),
        name: "n".into(),
        version_number: "1.0".into(),
        game_versions: vec![],
        loaders: vec![],
        files: vec![
            FullFile { hashes: deps(&[("sha1", "aa"), ("sha512", "bb")]), url: "u".into(), filename: "f.jar".into(), primary: true },
            FullFile { hashes: deps(&[("sha1", "cc")]), url: "u2".into(), filename: "g.jar".into(), primary: false },
        ],
        dependencies: vec![
            VersionDependency { project_id: Some("P7BdmVxx".into()), dependency_type: "required".into() },
            VersionDependency { project_id: None, dependency_type: "incompatible".into() },
        ],
    });
    assert_eq!(v.files[0].sha512.as_deref(), Some("bb"));
    assert_eq!(v.files[1].sha512, None);
    assert_eq!(v.files[0].name, "f.jar");
    assert_eq!(v.dependencies.len(), 2);
    assert_eq!(v.dependencies[0].project_id.as_deref(), Some("P7BdmVxx"));
    assert_eq!(v.dependencies[0].dependency_type, "required");
    assert_eq!(v.dependencies[1].project_id, None);
    assert_eq!(v.dependencies[1].dependency_type, "incompatible");
}

#[test]
fn providers_and_errors() {
    assert_eq!(ProviderId::Modrinth.as_str(), "modrinth");
    assert_eq!(ProviderId::CurseForge.as_str(), "curseforge");
    assert_eq!(ProviderError::MissingApiKey.message(), "CurseForge API key not configured");
    assert_eq!(ProviderError::Http("x".into()).message(), "HTTP error: x");
    assert_eq!(ProviderError::Parse("y".into()).message(), "parse error: y");
    assert_eq!(ProviderError::RateLimited.message(), "rate limited");
    let p = CurseForgeProvider::new(Some("key".into()));
    assert_eq!(p.require_key().unwrap(), "key");
    assert_eq!(p.id(), ProviderId::CurseForge);
    assert!(p.search(&SearchQuery::default()).unwrap().is_empty());
    let proj = p.project("123").unwrap();
    assert_eq!(proj.provider, "curseforge");
    assert_eq!(proj.id, "123");
    assert!(p.versions("123", &[], &[]).unwrap().is_empty());
    let none = CurseForgeProvider::new(None);
    assert!(matches!(none.project("1"), Err(ProviderError::MissingApiKey)));
    assert!(matches!(none.versions("1", &[], &[]), Err(ProviderError::MissingApiKey)));
}

#[test]
fn install_checks() {
    let sha1_abc = "A9993E364706816ABA3E25717850C26C9CD0D89D";
    assert!(check_download_sha1(b"abc", sha1_abc, "u").is_ok());
    match check_download_sha1(b"abd", sha1_abc, "https://x/y.jar") {
        Err(InstallError::HashMismatch(u)) => assert_eq!(u, "https://x/y.jar"),
        _ => panic!("expected a hash mismatch"),
    }
    assert_eq!(InstallError::HashMismatch("u".into()).message(), "hash mismatch for u");
    assert_eq!(InstallError::Http("h".into()).message(), "http: h");
    assert_eq!(InstallError::Io("i".into()).message(), "io: i");
    assert_eq!(ProfileError::MissingProfile.message(), "installer has no install_profile.json");
    assert_eq!(ProfileError::Zip("z".into()).message(), "installer is not a valid ZIP: z");
    assert_eq!(ProfileError::Json("j".into()).message(), "invalid install_profile.json: j");
    assert!(mod_file_name_allowed("a.jar", &vec![PathPart::Normal]));
    assert!(!mod_file_name_allowed("a.jar", &vec![PathPart::Normal, PathPart::Normal]));
    assert!(!mod_file_name_allowed("/", &vec![PathPart::RootDir]));
    assert!(!mod_file_name_allowed(".a", &vec![PathPart::Normal]));
    let i = rem_launcher::install::Instance {
        name: "t".into(),
        game_version: "1.20.1".into(),
        loader: "fabric".into(),
        dir: std::path::PathBuf::from("/data/t"),
    };
    assert_eq!(i.mods_dir(), std::path::PathBuf::from("/data/t/mods"));
    assert_eq!(i.safe_mod_path("sodium.jar").unwrap(), std::path::PathBuf::from("/data/t/mods/sodium.jar"));
    assert!(i.safe_mod_path("").is_none());
}
