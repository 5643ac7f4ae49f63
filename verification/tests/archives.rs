use rem_launcher::install::{install_profile_json, ProfileError};
use rem_launcher::modpacks::pack_index_bytes;
use std::io::Write;

fn archive(entries: &[(&str, &[u8])]) -> Vec<u8> {
    let mut w = zip::ZipWriter::new(std::io::Cursor::new(Vec::new()));
    for (name, data) in entries {
        w.start_file(*name, zip::write::SimpleFileOptions::default()).unwrap();
        w.write_all(data).unwrap();
    }
    w.finish().unwrap().into_inner()
}

#[test]
fn installer_profile_text_is_read_from_the_archive() {
    let body = br#"{"spec":1,"version":"forge-47","processors":[]}"#;
    let jar = archive(&[("META-INF/MANIFEST.MF", b"x"), ("install_profile.json", body)]);
    assert_eq!(install_profile_json(&jar).unwrap(), String::from_utf8(body.to_vec()).unwrap());
}

#[test]
fn installer_without_profile_is_reported() {
    let jar = archive(&[("version.json", b"{}")]);
    assert!(matches!(install_profile_json(&jar), Err(ProfileError::MissingProfile)));
}

#[test]
fn installer_profile_that_is_not_text_is_reported() {
    let jar = archive(&[("install_profile.json", &[0xff, 0xfe, 0x00])]);
    assert!(matches!(install_profile_json(&jar), Err(ProfileError::Json(_))));
}

#[test]
fn pack_index_is_read_from_the_archive() {
    let index = br#"{"formatVersion":1,"name":"P","versionId":"v","dependencies":{},"files":[]}"#;
    let pack = archive(&[("overrides/config/a.txt", b"a"), ("modrinth.index.json", index)]);
    assert_eq!(pack_index_bytes(&pack).unwrap(), index.to_vec());
    assert!(pack_index_bytes(&archive(&[("other.json", b"{}")])).is_err());
    assert!(pack_index_bytes(b"plain bytes").is_err());
}

use rem_launcher::backups::{backup_archive, restore_entries};
use rem_launcher::modpacks::{pack_file_step, pack_overrides, safe_rel, PackFileStep};

#[test]
fn backup_archive_round_trips_through_restore() {
    let items = vec![
        ("world".to_string(), None),
        ("world\\level.dat".to_string(), Some(b"level".to_vec())),
        ("world/region".to_string(), None),
        ("world/region/r.0.0.mca".to_string(), Some(vec![0u8, 1, 2, 255])),
        ("notes.txt".to_string(), Some(Vec::new())),
    ];
    let bytes = backup_archive(&items).unwrap();
    let mut restored = restore_entries(&bytes).unwrap();
    restored.sort_by(|a, b| a.0.cmp(&b.0));
    assert_eq!(
        restored,
        vec![
            ("notes.txt".to_string(), Some(Vec::new())),
            ("world/".to_string(), None),
            ("world/level.dat".to_string(), Some(b"level".to_vec())),
            ("world/region/".to_string(), None),
            ("world/region/r.0.0.mca".to_string(), Some(vec![0u8, 1, 2, 255])),
        ]
    );
}

#[test]
fn backup_archive_refuses_a_name_twice() {
    let items = vec![("a.txt".to_string(), Some(b"1".to_vec())), ("a.txt".to_string(), Some(b"2".to_vec()))];
    assert!(backup_archive(&items).is_err());
}

#[test]
fn restore_skips_unsafe_entries() {
    let zip = archive(&[
        ("../evil.txt", b"x"),
        ("/abs.txt", b"x"),
        ("C:/x.txt", b"x"),
        ("ok/file.txt", b"fine"),
    ]);
    let restored = restore_entries(&zip).unwrap();
    assert_eq!(restored, vec![("ok/file.txt".to_string(), Some(b"fine".to_vec()))]);
    assert!(restore_entries(b"no zip here").is_err());
}

#[test]
fn pack_overrides_lists_client_overrides_after_overrides() {
    let pack = archive(&[
        ("client-overrides/options.txt", b"client"),
        ("overrides/config/a/b.toml", b"cfg"),
        ("server-overrides/server.properties", b"srv"),
        ("overrides/../escape.txt", b"bad"),
        ("overrides/options.txt", b"common"),
        ("modrinth.index.json", b"{}"),
    ]);
    let v = pack_overrides(&pack).unwrap();
    let names: Vec<(&str, &[u8])> = v.iter().map(|(r, d)| (r.as_str(), d.as_slice())).collect();
    assert_eq!(
        names,
        vec![
            ("config/a/b.toml", &b"cfg"[..]),
            ("options.txt", &b"common"[..]),
            ("options.txt", &b"client"[..]),
        ]
    );
    assert!(pack_overrides(b"junk").is_err());
}

#[test]
fn pack_file_steps() {
    let urls = vec!["http://cdn.modrinth.com/a.jar".to_string(), "https://cdn.modrinth.com/b.jar".to_string()];
    match pack_file_step(None, "mods/b.jar", &urls) {
        PackFileStep::Fetch { url, rel } => {
            assert_eq!(url, "https://cdn.modrinth.com/b.jar");
            assert_eq!(rel, "mods/b.jar");
        }
        PackFileStep::Skip => panic!("expected a fetch"),
    }
    assert!(matches!(pack_file_step(Some("unsupported"), "mods/b.jar", &urls), PackFileStep::Skip));
    assert!(matches!(pack_file_step(Some("required"), "../b.jar", &urls), PackFileStep::Skip));
    assert!(matches!(pack_file_step(None, "mods/b.jar", &vec!["https://evil.com/b.jar".to_string()]), PackFileStep::Skip));
    assert_eq!(safe_rel("config/a/b.txt").as_deref(), Some("config/a/b.txt"));
}

#[test]
fn restore_keeps_archive_order_and_stops_on_empty_names() {
    let zip = archive(&[("b.txt", b"2"), ("a.txt", b"1"), ("../x", b"3"), ("c/d.txt", b"4")]);
    let names: Vec<String> = restore_entries(&zip).unwrap().into_iter().map(|(n, _)| n).collect();
    assert_eq!(names, vec!["b.txt", "a.txt", "c/d.txt"]);
    let empty = archive(&[("", b"x"), ("a.txt", b"1")]);
    assert!(restore_entries(&empty).is_err());
}

#[test]
fn backup_of_nothing_restores_nothing() {
    let bytes = backup_archive(&vec![]).unwrap();
    assert!(restore_entries(&bytes).unwrap().is_empty());
}
