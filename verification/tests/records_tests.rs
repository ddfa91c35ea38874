use recent_paths::classify::Command;
use recent_paths::records::{
    base_name, compose_target, data_file_path, extract_target_dir, handle_filesystem_object,
    load_records, login_skips, render_output, CanonStat,
};
use recent_paths::store::RecordStore;

fn contents(s: &RecordStore) -> Vec<String> {
    let mut out = Vec::new();
    let mut i = 0;
    while let Some(v) = s.get_at(i) {
        out.push(v);
        i += 1;
    }
    out
}

#[test]
fn cd_records_carry_the_visit_marker() {
    let data = "/h/.recent.txt".to_string();
    let mut loaded = RecordStore::new();
    let mut fresh = RecordStore::new();
    handle_filesystem_object(
        &Command::Cd,
        &"/tmp".to_string(),
        &CanonStat::Dir("/tmp".to_string()),
        &data,
        &mut loaded,
        &mut fresh,
    );
    handle_filesystem_object(
        &Command::Etc,
        &"/tmp".to_string(),
        &CanonStat::Dir("/tmp".to_string()),
        &data,
        &mut loaded,
        &mut fresh,
    );
    assert_eq!(contents(&fresh), vec!["/tmp/ ", "/tmp/"]);
    let out = render_output(&fresh, &loaded, 100);
    let reloaded = load_records(out);
    assert_eq!(contents(&reloaded), vec!["/tmp/ ", "/tmp/"]);
}

#[test]
fn root_directory_gets_no_double_separator() {
    let data = "/h/.recent.txt".to_string();
    let mut loaded = RecordStore::new();
    let mut fresh = RecordStore::new();
    handle_filesystem_object(
        &Command::Etc,
        &"/".to_string(),
        &CanonStat::Dir("/".to_string()),
        &data,
        &mut loaded,
        &mut fresh,
    );
    assert_eq!(contents(&fresh), vec!["/"]);
}

#[test]
fn copy_into_directory_records_sources_and_destinations() {
    let data = "/h/.recent.txt".to_string();
    let mut objects = vec![
        "/p/a.txt".to_string(),
        "/p/b.txt".to_string(),
        "/p/existing_dir".to_string(),
    ];
    let target = extract_target_dir(
        &Command::Cp,
        &mut objects,
        &CanonStat::Dir("/p/existing_dir".to_string()),
    );
    assert_eq!(target, Some("/p/existing_dir".to_string()));
    assert_eq!(objects, vec!["/p/a.txt", "/p/b.txt"]);
    let mut loaded = RecordStore::new();
    let mut fresh = RecordStore::new();
    let td = target.unwrap();
    for obj in &objects {
        handle_filesystem_object(
            &Command::Cp,
            obj,
            &CanonStat::File(obj.clone()),
            &data,
            &mut loaded,
            &mut fresh,
        );
        let composed = compose_target(&td, obj).unwrap();
        handle_filesystem_object(
            &Command::Cp,
            &composed,
            &CanonStat::File(composed.clone()),
            &data,
            &mut loaded,
            &mut fresh,
        );
    }
    assert_eq!(
        contents(&fresh),
        vec![
            "/p/a.txt",
            "/p/existing_dir/a.txt",
            "/p/b.txt",
            "/p/existing_dir/b.txt",
        ]
    );
}

#[test]
fn plain_destination_file_is_no_target_directory() {
    let mut objects = vec!["/p/a.txt".to_string(), "/p/b.txt".to_string()];
    let target = extract_target_dir(&Command::Cp, &mut objects, &CanonStat::Missing);
    assert_eq!(target, None);
    assert_eq!(objects, vec!["/p/a.txt", "/p/b.txt"]);
}

#[test]
fn remote_copy_records_local_file_and_tagged_remote() {
    let data = "/h/.recent.txt".to_string();
    let mut loaded = RecordStore::new();
    let mut fresh = RecordStore::new();
    handle_filesystem_object(
        &Command::Scp,
        &"/p/file.txt".to_string(),
        &CanonStat::File("/p/file.txt".to_string()),
        &data,
        &mut loaded,
        &mut fresh,
    );
    handle_filesystem_object(
        &Command::Scp,
        &"user@host:/remote/path".to_string(),
        &CanonStat::Missing,
        &data,
        &mut loaded,
        &mut fresh,
    );
    assert_eq!(contents(&fresh), vec!["/p/file.txt", "SCP#user@host:/remote/path"]);
}

#[test]
fn login_target_is_tagged() {
    let data = "/h/.recent.txt".to_string();
    let mut loaded = RecordStore::new();
    let mut fresh = RecordStore::new();
    handle_filesystem_object(
        &Command::Ssh,
        &"myhost".to_string(),
        &CanonStat::Missing,
        &data,
        &mut loaded,
        &mut fresh,
    );
    assert_eq!(contents(&fresh), vec!["SSH#myhost"]);
}

#[test]
fn ambiguous_login_is_skipped() {
    let objects = vec!["h1".to_string(), "h2".to_string()];
    assert!(login_skips(&Command::Ssh, &objects));
    let one = vec!["h1".to_string()];
    assert!(!login_skips(&Command::Ssh, &one));
    assert!(!login_skips(&Command::Cp, &objects));
}

#[test]
fn missing_paths_contribute_nothing() {
    let data = "/h/.recent.txt".to_string();
    let mut loaded = RecordStore::new();
    let mut fresh = RecordStore::new();
    handle_filesystem_object(
        &Command::Rm,
        &"/p/gone".to_string(),
        &CanonStat::Missing,
        &data,
        &mut loaded,
        &mut fresh,
    );
    assert_eq!(fresh.len(), 0);
}

#[test]
fn the_persistence_file_is_never_recorded() {
    let data = "/h/.recent.txt".to_string();
    let mut loaded = RecordStore::new();
    let mut fresh = RecordStore::new();
    handle_filesystem_object(
        &Command::Etc,
        &"/h/.recent.txt".to_string(),
        &CanonStat::File("/h/.recent.txt".to_string()),
        &data,
        &mut loaded,
        &mut fresh,
    );
    assert_eq!(fresh.len(), 0);
}

#[test]
fn promoting_a_loaded_record_reorders_the_merge() {
    let data = "/h/.recent.txt".to_string();
    let lines = vec!["/old/a".to_string(), "/old/b".to_string(), "/old/c".to_string()];
    let mut loaded = load_records(lines);
    let mut fresh = RecordStore::new();
    handle_filesystem_object(
        &Command::Etc,
        &"/old/b".to_string(),
        &CanonStat::File("/old/b".to_string()),
        &data,
        &mut loaded,
        &mut fresh,
    );
    let out = render_output(&fresh, &loaded, 100);
    assert_eq!(out, vec!["/old/b", "/old/a", "/old/c"]);
}

#[test]
fn base_name_takes_the_final_component() {
    assert_eq!(base_name("/p/a.txt"), Some("a.txt".to_string()));
    assert_eq!(base_name("a.txt"), Some("a.txt".to_string()));
    assert_eq!(base_name("/p/dir/"), Some("dir".to_string()));
    assert_eq!(base_name("/"), None);
    assert_eq!(base_name(""), None);
    assert_eq!(base_name("/p/.."), None);
    assert_eq!(base_name("/p/."), None);
}

#[test]
fn compose_joins_directory_and_base_name() {
    assert_eq!(
        compose_target(&"/t".to_string(), &"/p/a.txt".to_string()),
        Some("/t/a.txt".to_string())
    );
    assert_eq!(compose_target(&"/t".to_string(), &"/".to_string()), None);
}

#[test]
fn data_file_lives_under_home() {
    assert_eq!(data_file_path("/home/me"), "/home/me/.recent.txt".to_string());
}
