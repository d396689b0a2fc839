use scdesk::sierra_paths::{
    candidates, default_config_path, discover, join_path, probe_paths, same_path_text,
    DiscoverInput, FileConfig, SierraRoot,
};

const HOME: &str = "/home/trader";

fn input_at(home: &str, existing: &[&str]) -> DiscoverInput<'static> {
    DiscoverInput {
        home: home.to_string(),
        sc_root_env: None,
        wineprefix: None,
        journal_dir_env: None,
        config: None,
        existing_dirs: existing.iter().map(|s| s.to_string()).collect(),
    }
}

#[test]
fn sc_root_env_wins() {
    let wine = format!("{HOME}/.wine/drive_c/SierraChart");
    let forced = format!("{HOME}/forced-sc");
    let mut input = input_at(HOME, &[wine.as_str(), forced.as_str()]);
    input.sc_root_env = Some(forced.clone());
    let found = discover(&input);
    assert_eq!(found.primary.unwrap().root, forced);
}

#[test]
fn default_wine_home_prefix() {
    let wine = format!("{HOME}/.wine/drive_c/SierraChart");
    let found = discover(&input_at(HOME, &[wine.as_str()]));
    let primary = found.primary.expect("primary");
    assert_eq!(primary.root, wine);
    assert_eq!(primary.journal_dir, format!("{wine}/Data/Journal"));
    assert_eq!(primary.scid_dir, format!("{wine}/Data"));
}

#[test]
fn wineprefix_env_used_when_default_missing() {
    let prefix = format!("{HOME}/pfx");
    let sc = format!("{prefix}/drive_c/SierraChart");
    let mut input = input_at(HOME, &[sc.as_str()]);
    input.wineprefix = Some(prefix);
    let found = discover(&input);
    assert_eq!(found.primary.unwrap().root, sc);
}

#[test]
fn journal_dir_env_overrides() {
    let wine = format!("{HOME}/.wine/drive_c/SierraChart");
    let other = format!("{HOME}/other-journal");
    let mut input = input_at(HOME, &[wine.as_str(), other.as_str()]);
    input.journal_dir_env = Some(other.clone());
    let found = discover(&input);
    assert_eq!(found.primary.unwrap().journal_dir, other);
}

#[test]
fn instance_2_is_extra() {
    let wine = format!("{HOME}/.wine/drive_c/SierraChart");
    let inst = format!("{wine}/SierraChartInstance_2");
    let found = discover(&input_at(HOME, &[wine.as_str(), inst.as_str()]));
    assert_eq!(found.primary.as_ref().unwrap().root, wine);
    assert_eq!(found.extras[0].root, inst);
}

#[test]
fn config_extra_roots() {
    let extra = format!("{HOME}/extra-sc");
    let cfg = FileConfig {
        sc_root: None,
        extra_roots: vec![extra.clone()],
        journal_dir: None,
    };
    let mut input = input_at(HOME, &[extra.as_str()]);
    input.config = Some(&cfg);
    let found = discover(&input);
    assert_eq!(found.primary.unwrap().root, extra);
}

#[test]
fn nothing_exists_nothing_found() {
    let found = discover(&input_at(HOME, &[]));
    assert!(found.primary.is_none());
    assert!(found.extras.is_empty());
}

#[test]
fn same_folder_is_taken_once() {
    let wine = format!("{HOME}/.wine/drive_c/SierraChart");
    let cfg = FileConfig {
        sc_root: Some(format!("{HOME}/.wine/./drive_c//SierraChart/")),
        extra_roots: vec![wine.clone(), format!("{HOME}/b")],
        journal_dir: Some("/j".to_string()),
    };
    let mut input = input_at(HOME, &[wine.as_str(), "/home/trader/b"]);
    input.config = Some(&cfg);
    let c = candidates(&input);
    assert_eq!(c, vec![wine.clone(), format!("{HOME}/b")]);
    let found = discover(&input);
    assert_eq!(found.primary.as_ref().unwrap().root, wine);
    assert_eq!(found.primary.as_ref().unwrap().journal_dir, "/j");
    assert_eq!(found.extras.len(), 1);
    assert_eq!(found.extras[0].root, format!("{HOME}/b"));
}

#[test]
fn path_text_rules() {
    assert_eq!(join_path(&"/a".to_string(), "Data"), "/a/Data");
    assert_eq!(join_path(&"/a/".to_string(), "Data"), "/a/Data");
    assert_eq!(default_config_path(&HOME.to_string()), "/home/trader/.config/scdesk/config.toml");
    assert!(same_path_text(&"/a/./b/".to_string(), &"/a//b".to_string()));
    assert!(!same_path_text(&"a/b".to_string(), &"/a/b".to_string()));
    let r = SierraRoot::from_root("/sc".to_string(), None);
    assert_eq!(r.data_dir, "/sc/Data");
    assert_eq!(r.journal_dir, "/sc/Data/Journal");
    assert_eq!(r.scid_dir, "/sc/Data");
}

#[test]
fn probes_cover_candidates_and_instances() {
    let mut input = input_at(HOME, &[]);
    input.sc_root_env = Some("/x".to_string());
    let p = probe_paths(&input);
    assert!(p.contains(&"/x".to_string()));
    assert!(p.contains(&"/x/SierraChartInstance_2".to_string()));
    assert!(p.contains(&format!("{HOME}/.wine/drive_c/SierraChart")));
}
