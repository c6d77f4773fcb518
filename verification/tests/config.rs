use oxiclean::config::{read_tsconfig_paths, TsconfigFile};
use oxiclean::resolver::AliasTable;

fn tsconfig(dir: &str, base_url: Option<&str>, paths: &[(&str, &[&str])]) -> TsconfigFile {
    TsconfigFile {
        dir: dir.to_string(),
        base_url: base_url.map(|b| b.to_string()),
        paths: paths
            .iter()
            .map(|(k, vs)| (k.to_string(), vs.iter().map(|v| v.to_string()).collect()))
            .collect(),
    }
}

fn get<'a>(table: &'a AliasTable, key: &str) -> Option<&'a Vec<String>> {
    table.entries.iter().find(|e| e.0 == key).map(|e| &e.1)
}

#[test]
fn test_read_tsconfig_paths_simple() {
    let files = vec![tsconfig(
        "/r",
        Some("."),
        &[("@components/*", &["src/components/*"]), ("@utils", &["src/utils"])],
    )];
    let paths = read_tsconfig_paths("/r", &files);
    assert_eq!(paths.entries.len(), 2);
    assert!(get(&paths, "@components").is_some());
    assert!(get(&paths, "@utils").is_some());
    let components_paths = get(&paths, "@components").unwrap();
    assert_eq!(components_paths.len(), 1);
    assert!(components_paths[0].contains("src/components"));
}

#[test]
fn test_read_tsconfig_paths_with_base_url() {
    let files = vec![tsconfig("/r", Some("src"), &[("@components/*", &["components/*"])])];
    let paths = read_tsconfig_paths("/r", &files);
    assert_eq!(paths.entries.len(), 1);
    assert!(get(&paths, "@components").is_some());
    let components_paths = get(&paths, "@components").unwrap();
    assert!(components_paths[0].contains("src/components"));
}

#[test]
fn test_read_tsconfig_paths_multiple_files() {
    let files = vec![
        tsconfig("/r", None, &[("@root/*", &["src/*"])]),
        tsconfig("/r/apps/web", None, &[("@app/*", &["app/*"])]),
    ];
    let paths = read_tsconfig_paths("/r", &files);
    assert_eq!(paths.entries.len(), 2);
    assert!(get(&paths, "@root").is_some());
    assert!(get(&paths, "@app").is_some());
}

#[test]
fn test_read_tsconfig_paths_no_paths() {
    let files = vec![tsconfig("/r", None, &[])];
    let paths = read_tsconfig_paths("/r", &files);
    assert_eq!(paths.entries.len(), 0);
}

#[test]
fn test_read_tsconfig_paths_empty() {
    let files: Vec<TsconfigFile> = Vec::new();
    let paths = read_tsconfig_paths("/r", &files);
    assert_eq!(paths.entries.len(), 0);
}

#[test]
fn test_read_tsconfig_paths_strips_trailing_slash() {
    let files = vec![tsconfig("/r", None, &[("@components/*", &["src/components/*"])])];
    let paths = read_tsconfig_paths("/r", &files);
    assert!(get(&paths, "@components").is_some());
    assert!(get(&paths, "@components/*").is_none());
}

#[test]
fn test_read_tsconfig_paths_later_file_overrides() {
    let files = vec![
        tsconfig("/r", None, &[("@x/*", &["one/*"])]),
        tsconfig("/r/sub", None, &[("@x/*", &["two/*"])]),
    ];
    let paths = read_tsconfig_paths("/r", &files);
    assert_eq!(paths.entries.len(), 1);
    assert!(get(&paths, "@x").unwrap()[0].contains("two"));
}
