use pacwatch::categories::{
    CategoryMap, RawConfig, assign_package_text, assign_in_document, AssignError, delete_category_text,
    rename_category_text,
};

fn raw(entries: &[(&str, &[&str])]) -> RawConfig {
    RawConfig {
        categories: entries
            .iter()
            .map(|(c, ps)| (c.to_string(), ps.iter().map(|p| p.to_string()).collect()))
            .collect(),
    }
}

#[test]
fn get_filed_and_unfiled() {
    let mut map = CategoryMap::new();
    assert_eq!(map.get("bat"), "Uncategorized");
    map.insert("bat".to_string(), "CLI Tools".to_string());
    assert_eq!(map.get("bat"), "CLI Tools");
    map.insert("bat".to_string(), "Other".to_string());
    assert_eq!(map.get("bat"), "Other");
    assert_eq!(map.lookup.len(), 1);
    assert_eq!(map.get("zsh"), "Uncategorized");
}

#[test]
fn categories_end_with_uncategorized() {
    let map = CategoryMap::from_config(&raw(&[("Shells", &["zsh"]), ("Editors", &["vim"])]));
    assert_eq!(map.categories(), vec!["Editors", "Shells", "Uncategorized"]);
    assert_eq!(CategoryMap::new().categories(), vec!["Uncategorized"]);
}

#[test]
fn config_last_category_wins() {
    let map = CategoryMap::from_config(&raw(&[("A", &["x", "y"]), ("B", &["y"]), ("C", &[])]));
    assert_eq!(map.get("x"), "A");
    assert_eq!(map.get("y"), "B");
    assert_eq!(map.get("z"), "Uncategorized");
    assert_eq!(map.order, vec!["A", "B", "C"]);
}

#[test]
fn add_category_keeps_sorted() {
    let mut map = CategoryMap::from_config(&raw(&[("B", &[]), ("D", &[])]));
    map.add_category(&"C".to_string());
    assert_eq!(map.order, vec!["B", "C", "D"]);
    map.add_category(&"B".to_string());
    assert_eq!(map.order, vec!["B", "C", "D"]);
}

const FILE: &str = "# my categories\n[categories]\n\"CLI Tools\" = [\"bat\", \"fd\"] # handy\nShells = [\"zsh\", \"bat\", 3]\n";

#[test]
fn assign_moves_package() {
    let out = assign_package_text(FILE, "bat", "Shells").unwrap();
    let doc: toml_edit::DocumentMut = out.parse().unwrap();
    let cli: Vec<&str> = doc["categories"]["CLI Tools"].as_array().unwrap().iter().filter_map(|v| v.as_str()).collect();
    assert_eq!(cli, vec!["fd"]);
    let sh = doc["categories"]["Shells"].as_array().unwrap();
    let strs: Vec<&str> = sh.iter().filter_map(|v| v.as_str()).collect();
    assert_eq!(strs, vec!["zsh", "bat"]);
    assert_eq!(sh.len(), 3);
    assert!(out.starts_with("# my categories\n"));
    assert!(out.contains("# handy"));
}

#[test]
fn assign_new_category() {
    let out = assign_package_text(FILE, "fd", "Search").unwrap();
    let doc: toml_edit::DocumentMut = out.parse().unwrap();
    let s: Vec<&str> = doc["categories"]["Search"].as_array().unwrap().iter().filter_map(|v| v.as_str()).collect();
    assert_eq!(s, vec!["fd"]);
    let cli: Vec<&str> = doc["categories"]["CLI Tools"].as_array().unwrap().iter().filter_map(|v| v.as_str()).collect();
    assert_eq!(cli, vec!["bat"]);
}

#[test]
fn assign_into_empty_file() {
    let out = assign_package_text("", "bat", "Tools").unwrap();
    let doc: toml_edit::DocumentMut = out.parse().unwrap();
    let s: Vec<&str> = doc["categories"]["Tools"].as_array().unwrap().iter().filter_map(|v| v.as_str()).collect();
    assert_eq!(s, vec!["bat"]);
}

#[test]
fn assign_errors() {
    assert_eq!(assign_package_text("[categories\n", "bat", "X"), Err(AssignError::Parse));
    assert_eq!(assign_package_text("categories = 5\n", "bat", "X"), Err(AssignError::NotATable));
    assert_eq!(assign_package_text("categories = { X = [] }\n", "bat", "X"), Err(AssignError::NotATable));
    assert_eq!(assign_package_text("[categories]\nX = 3\n", "bat", "X"), Err(AssignError::NotAnArray));
    assert_eq!(assign_package_text("[categories.X]\na = 1\n", "bat", "X"), Err(AssignError::NotAnArray));
}

#[test]
fn assign_in_parsed_document() {
    let mut doc: toml_edit::DocumentMut = "[categories]\nA = [\"p\"]\nB = []\n".parse().unwrap();
    assert_eq!(assign_in_document(&mut doc, "p", "B"), Ok(()));
    assert_eq!(doc.to_string(), "[categories]\nA = []\nB = [\"p\"]\n");
}

#[test]
fn filed_package_is_listed_once() {
    let out = assign_package_text("[categories]\nA = [\"p\", \"q\", \"p\"]\nB = [\"p\"]\nC = [\"x\"]\n", "p", "C").unwrap();
    let doc: toml_edit::DocumentMut = out.parse().unwrap();
    let list = |k: &str| -> Vec<String> {
        doc["categories"][k].as_array().unwrap().iter().filter_map(|v| v.as_str().map(|s| s.to_string())).collect()
    };
    assert_eq!(list("A"), vec!["q"]);
    assert!(list("B").is_empty());
    assert_eq!(list("C"), vec!["x", "p"]);
}

#[test]
fn unlisted_package_is_uncategorized() {
    let map = CategoryMap::from_config(&raw(&[("A", &["x"])]));
    assert_eq!(map.get("nobody"), "Uncategorized");
}

fn list_of(text: &str, key: &str) -> Option<Vec<String>> {
    let doc: toml_edit::DocumentMut = text.parse().unwrap();
    doc["categories"]
        .as_table()
        .and_then(|t| t.get(key))
        .map(|i| i.as_array().unwrap().iter().filter_map(|v| v.as_str().map(|s| s.to_string())).collect())
}

#[test]
fn delete_takes_a_category_out() {
    let out = delete_category_text(FILE, "CLI Tools").unwrap();
    assert_eq!(list_of(&out, "CLI Tools"), None);
    assert_eq!(list_of(&out, "Shells"), Some(vec!["zsh".to_string(), "bat".to_string()]));
    assert!(out.starts_with("# my categories"));
    let same = delete_category_text(FILE, "Nope").unwrap();
    assert_eq!(same, FILE);
    assert_eq!(delete_category_text("= nope", "Shells"), None);
    assert_eq!(delete_category_text("categories = 3\n", "Shells").unwrap(), "categories = 3\n");
}

#[test]
fn rename_moves_a_category() {
    let out = rename_category_text(FILE, "CLI Tools", "Tools").unwrap();
    assert_eq!(list_of(&out, "CLI Tools"), None);
    assert_eq!(list_of(&out, "Tools"), Some(vec!["bat".to_string(), "fd".to_string()]));
    assert_eq!(list_of(&out, "Shells"), Some(vec!["zsh".to_string(), "bat".to_string()]));
    let over = rename_category_text(FILE, "CLI Tools", "Shells").unwrap();
    assert_eq!(list_of(&over, "Shells"), Some(vec!["bat".to_string(), "fd".to_string()]));
    assert_eq!(rename_category_text(FILE, "Nope", "X").unwrap(), FILE);
    assert_eq!(rename_category_text("[", "a", "b"), None);
}
