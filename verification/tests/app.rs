use pacwatch::app::{App, Effect, Focus, InputMode, Key, SortKey, category_names};
use pacwatch::categories::{CategoryMap, RawConfig};
use pacwatch::pacman::{InstallReason, Package};

fn pkg(name: &str, desc: &str, size: u64, date: i64, explicit: bool) -> Package {
    let mut p = Package::default();
    p.name = name.to_string();
    p.description = desc.to_string();
    p.installed_size = size;
    p.install_date = date;
    p.install_reason = if explicit { InstallReason::Explicit } else { InstallReason::Dependency };
    p
}

fn sample() -> App {
    let packages = vec![
        pkg("bash", "The GNU Bourne Again shell", 9000, 10, true),
        pkg("bat", "A cat clone with wings", 5000, 30, true),
        pkg("glibc", "GNU C Library", 50000, 5, false),
        pkg("zsh", "A very advanced shell", 7000, 20, true),
        pkg("pcre", "Perl regexes", 1000, 40, false),
    ];
    let raw = RawConfig {
        categories: vec![
            ("Shells".to_string(), vec!["bash".to_string(), "zsh".to_string()]),
            ("CLI Tools".to_string(), vec!["bat".to_string()]),
        ],
    };
    App::new(packages, CategoryMap::from_config(&raw))
}

fn listed(app: &App) -> Vec<&str> {
    app.filtered.iter().map(|&i| app.all_packages[i].name.as_str()).collect()
}

#[test]
fn starts_with_explicit_packages_by_name() {
    let app = sample();
    assert_eq!(app.categories, vec!["All", "CLI Tools", "Shells", "Uncategorized"]);
    assert_eq!(listed(&app), vec!["bash", "bat", "zsh"]);
    assert_eq!(app.selected_category, 0);
    assert_eq!(app.focus, Focus::Categories);
    assert_eq!(app.selected_package().unwrap().name, "bash");
}

#[test]
fn category_and_switches() {
    let mut app = sample();
    app.move_category(2);
    assert_eq!(app.categories[app.selected_category], "Shells");
    assert_eq!(listed(&app), vec!["bash", "zsh"]);
    app.move_category(5);
    assert_eq!(app.categories[app.selected_category], "Uncategorized");
    assert!(listed(&app).is_empty());
    app.toggle_dependencies();
    assert_eq!(listed(&app), vec!["glibc", "pcre"]);
    app.toggle_orphans_only();
    assert_eq!(listed(&app), vec!["glibc", "pcre"]);
    app.move_category(-10);
    assert_eq!(app.selected_category, 0);
    assert_eq!(listed(&app), vec!["glibc", "pcre"]);
    app.toggle_orphans_only();
    app.toggle_dependencies();
    assert_eq!(listed(&app), vec!["bash", "bat", "zsh"]);
}

#[test]
fn sort_orders() {
    let mut app = sample();
    app.toggle_dependencies();
    assert_eq!(app.sort_key, SortKey::NameAsc);
    app.cycle_sort();
    assert_eq!(app.sort_key.label(), "z-a");
    assert_eq!(listed(&app), vec!["zsh", "pcre", "glibc", "bat", "bash"]);
    app.cycle_sort();
    assert_eq!(app.sort_key.label(), "big");
    assert_eq!(listed(&app), vec!["glibc", "bash", "zsh", "bat", "pcre"]);
    app.cycle_sort();
    assert_eq!(app.sort_key.label(), "new");
    assert_eq!(listed(&app), vec!["pcre", "bat", "zsh", "bash", "glibc"]);
    app.cycle_sort();
    assert_eq!(app.sort_key, SortKey::NameAsc);
    assert_eq!(SortKey::Newest.next(), SortKey::NameAsc);
}

#[test]
fn equal_keys_keep_package_order() {
    let packages = vec![pkg("b", "", 1, 0, true), pkg("a", "", 1, 0, true), pkg("c", "", 2, 0, true)];
    let mut app = App::new(packages, CategoryMap::new());
    app.cycle_sort();
    app.cycle_sort();
    assert_eq!(listed(&app), vec!["c", "b", "a"]);
}

fn type_text(app: &mut App, s: &str) {
    for c in s.chars() {
        app.handle_key(Key::Char(c), 0);
    }
}

#[test]
fn searches() {
    let mut app = sample();
    app.handle_key(Key::Char('/'), 0);
    assert_eq!(app.focus, Focus::Filter);
    type_text(&mut app, "BA");
    assert_eq!(listed(&app), vec!["bash", "bat"]);
    // the selection follows the package under the cursor
    assert_eq!(app.categories[app.selected_category], "Shells");
    app.handle_key(Key::Backspace, 0);
    app.handle_key(Key::Backspace, 0);
    type_text(&mut app, "  d:SHELL ");
    assert_eq!(listed(&app), vec!["bash", "zsh"]);
    app.handle_key(Key::Char('/'), 0);
    assert_eq!(app.filter_text, "");
    type_text(&mut app, "c:cli");
    assert_eq!(listed(&app), vec!["bat"]);
    assert_eq!(app.categories[app.selected_category], "CLI Tools");
    app.handle_key(Key::Esc, 0);
    assert_eq!(app.filter_text, "");
    assert_eq!(app.focus, Focus::Packages);
    assert_eq!(listed(&app), vec!["bat"]);
    app.handle_key(Key::Char('/'), 0);
    type_text(&mut app, "nothing-like-this");
    assert!(listed(&app).is_empty());
    assert!(app.selected_package().is_none());
    app.handle_key(Key::Enter, 0);
    assert_eq!(app.focus, Focus::Packages);
}

#[test]
fn cursor_moves() {
    let mut app = sample();
    app.focus = Focus::Packages;
    app.move_package(1);
    assert_eq!(app.package_state, 1);
    app.move_package(100);
    assert_eq!(app.package_state, 2);
    app.detail_scroll = 7;
    app.move_package(-100);
    assert_eq!(app.package_state, 0);
    assert_eq!(app.detail_scroll, 0);
    app.jump_bottom();
    assert_eq!(app.package_state, 2);
    app.jump_top();
    assert_eq!(app.package_state, 0);
}

#[test]
fn detail_scroll() {
    let mut app = sample();
    app.scroll_detail(3);
    assert_eq!(app.detail_scroll, 3);
    app.scroll_detail(-10);
    assert_eq!(app.detail_scroll, 0);
    app.focus = Focus::Detail;
    app.jump_bottom();
    assert_eq!(app.detail_scroll, u16::MAX);
    app.scroll_detail(1);
    assert_eq!(app.detail_scroll, 0);
    app.jump_top();
    assert_eq!(app.detail_scroll, 0);
}

#[test]
fn category_sizes() {
    let mut app = sample();
    assert_eq!(app.category_size("All"), 21000);
    assert_eq!(app.category_size("Shells"), 16000);
    assert_eq!(app.category_size("Uncategorized"), 0);
    app.toggle_dependencies();
    assert_eq!(app.category_size("Uncategorized"), 51000);
    assert_eq!(app.category_size("All"), 72000);
}

#[test]
fn keys_and_double_g() {
    let mut app = sample();
    app.handle_key(Key::Char('l'), 0);
    assert_eq!(app.focus, Focus::Packages);
    app.handle_key(Key::Char('j'), 0);
    app.handle_key(Key::Char('j'), 0);
    assert_eq!(app.package_state, 2);
    app.handle_key(Key::Char('g'), 1_000_000_000);
    assert_eq!(app.pending_g, Some(1_000_000_000));
    assert_eq!(app.package_state, 2);
    app.handle_key(Key::Char('g'), 1_400_000_000);
    assert_eq!(app.package_state, 0);
    assert_eq!(app.pending_g, None);
    app.handle_key(Key::Char('G'), 0);
    assert_eq!(app.package_state, 2);
    app.handle_key(Key::Char('g'), 0);
    app.handle_key(Key::Char('g'), 600_000_000);
    assert_eq!(app.package_state, 2);
    assert_eq!(app.pending_g, Some(600_000_000));
    app.handle_key(Key::Char('k'), 0);
    assert_eq!(app.pending_g, None);
    assert_eq!(app.package_state, 1);
    app.handle_key(Key::Char('h'), 0);
    assert_eq!(app.focus, Focus::Categories);
    app.handle_key(Key::Char('h'), 0);
    assert_eq!(app.focus, Focus::Detail);
    app.handle_key(Key::Char('?'), 0);
    assert!(app.show_help);
    app.handle_key(Key::Char('q'), 0);
    assert!(!app.should_quit);
    app.handle_key(Key::Esc, 0);
    assert!(!app.show_help);
    app.handle_key(Key::Char('q'), 0);
    assert!(app.should_quit);
    assert!(matches!(app.handle_key(Key::Char('R'), 0), Effect::ReloadCategories));
}

#[test]
fn assign_category_by_keys() {
    let mut app = sample();
    app.focus = Focus::Packages;
    app.move_package(1);
    assert_eq!(app.selected_package().unwrap().name, "bat");
    app.handle_key(Key::Char('m'), 0);
    assert_eq!(app.input_mode, Some(InputMode::AssignCategory));
    type_text(&mut app, " Viewers ");
    assert_eq!(app.input_buffer, " Viewers ");
    let eff = app.handle_key(Key::Enter, 0);
    match eff {
        Effect::AssignPackage { package, category } => {
            assert_eq!(package, "bat");
            assert_eq!(category, "Viewers");
        },
        _ => panic!("expected an assignment"),
    }
    assert_eq!(app.input_mode, None);
    assert_eq!(app.input_buffer, "");
    assert_eq!(app.category_map.get("bat"), "Viewers");
    assert_eq!(app.categories, vec!["All", "CLI Tools", "Shells", "Viewers", "Uncategorized"]);
}

#[test]
fn empty_input_and_escape() {
    let mut app = sample();
    app.start_assign_category();
    type_text(&mut app, "   ");
    assert!(matches!(app.confirm_input(), Effect::Nothing));
    assert_eq!(app.input_mode, None);
    app.start_assign_category();
    type_text(&mut app, "ab");
    app.handle_key(Key::Backspace, 0);
    assert_eq!(app.input_buffer, "a");
    app.handle_key(Key::Esc, 0);
    assert_eq!(app.input_mode, None);
    assert_eq!(app.input_buffer, "");
    assert!(matches!(app.confirm_input(), Effect::Nothing));
}

#[test]
fn rename_and_delete_requests() {
    let mut app = sample();
    app.handle_key(Key::Char('r'), 0);
    assert_eq!(app.input_mode, None);
    assert!(app.delete_selected_category().is_none());
    app.move_category(1);
    assert_eq!(app.categories[app.selected_category], "CLI Tools");
    app.handle_key(Key::Char('r'), 0);
    assert_eq!(app.input_mode, Some(InputMode::RenameCategory));
    assert_eq!(app.input_buffer, "CLI Tools");
    type_text(&mut app, "!");
    match app.handle_key(Key::Enter, 0) {
        Effect::RenameCategory { from, to } => {
            assert_eq!(from, "CLI Tools");
            assert_eq!(to, "CLI Tools!");
        },
        _ => panic!("expected a rename"),
    }
    match app.handle_key(Key::Char('d'), 0) {
        Effect::DeleteCategory { name } => assert_eq!(name, "CLI Tools"),
        _ => panic!("expected a deletion"),
    }
    let mut map = CategoryMap::new();
    map.insert("zsh".to_string(), "Shells".to_string());
    map.add_category(&"Shells".to_string());
    app.apply_category_map(map);
    assert_eq!(app.categories, vec!["All", "Shells", "Uncategorized"]);
    assert_eq!(app.selected_category, 1);
    assert_eq!(listed(&app), vec!["zsh"]);
    app.jump_bottom();
    app.reload_categories(CategoryMap::new());
    assert_eq!(app.selected_category, 0);
    assert_eq!(category_names(&CategoryMap::new()), vec!["All", "Uncategorized"]);
}

#[test]
fn start_assign_needs_a_package() {
    let mut app = App::new(Vec::new(), CategoryMap::new());
    assert!(app.filtered.is_empty());
    app.start_assign_category();
    assert_eq!(app.input_mode, None);
    app.move_package(1);
    assert_eq!(app.package_state, 0);
}

#[test]
fn switches_twice_give_the_same_list() {
    let mut app = sample();
    app.move_category(2);
    let before = app.filtered.clone();
    let sel = app.selected_category;
    app.toggle_dependencies();
    app.toggle_dependencies();
    assert_eq!(app.filtered, before);
    assert_eq!(app.selected_category, sel);
    app.toggle_orphans_only();
    app.toggle_orphans_only();
    assert_eq!(app.filtered, before);
}

#[test]
fn typed_then_erased() {
    let mut app = sample();
    app.start_assign_category();
    type_text(&mut app, "ab");
    let before = app.input_buffer.clone();
    app.handle_key(Key::Char('x'), 0);
    app.handle_key(Key::Backspace, 0);
    assert_eq!(app.input_buffer, before);
    assert_eq!(app.input_mode, Some(InputMode::AssignCategory));
}

#[test]
fn sort_key_cycle_has_four_steps() {
    for k in [SortKey::NameAsc, SortKey::NameDesc, SortKey::Size, SortKey::Newest] {
        assert_eq!(k.next().next().next().next(), k);
        assert_ne!(k.next(), k);
    }
}

#[test]
fn category_sizes_checked() {
    let mut app = sample();
    assert_eq!(app.category_size_checked("All"), Some(21000));
    assert_eq!(app.category_size_checked("Uncategorized"), Some(0));
    let big = pkg("huge", "", u64::MAX, 0, true);
    app.all_packages.push(big);
    assert_eq!(app.category_size_checked("All"), None);
    assert_eq!(app.category_size_checked("Shells"), Some(16000));
}

#[test]
fn focus_round_trips() {
    for start in [Focus::Categories, Focus::Packages, Focus::Detail] {
        let mut app = sample();
        app.focus = start;
        app.handle_key(Key::Char('l'), 0);
        app.handle_key(Key::Char('h'), 0);
        assert_eq!(app.focus, start);
        app.handle_key(Key::Char('h'), 0);
        app.handle_key(Key::Char('l'), 0);
        assert_eq!(app.focus, start);
        app.handle_key(Key::Char('l'), 0);
        app.handle_key(Key::Char('l'), 0);
        app.handle_key(Key::Char('l'), 0);
        assert_eq!(app.focus, start);
        assert_eq!(app.pending_g, None);
    }
}

#[test]
fn g_then_other_key_then_g_waits() {
    let mut app = sample();
    app.handle_key(Key::Char('l'), 0);
    app.handle_key(Key::Char('G'), 0);
    let at = app.package_state;
    app.handle_key(Key::Char('g'), 100);
    app.handle_key(Key::Char('s'), 200);
    app.handle_key(Key::Char('g'), 300);
    assert_eq!(app.pending_g, Some(300));
    assert_eq!(app.package_state, at);
}

#[test]
fn blank_search_lists_the_category() {
    let mut app = sample();
    app.filter_text = "   ".to_string();
    app.recompute_filter();
    assert_eq!(listed(&app), vec!["bash", "bat", "zsh"]);
}
