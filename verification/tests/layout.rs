use pacwatch::layout::{
    fit_name, gap_width, list_summary, pad_right, clamp_scroll, help_area, fit_hints, wrap_text, row_layout,
    packages_title, empty_hint, filter_bar, value_width, hints, build_packages_title,
};
use pacwatch::app::App;
use pacwatch::categories::CategoryMap;

#[test]
fn names_fit() {
    assert_eq!(fit_name("linux-firmware", 8), "linux-f…");
    assert_eq!(fit_name("bash", 8), "bash");
    assert_eq!(fit_name("bash", 4), "bash");
    assert_eq!(fit_name("bash", 1), "…");
    assert_eq!(fit_name("bash", 0), "…");
    assert_eq!(fit_name("ünïcödé", 4), "ünï…");
}

#[test]
fn gaps() {
    assert_eq!(gap_width(20, 5), 15);
    assert_eq!(gap_width(5, 5), 1);
    assert_eq!(gap_width(3, 9), 1);
}

#[test]
fn summaries() {
    assert_eq!(list_summary(&Vec::new()), "None");
    let v = vec!["glibc".to_string(), "zlib".to_string()];
    assert_eq!(list_summary(&v), "(2) glibc, zlib");
}

#[test]
fn padding() {
    assert_eq!(pad_right("URL", 6), format!("{:<6}", "URL"));
    assert_eq!(pad_right("Install Reason", 14), "Install Reason");
    assert_eq!(pad_right("much too long", 4), "much too long");
    assert_eq!(pad_right("é", 3), format!("{:<3}", "é"));
}

#[test]
fn scrolling() {
    assert_eq!(clamp_scroll(50, 20, 100), (30, 30));
    assert_eq!(clamp_scroll(50, 20, 10), (30, 10));
    assert_eq!(clamp_scroll(10, 20, 5), (0, 0));
    assert_eq!(clamp_scroll(70000, 10, 9000), ((70000u32 as u16) - 10, 4454));
}

#[test]
fn help_window() {
    assert_eq!(help_area(100, 40), (19, 12, 62, 16));
    assert_eq!(help_area(30, 10), (2, 2, 26, 6));
    assert_eq!(help_area(3, 2), (1, 1, 0, 0));
}

#[test]
fn status_hints() {
    let hs = hints();
    assert_eq!(hs.len(), 8);
    let all: usize = hs.iter().map(|(k, l)| k.chars().count() + l.chars().count() + 2).sum();
    assert_eq!(fit_hints(200, 0), (8, all));
    assert_eq!(fit_hints(14, 0), (1, 14));
    assert_eq!(fit_hints(13, 0), (0, 0));
    assert_eq!(fit_hints(30, 10), (1, 14));
    assert_eq!(fit_hints(33, 10), (2, 23));
}

#[test]
fn wrapping() {
    assert_eq!(wrap_text("a cat clone with wings", 10), vec!["a cat", "clone with", "wings"]);
    assert_eq!(wrap_text("", 10), vec![""]);
    assert_eq!(wrap_text("   ", 10), vec![""]);
    assert_eq!(wrap_text("abcdefghijklmnopqrstuvwxyz", 10), vec!["abcdefghij", "klmnopqrst", "uvwxyz"]);
    assert_eq!(wrap_text("hi abcdefghijklmnopqrstuvwxyz ok", 10), vec!["hi", "abcdefghij", "klmnopqrst", "uvwxyz ok"]);
    assert_eq!(wrap_text("https://example.org/a/very/long/url", 12), vec!["https://exam", "ple.org/a/ve", "ry/long/url"]);
    assert_eq!(wrap_text("exactlyten", 10), vec!["exactlyten"]);
    for line in wrap_text("some words and averyveryverylongword mixed in", 7) {
        assert!(line.chars().count() <= 7);
    }
}

#[test]
fn rows() {
    assert_eq!(row_layout("linux-firmware", "1.50 KiB", "", 16), ("linux-…".to_string(), 1));
    assert_eq!(row_layout("bash", "9.00 KiB", "", 20), ("bash".to_string(), 8));
    assert_eq!(row_layout("bash", "9.00 KiB", " [Shells]", 30), ("bash".to_string(), 9));
    assert_eq!(row_layout("bash", "9.00 KiB", " [Ünï]", 20).1, 1);
}

#[test]
fn titles() {
    assert_eq!(packages_title(3, 10, 0, "a-z", 40), "Packages (3/10) [sort: a-z]");
    assert_eq!(packages_title(3, 10, 0, "a-z", 20), "Packages (3/10)");
    assert_eq!(packages_title(3, 10, 2, "a-z", 40), "Packages (3/10) [2 marked]");
    assert_eq!(packages_title(3, 10, 0, "a-z", 1), "Packages (3/10)");
}

#[test]
fn hints_and_bars() {
    assert_eq!(empty_hint(true, false), "No packages match this search.\nPress Esc to clear it.");
    assert_eq!(
        empty_hint(false, false),
        "Nothing explicitly installed here.\nPress '.' to also show dependency packages."
    );
    assert_eq!(empty_hint(false, true), "No packages in this category.");
    assert_eq!(filter_bar(true, ""), ("Search", " Type to search…".to_string()));
    assert_eq!(filter_bar(true, "zs"), ("Search", " zs_".to_string()));
    assert_eq!(filter_bar(false, "zs"), ("pacwatch", " Type / to search (c: category, d: description)".to_string()));
    assert_eq!(value_width(80), 62);
    assert_eq!(value_width(20), 10);
    assert_eq!(value_width(0), 10);
}

#[test]
fn title_of_a_browser() {
    let mut p = pacwatch::pacman::Package::default();
    p.name = "bash".to_string();
    let app = App::new(vec![p], CategoryMap::new());
    assert_eq!(build_packages_title(&app, 40), "Packages (1/1) [sort: a-z]");
    assert_eq!(build_packages_title(&app, 10), "Packages (1/1)");
}
