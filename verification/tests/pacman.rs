use pacwatch::pacman::{
    parse_desc, parse_files, dep_base_name, optdep_base_name, human_size, format_epoch, finish_packages,
    package_from_files, compute_reverse_deps, sort_by_name, InstallReason, Package,
};

const DESC: &str = "%NAME%
bat

%VERSION%
0.26.1-1

%DESC%
A cat clone with syntax highlighting

%URL%
https://github.com/sharkdp/bat

%ARCH%
x86_64

%BUILDDATE%
1700000000

%INSTALLDATE%
1700000500

%PACKAGER%
Someone <someone@example.org>

%SIZE%
5242880

%REASON%
1

%LICENSE%
Apache-2.0
MIT

%VALIDATION%
pgp
sha256

%DEPENDS%
gcc-libs
libgit2>=1.7
zlib

%OPTDEPENDS%
less: paging

";

#[test]
fn desc_fields() {
    let p = parse_desc(DESC);
    assert_eq!(p.name, "bat");
    assert_eq!(p.version, "0.26.1-1");
    assert_eq!(p.description, "A cat clone with syntax highlighting");
    assert_eq!(p.url, "https://github.com/sharkdp/bat");
    assert_eq!(p.architecture, "x86_64");
    assert_eq!(p.build_date, 1700000000);
    assert_eq!(p.install_date, 1700000500);
    assert_eq!(p.packager, "Someone <someone@example.org>");
    assert_eq!(p.installed_size, 5242880);
    assert_eq!(p.install_reason, InstallReason::Dependency);
    assert_eq!(p.licenses, vec!["Apache-2.0", "MIT"]);
    assert_eq!(p.validated_by, "pgp, sha256");
    assert_eq!(p.depends, vec!["gcc-libs", "libgit2>=1.7", "zlib"]);
    assert_eq!(p.optdepends, vec!["less: paging"]);
    assert!(p.groups.is_empty());
    assert!(p.required_by.is_empty());
    assert!(!p.has_install_script);
}

#[test]
fn desc_defaults_and_odd_input() {
    let p = parse_desc("");
    assert_eq!(p.name, "");
    assert_eq!(p.install_reason, InstallReason::Explicit);
    assert_eq!(p.installed_size, 0);
    // a bad number is 0, a reason other than 1 keeps the default
    let p = parse_desc("%SIZE%\n12kb\n\n%REASON%\n0\n\n%BUILDDATE%\n-5\n");
    assert_eq!(p.installed_size, 0);
    assert_eq!(p.install_reason, InstallReason::Explicit);
    assert_eq!(p.build_date, -5);
    // lines outside a record are skipped, unknown fields ignored, the last record wins
    let p = parse_desc("junk\n%NAME%\na\n\n%FOO%\nx\n\n%NAME%\nb\nc\n");
    assert_eq!(p.name, "b");
    // windows line ends, a field with no values
    let p = parse_desc("%NAME%\r\nzsh\r\n\r\n%GROUPS%\n\n");
    assert_eq!(p.name, "zsh");
    assert!(p.groups.is_empty());
}

#[test]
fn files_list() {
    let files = parse_files("%FILES%\nusr/\nusr/bin/bat\n\n%BACKUP%\n");
    assert_eq!(files, vec!["/usr/", "/usr/bin/bat", "/%BACKUP%"]);
    assert!(parse_files("").is_empty());
    assert!(parse_files("%FILES%").is_empty());
}

#[test]
fn base_names() {
    assert_eq!(dep_base_name("libgit2>=1.7"), "libgit2");
    assert_eq!(dep_base_name("glibc"), "glibc");
    assert_eq!(dep_base_name(" python<3.13 "), "python");
    assert_eq!(dep_base_name("sh=1"), "sh");
    assert_eq!(optdep_base_name("less: paging"), "less");
    assert_eq!(optdep_base_name("git"), "git");
    assert_eq!(optdep_base_name(""), "");
}

fn float_size(bytes: u64) -> String {
    const UNITS: [&str; 5] = ["B", "KiB", "MiB", "GiB", "TiB"];
    let mut size = bytes as f64;
    let mut unit = 0;
    while size >= 1024.0 && unit < UNITS.len() - 1 {
        size /= 1024.0;
        unit += 1;
    }
    format!("{:.2} {}", size, UNITS[unit])
}

#[test]
fn human_size_values() {
    assert_eq!(human_size(0), "0.00 B");
    assert_eq!(human_size(1023), "1023.00 B");
    assert_eq!(human_size(1024), "1.00 KiB");
    assert_eq!(human_size(1536), "1.50 KiB");
    assert_eq!(human_size(5242880), "5.00 MiB");
    assert_eq!(human_size(1 << 40), "1.00 TiB");
}

#[test]
fn human_size_matches_float_formatting() {
    let mut samples: Vec<u64> = vec![
        1, 5, 1000, 1023, 1024, 1025, 1029, 1030, 1034, 10240, 1048575, 1048576, 1073741823, 1073741824,
        1099511627775, 1099511627776, u64::MAX, u64::MAX - 1, 1 << 53, (1 << 53) + 1, (1 << 54) + 3,
        9007199254740993, 12345678901234567890, 987654321, 5_000_000_000_000,
    ];
    // ties of the two-decimal rounding
    for k in 0u64..4096 {
        samples.push(k * 1024 / 100 + k);
        samples.push(k * 41 + 7);
        samples.push(k * 1048576 / 200);
    }
    let mut x: u64 = 0x9e3779b97f4a7c15;
    for _ in 0..20000 {
        x ^= x << 13;
        x ^= x >> 7;
        x ^= x << 17;
        samples.push(x >> (x % 64));
    }
    for b in samples {
        assert_eq!(human_size(b), float_size(b), "bytes {}", b);
    }
}

#[test]
fn epoch_text() {
    assert_eq!(format_epoch(0), "Unknown");
    assert_eq!(format_epoch(8_210_266_876_800), "Unknown");
    assert_eq!(format_epoch(-8_334_601_228_801), "Unknown");
    assert_eq!(format_epoch(i64::MAX), "Unknown");
    assert!(chrono::DateTime::from_timestamp(8_210_266_876_799, 0).is_some());
    assert!(chrono::DateTime::from_timestamp(8_210_266_876_800, 0).is_none());
    assert!(chrono::DateTime::from_timestamp(-8_334_601_228_800, 0).is_some());
    assert!(chrono::DateTime::from_timestamp(-8_334_601_228_801, 0).is_none());
    let t = 1_700_000_000i64;
    let utc = chrono::DateTime::from_timestamp(t, 0).unwrap();
    let local: chrono::DateTime<chrono::Local> = utc.into();
    assert_eq!(format_epoch(t), local.format("%a %d %b %Y %I:%M:%S %p %Z").to_string());
    assert_ne!(format_epoch(8_210_266_876_799), "Unknown");
}

fn pkg(name: &str, depends: &[&str], optdepends: &[&str]) -> Package {
    let mut p = Package::default();
    p.name = name.to_string();
    p.depends = depends.iter().map(|s| s.to_string()).collect();
    p.optdepends = optdepends.iter().map(|s| s.to_string()).collect();
    p
}

#[test]
fn reverse_dependencies() {
    let ps = vec![
        pkg("zsh", &["pcre", "gdbm>=1.0"], &["grml-zsh-config: better defaults"]),
        pkg("pcre", &[], &[]),
        pkg("grep", &["pcre"], &[]),
        pkg("gdbm", &[], &[]),
        pkg("grml-zsh-config", &[], &[]),
        pkg("lonely", &["missing-package"], &[]),
    ];
    let out = finish_packages(ps);
    let names: Vec<&str> = out.iter().map(|p| p.name.as_str()).collect();
    assert_eq!(names, vec!["gdbm", "grep", "grml-zsh-config", "lonely", "pcre", "zsh"]);
    let get = |n: &str| out.iter().find(|p| p.name == n).unwrap();
    assert_eq!(get("pcre").required_by, vec!["grep", "zsh"]);
    assert_eq!(get("gdbm").required_by, vec!["zsh"]);
    assert_eq!(get("grml-zsh-config").optional_for, vec!["zsh"]);
    assert!(get("zsh").required_by.is_empty());
    assert!(get("lonely").required_by.is_empty());
}

#[test]
fn reverse_dependencies_repeat_and_keep() {
    // a dependency listed twice counts twice; an untouched list stays as it was
    let mut a = pkg("a", &["b", "b=1"], &[]);
    a.required_by = vec!["kept".to_string()];
    let b = pkg("b", &[], &[]);
    let mut v = vec![a, b];
    compute_reverse_deps(&mut v);
    assert_eq!(v[1].required_by, vec!["a", "a"]);
    assert_eq!(v[0].required_by, vec!["kept"]);
}

#[test]
fn reverse_dependencies_duplicate_names() {
    // a name is looked up to its last package
    let mut v = vec![pkg("x", &[], &[]), pkg("x", &[], &[]), pkg("y", &["x"], &[])];
    compute_reverse_deps(&mut v);
    assert!(v[0].required_by.is_empty());
    assert_eq!(v[1].required_by, vec!["y"]);
}

#[test]
fn sort_is_stable() {
    let mut first = pkg("same", &[], &[]);
    first.version = "1".to_string();
    let mut second = pkg("same", &[], &[]);
    second.version = "2".to_string();
    let out = sort_by_name(vec![pkg("z", &[], &[]), first, pkg("a", &[], &[]), second]);
    let got: Vec<(&str, &str)> = out.iter().map(|p| (p.name.as_str(), p.version.as_str())).collect();
    assert_eq!(got, vec![("a", ""), ("same", "1"), ("same", "2"), ("z", "")]);
}

#[test]
fn orphans_and_labels() {
    let mut p = Package::default();
    assert!(!p.is_orphan());
    p.install_reason = InstallReason::Dependency;
    assert!(p.is_orphan());
    p.required_by.push("x".to_string());
    assert!(!p.is_orphan());
    assert_eq!(InstallReason::Explicit.label(), "Explicitly installed");
    assert_eq!(InstallReason::Dependency.label(), "Installed as a dependency");
    assert!(InstallReason::Explicit.is_explicit());
    assert!(!InstallReason::Dependency.is_explicit());
}

#[test]
fn package_files_together() {
    let p = package_from_files("%NAME%\nbat\n", true, Some("%FILES%\nusr/bin/bat\n"));
    assert_eq!(p.name, "bat");
    assert!(p.has_install_script);
    assert_eq!(p.files, vec!["/usr/bin/bat"]);
    let p = package_from_files("%NAME%\nbat\n", false, None);
    assert!(p.files.is_empty());
}

#[test]
fn epoch_text_picks_the_drawn_time() {
    use_text(0, Some("Mon 01 Jan"), "Unknown");
    use_text(5, None, "Unknown");
    use_text(5, Some("Mon 01 Jan"), "Mon 01 Jan");
}

fn use_text(epoch: i64, drawn: Option<&str>, expected: &str) {
    assert_eq!(pacwatch::pacman::epoch_text(epoch, drawn.map(|d| d.to_string())), expected);
}

#[test]
fn unknown_field_block_is_ignored() {
    let raw = "%NAME%\nbat\n\n%SIZE%\n42\n\n";
    let more = format!("{}%XDATA%\npkgtype=pkg\n\n", raw);
    let a = parse_desc(raw);
    let b = parse_desc(&more);
    assert_eq!(a.name, b.name);
    assert_eq!(a.installed_size, b.installed_size);
    assert_eq!(b.name, "bat");
    assert_eq!(b.installed_size, 42);
    assert_eq!(format!("{:?}", a), format!("{:?}", b));
}
