use sit::install::{
    app_name_from_file, app_name_from_repo, applications_dir, archive_dir, best_executable,
    check_checksum, deb_command, deb_repair_after_failure, download_path, executable_score,
    has_single_top_level, install_menu, is_zip, local_bin_dir, package_kind, parse_checksum, path_in,
    rpm_command, strip_top_dir, sudo_prompt, tar_flag, unpacked_root, ChecksumOutcome,
    InstallChoice, PackageKind,
};
use sit::{CurlInstall, Distro};

const ABC_SHA256: &str = "ba7816bf8f01cfea414140de5dae2223b00361a396177a9cb410ff61f20015ad";
const ABD_SHA256: &str = "a52d159f262b2c6ddb724a61840befc36eb30c88877a4030b65cbe86298449c9";

fn pairs(names: &[&str]) -> Vec<(String, String)> {
    names.iter().map(|n| (n.to_string(), format!("https://example.com/{}", n))).collect()
}

fn choice(c: &InstallChoice) -> (bool, String, String) {
    match c {
        InstallChoice::Download { file_name, url } => (true, file_name.clone(), url.clone()),
        InstallChoice::Script(ci) => (false, ci.display_name.clone(), ci.url.clone()),
    }
}

fn strings(v: &[&str]) -> Vec<String> {
    v.iter().map(|s| s.to_string()).collect()
}

#[test]
fn the_menu_lists_packages_by_rank_then_scripts() {
    let links = pairs(&["app.tar.gz", "app_amd64.deb", "app-beta_amd64.deb", "App.AppImage"]);
    let curls = vec![CurlInstall { url: "https://x.org/i.sh".to_string(), display_name: "curl -fsSL https://x.org/i.sh | bash".to_string() }];
    let m = install_menu(&links, &curls, &Distro::Ubuntu);
    assert_eq!(
        m.names,
        strings(&[
            "✓ app_amd64.deb 📦",
            "   app-beta_amd64.deb 📦",
            "   App.AppImage 🐧",
            "   app.tar.gz 📦",
            "  curl -fsSL https://x.org/i.sh | bash",
        ])
    );
    let cs: Vec<(bool, String, String)> = m.choices.iter().map(choice).collect();
    assert_eq!(
        cs,
        vec![
            (true, "app_amd64.deb".to_string(), "https://example.com/app_amd64.deb".to_string()),
            (true, "app-beta_amd64.deb".to_string(), "https://example.com/app-beta_amd64.deb".to_string()),
            (true, "App.AppImage".to_string(), "https://example.com/App.AppImage".to_string()),
            (true, "app.tar.gz".to_string(), "https://example.com/app.tar.gz".to_string()),
            (false, "curl -fsSL https://x.org/i.sh | bash".to_string(), "https://x.org/i.sh".to_string()),
        ]
    );
    assert_eq!(m.default, 0);
}

#[test]
fn the_menu_marks_the_best_package() {
    let links = pairs(&["app-beta.AppImage", "app-stable.AppImage"]);
    let m = install_menu(&links, &[], &Distro::Unknown);
    assert_eq!(m.names, strings(&["   app-beta.AppImage 🐧", "✓ app-stable.AppImage 🐧"]));
    assert_eq!(m.default, 1);
}

#[test]
fn the_documented_menu() {
    let links = pairs(&["vscode-stable-1.80.0-amd64.deb", "code-1.80.0.tar.gz", "vscode-beta-1.81.0.deb"]);
    let m = install_menu(&links, &[], &Distro::Ubuntu);
    assert_eq!(
        m.names,
        strings(&["✓ vscode-stable-1.80.0-amd64.deb 📦", "   vscode-beta-1.81.0.deb 📦", "   code-1.80.0.tar.gz 📦"])
    );
    assert_eq!(m.default, 0);
}

#[test]
fn a_menu_of_scripts_only() {
    let curls = vec![
        CurlInstall { url: "https://a.org/i.sh".to_string(), display_name: "one".to_string() },
        CurlInstall { url: "https://b.org/i.sh".to_string(), display_name: "two".to_string() },
    ];
    let m = install_menu(&[], &curls, &Distro::Fedora);
    assert_eq!(m.names, strings(&["  one", "  two"]));
    assert_eq!(m.default, 0);
    assert!(install_menu(&[], &[], &Distro::Fedora).choices.is_empty());
}

#[test]
fn application_names() {
    assert_eq!(app_name_from_file("code_1.80.0-1689183569_amd64.deb"), "code");
    assert_eq!(app_name_from_file("brave-browser_1.0_amd64.deb"), "brave");
    assert_eq!(app_name_from_file("firefox.tar.xz"), "firefox.tar.xz");
    assert_eq!(app_name_from_file(""), "");
    assert_eq!(app_name_from_repo("zen-browser/desktop"), "desktop");
    assert_eq!(app_name_from_repo("brave/brave-browser (★17000)"), "brave-browser (★17000)");
    assert_eq!(app_name_from_repo("plain"), "plain");
}

#[test]
fn package_kinds() {
    assert_eq!(package_kind("Zen.AppImage"), PackageKind::AppImage);
    assert_eq!(package_kind("app.DEB"), PackageKind::Deb);
    assert_eq!(package_kind("app.rpm"), PackageKind::Rpm);
    for n in ["a.tar.gz", "a.tar.xz", "a.tar.bz2", "a.zip"] {
        assert_eq!(package_kind(n), PackageKind::Archive);
    }
    assert_eq!(package_kind("a.exe"), PackageKind::Other);
}

#[test]
fn paths() {
    assert_eq!(download_path("app.deb"), "/tmp/sit-downloads/app.deb");
    assert_eq!(local_bin_dir("/home/u"), "/home/u/.local/bin");
    assert_eq!(applications_dir("/home/u"), "/home/u/.local/share/applications");
    assert_eq!(archive_dir("/home/u", "zen"), "/home/u/.local/opt/zen");
    assert_eq!(path_in("/home/u/.local/bin", "zen"), "/home/u/.local/bin/zen");
}

#[test]
fn checksum_lines() {
    let text = format!("{}  abc.txt\n", ABC_SHA256);
    assert_eq!(parse_checksum(&text), Some(ABC_SHA256.to_string()));
    let upper = format!("# sums\n  {} *abc.txt  \n", ABC_SHA256.to_uppercase());
    assert_eq!(parse_checksum(&upper), Some(ABC_SHA256.to_string()));
    assert_eq!(parse_checksum(ABC_SHA256), None);
    assert_eq!(parse_checksum("deadbeef  short.txt"), None);
    assert_eq!(parse_checksum(""), None);
}

#[test]
fn checksum_outcomes() {
    let text = format!("{}  abc.txt\n", ABC_SHA256);
    assert!(matches!(check_checksum(&text, b"abc"), ChecksumOutcome::Verified));
    match check_checksum(&text, b"abd") {
        ChecksumOutcome::Mismatch { expected, actual } => {
            assert_eq!(expected, ABC_SHA256);
            assert_eq!(actual, ABD_SHA256);
            assert_eq!(actual.len(), 64);
        }
        _ => panic!("expected a mismatch"),
    }
    assert!(matches!(check_checksum("no hash here", b"abc"), ChecksumOutcome::Unrecognised));
}

#[test]
fn archive_listings() {
    assert!(has_single_top_level("app-1.0/\napp-1.0/bin/app\napp-1.0/README\n"));
    assert!(has_single_top_level("app\n"));
    assert!(!has_single_top_level("a/x\nb/y\n"));
    assert!(!has_single_top_level(""));
    assert!(!has_single_top_level("/abs\n"));
    assert!(!strip_top_dir("App.ZIP", Some("app/\napp/x\n")));
    assert!(strip_top_dir("app.tar.gz", None));
    assert!(strip_top_dir("app.tar.gz", Some("app/\napp/x\n")));
    assert!(!strip_top_dir("app.tar.gz", Some("x\ny\n")));
}

#[test]
fn zips_are_told_apart() {
    assert!(is_zip("App-Linux.ZIP"));
    assert!(!is_zip("app.tar.gz"));
    assert!(!is_zip("zip.deb"));
}

#[test]
fn tar_flags() {
    assert_eq!(tar_flag("a.tar.gz"), "-xzf");
    assert_eq!(tar_flag("a.TAR.XZ"), "-xJf");
    assert_eq!(tar_flag("a.tar.bz2"), "-xjf");
}

#[test]
fn executables_are_scored() {
    assert_eq!(executable_score("/opt/app/bin/app", "app", "app"), Some(3));
    assert_eq!(executable_score("/opt/x/bin/run", "run", "app"), Some(2));
    assert_eq!(executable_score("/opt/app/tool", "tool", "app"), Some(1));
    assert_eq!(executable_score("/opt/x/run", "run", "app"), Some(0));
    for f in ["libfoo", "x.so", "x.so.", "x.desktop", "x.txt", "x.md", "x.sh", "x.py", "x.rb"] {
        assert_eq!(executable_score(&format!("/opt/app/bin/{}", f), f, "app"), None, "{}", f);
    }
}

#[test]
fn the_best_executable_is_the_first_highest() {
    let c = vec![(1, "a".to_string()), (3, "b".to_string()), (3, "c".to_string()), (0, "d".to_string())];
    assert_eq!(best_executable(&c), Some("b".to_string()));
    assert_eq!(best_executable(&vec![]), None);
}

#[test]
fn package_commands() {
    assert_eq!(deb_command(&Distro::Ubuntu, "f.deb"), strings(&["apt", "install", "-y", "f.deb"]));
    assert_eq!(deb_command(&Distro::Fedora, "f.deb"), strings(&["dpkg", "-i", "f.deb"]));
    assert_eq!(deb_command(&Distro::Unknown, "f.deb"), strings(&["dpkg", "-i", "f.deb"]));
    assert!(!deb_repair_after_failure(&Distro::Ubuntu));
    assert!(deb_repair_after_failure(&Distro::Fedora));
    assert!(deb_repair_after_failure(&Distro::Unknown));
    assert_eq!(rpm_command(&Distro::Fedora, "f.rpm"), strings(&["dnf", "install", "-y", "f.rpm"]));
    assert_eq!(rpm_command(&Distro::Ubuntu, "f.rpm"), strings(&["rpm", "-i", "f.rpm"]));
}

#[test]
fn the_unpacked_root() {
    assert_eq!(unpacked_root("/o", &vec![("/o/app-1.0".to_string(), true)]), "/o/app-1.0");
    assert_eq!(unpacked_root("/o", &vec![("/o/app".to_string(), false)]), "/o");
    assert_eq!(unpacked_root("/o", &vec![("/o/a".to_string(), true), ("/o/b".to_string(), true)]), "/o");
    assert_eq!(unpacked_root("/o", &vec![]), "/o");
}

#[test]
fn sudo_prompts() {
    assert_eq!(sudo_prompt("install this .deb package"), "Are you sure you want to install this .deb package?");
}
