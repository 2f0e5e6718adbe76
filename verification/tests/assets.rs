use sit::assets::{
    auto_select_best_package, capitalise, desktop_entry, desktop_file_path, detect_os,
    distro_from_os_release, distro_label, extract_fname, is_ddg_captcha, is_valid_asset,
    sort_assets,
};
use sit::Distro;

fn pairs(names: &[&str]) -> Vec<(String, String)> {
    names
        .iter()
        .map(|n| (n.to_string(), format!("https://example.com/{}", n)))
        .collect()
}

fn names_of(v: &[(String, String)]) -> Vec<String> {
    v.iter().map(|(n, _)| n.clone()).collect()
}

#[test]
fn distro_labels() {
    assert_eq!(distro_label(&Distro::Fedora), "Fedora/RHEL (dnf)");
    assert_eq!(distro_label(&Distro::Ubuntu), "Ubuntu/Debian (apt)");
    assert_eq!(distro_label(&Distro::Unknown), "Unknown (generic)");
}

#[test]
fn native_packages_follow_the_distro() {
    assert!(is_valid_asset("app_1.0_amd64.deb", &Distro::Ubuntu));
    assert!(!is_valid_asset("app_1.0_amd64.deb", &Distro::Fedora));
    assert!(!is_valid_asset("app_1.0_amd64.deb", &Distro::Unknown));
    assert!(is_valid_asset("app-1.0.x86_64.rpm", &Distro::Fedora));
    assert!(!is_valid_asset("app-1.0.x86_64.rpm", &Distro::Ubuntu));
    assert!(is_valid_asset("App-1.0.AppImage", &Distro::Unknown));
    assert!(is_valid_asset("app-1.0.tar.xz", &Distro::Unknown));
    assert!(is_valid_asset("app-1.0.tar.bz2", &Distro::Fedora));
}

#[test]
fn upper_case_names_are_judged_lower_cased() {
    assert!(is_valid_asset("APP_AMD64.DEB", &Distro::Ubuntu));
    assert!(is_valid_asset("APP.TAR.GZ", &Distro::Unknown));
}

#[test]
fn foreign_platforms_and_side_files_are_refused() {
    for n in [
        "app-arm64.AppImage", "app-aarch64.tar.gz", "app-armv7.deb", "app-armhf.deb",
        "app-darwin.tar.gz", "app-macos.zip", "app-mac.tar.gz", "app-win64.zip", "app.exe",
        "app.msi", "app.dmg", "app.pkg.tar.gz", "app-i686.tar.gz", "app-i386.deb",
        "app.deb.sha256", "app.tar.gz.sha512", "app.deb.sig", "app.deb.asc", "latest.json",
        "notes.txt", "app.AppImage.blockmap", "app.AppImage.zsync",
    ] {
        assert!(!is_valid_asset(n, &Distro::Ubuntu), "{}", n);
    }
}

#[test]
fn musl_builds_only_where_the_distro_is_unknown() {
    assert!(!is_valid_asset("app-x86_64-musl.tar.gz", &Distro::Ubuntu));
    assert!(!is_valid_asset("app-x86_64-musl.tar.gz", &Distro::Fedora));
    assert!(is_valid_asset("app-x86_64-musl.tar.gz", &Distro::Unknown));
}

#[test]
fn zips_need_a_linux_or_x64_marker() {
    assert!(is_valid_asset("app-linux.zip", &Distro::Ubuntu));
    assert!(is_valid_asset("app-x64.zip", &Distro::Ubuntu));
    assert!(is_valid_asset("app-amd64.zip", &Distro::Fedora));
    assert!(!is_valid_asset("app.zip", &Distro::Ubuntu));
}

#[test]
fn installers_need_a_linux_or_x64_marker() {
    assert!(!is_valid_asset("app-setup.tar.gz", &Distro::Ubuntu));
    assert!(!is_valid_asset("app-installer.AppImage", &Distro::Unknown));
    assert!(is_valid_asset("app-setup-linux.tar.gz", &Distro::Ubuntu));
    assert!(is_valid_asset("app-installer-x64.AppImage", &Distro::Unknown));
}

#[test]
fn sort_puts_native_format_first_then_appimage() {
    let mut v = pairs(&["a.tar.gz", "b.AppImage", "c.deb", "d.rpm", "e.deb"]);
    sort_assets(&mut v, &Distro::Ubuntu);
    assert_eq!(names_of(&v), vec!["c.deb", "e.deb", "b.AppImage", "a.tar.gz", "d.rpm"]);

    let mut v = pairs(&["a.tar.gz", "b.AppImage", "c.deb", "d.rpm"]);
    sort_assets(&mut v, &Distro::Fedora);
    assert_eq!(names_of(&v), vec!["d.rpm", "b.AppImage", "a.tar.gz", "c.deb"]);

    let mut v = pairs(&["a.tar.gz", "b.AppImage", "c.deb", "D.APPIMAGE"]);
    sort_assets(&mut v, &Distro::Unknown);
    assert_eq!(names_of(&v), vec!["b.AppImage", "D.APPIMAGE", "a.tar.gz", "c.deb"]);
}

#[test]
fn sort_keeps_urls_with_their_names() {
    let mut v = pairs(&["z.tar.gz", "y.deb"]);
    sort_assets(&mut v, &Distro::Ubuntu);
    assert_eq!(v[0], ("y.deb".to_string(), "https://example.com/y.deb".to_string()));
    assert_eq!(v[1], ("z.tar.gz".to_string(), "https://example.com/z.tar.gz".to_string()));
}

#[test]
fn sorting_twice_changes_nothing() {
    let mut v = pairs(&["a.zip", "b.AppImage", "c.rpm", "d.tar.xz", "e.AppImage", "f.rpm"]);
    sort_assets(&mut v, &Distro::Fedora);
    let once = v.clone();
    sort_assets(&mut v, &Distro::Fedora);
    assert_eq!(v, once);
}

#[test]
fn sorting_keeps_every_entry() {
    let orig = pairs(&["a.zip", "b.AppImage", "c.rpm", "d.tar.xz", "e.AppImage", "c.rpm"]);
    let mut v = orig.clone();
    sort_assets(&mut v, &Distro::Fedora);
    let mut x = orig.clone();
    let mut y = v.clone();
    x.sort();
    y.sort();
    assert_eq!(x, y);
}

#[test]
fn os_is_guessed_from_url_and_name() {
    assert_eq!(detect_os("https://x.org/dl/app.exe", "app.exe"), "Windows");
    assert_eq!(detect_os("https://x.org/Windows/app", "app"), "Windows");
    assert_eq!(detect_os("https://x.org/app.MSI", "app"), "Windows");
    assert_eq!(detect_os("https://x.org/app.dmg", "app.dmg"), "macOS");
    assert_eq!(detect_os("https://x.org/darwin/app", "app"), "macOS");
    assert_eq!(detect_os("https://x.org/app.deb", "app.deb"), "Linux");
}

#[test]
fn best_package_follows_the_scoring_table() {
    // The example of the documentation: the stable amd64 .deb wins on Ubuntu.
    let links = pairs(&["vscode-stable-1.80.0-amd64.deb", "code-1.80.0.tar.gz", "vscode-beta-1.81.0.deb"]);
    assert_eq!(auto_select_best_package(&links, &Distro::Ubuntu), 0);

    // Native format is worth most.
    let links = pairs(&["app.tar.gz", "app.rpm"]);
    assert_eq!(auto_select_best_package(&links, &Distro::Fedora), 1);
    let links = pairs(&["app.deb", "app.AppImage"]);
    assert_eq!(auto_select_best_package(&links, &Distro::Unknown), 1);

    // Pre-releases lose five points.
    let links = pairs(&["app-rc1.AppImage", "app.AppImage"]);
    assert_eq!(auto_select_best_package(&links, &Distro::Unknown), 1);

    // stable (+5) beats latest (+3) and an architecture marker (+2).
    let links = pairs(&["app-latest.tar.gz", "app-x86_64.tar.gz", "app-stable.tar.gz"]);
    assert_eq!(auto_select_best_package(&links, &Distro::Ubuntu), 2);

    // release (+3) plus amd64 (+2) beats stable (+5)? No: equal, the first stays.
    let links = pairs(&["app-stable.tar.gz", "app-release-amd64.tar.gz"]);
    assert_eq!(auto_select_best_package(&links, &Distro::Ubuntu), 0);
}

#[test]
fn best_package_ties_go_to_the_first() {
    let links = pairs(&["a.tar.gz", "b.tar.gz", "c.tar.gz"]);
    assert_eq!(auto_select_best_package(&links, &Distro::Ubuntu), 0);
    let links = pairs(&["a-dev.tar.gz", "b.tar.gz", "c.tar.gz"]);
    assert_eq!(auto_select_best_package(&links, &Distro::Ubuntu), 1);
}

#[test]
fn best_package_of_nothing_is_zero() {
    assert_eq!(auto_select_best_package(&[], &Distro::Ubuntu), 0);
}

#[test]
fn file_name_is_the_last_path_part_without_query() {
    assert_eq!(extract_fname("https://example.com/dl/app-1.0.tar.gz"), "app-1.0.tar.gz");
    assert_eq!(extract_fname("https://example.com/dl/app.deb?version=2&x=1"), "app.deb");
    assert_eq!(extract_fname("https://example.com/dl/"), "");
    assert_eq!(extract_fname("app.rpm"), "app.rpm");
    assert_eq!(extract_fname(""), "");
}

#[test]
fn file_names_hold_no_slash_or_question_mark() {
    for u in ["https://a.b/c/d?e/f?g", "a?b/c", "////", "x/y/z?"] {
        let f = extract_fname(u);
        assert!(!f.contains('/') && !f.contains('?'), "{}", f);
    }
}

#[test]
fn captcha_needs_both_markers() {
    assert!(is_ddg_captcha("<div class=\"anomaly-modal\">Solve the challenge</div>"));
    assert!(!is_ddg_captcha("<div class=\"anomaly-modal\"></div>"));
    assert!(!is_ddg_captcha("challenge"));
}

#[test]
fn capitalise_upper_cases_the_first_character() {
    assert_eq!(capitalise("zen"), "Zen");
    assert_eq!(capitalise(""), "");
    assert_eq!(capitalise("Brave"), "Brave");
    assert_eq!(capitalise("élan"), "Élan");
    assert_eq!(capitalise("ßx"), "SSx");
    assert_eq!(capitalise("1app"), "1app");
}

#[test]
fn desktop_entry_text() {
    assert_eq!(
        desktop_entry("zen", "/home/u/.local/bin/zen"),
        "[Desktop Entry]\nVersion=1.0\nType=Application\nName=Zen\nComment=Zen (installed by sit)\nExec=/home/u/.local/bin/zen\nIcon=Zen\nTerminal=false\nCategories=Utility;\n"
    );
    assert_eq!(desktop_file_path("/home/u/.local/share/applications", "zen"), "/home/u/.local/share/applications/zen.desktop");
}

#[test]
fn distro_from_os_release_text() {
    assert_eq!(distro_from_os_release("NAME=\"Fedora Linux\"\nID=fedora\n"), Distro::Fedora);
    assert_eq!(distro_from_os_release("ID=\"rocky\"\nID_LIKE=\"rhel centos fedora\"\n"), Distro::Fedora);
    assert_eq!(distro_from_os_release("NAME=\"Ubuntu\"\nID=ubuntu\nID_LIKE=debian\n"), Distro::Ubuntu);
    assert_eq!(distro_from_os_release("ID=linuxmint\n"), Distro::Ubuntu);
    assert_eq!(distro_from_os_release("NAME=\"Pop!_OS\"\nID=pop\n"), Distro::Ubuntu);
    assert_eq!(distro_from_os_release("ID=KALI\n"), Distro::Ubuntu);
    assert_eq!(distro_from_os_release("NAME=\"Arch Linux\"\nID=arch\n"), Distro::Unknown);
    assert_eq!(distro_from_os_release(""), Distro::Unknown);
}

#[test]
fn asset_validity_ignores_ascii_case() {
    for n in ["App_AMD64.DEB", "Tool-X86_64.AppImage", "SETUP.tar.gz", "App-Linux.ZIP", "app.RPM", "Notes.TXT"] {
        for d in [Distro::Fedora, Distro::Ubuntu, Distro::Unknown] {
            assert_eq!(is_valid_asset(n, &d), is_valid_asset(&n.to_lowercase(), &d), "{}", n);
        }
    }
}
