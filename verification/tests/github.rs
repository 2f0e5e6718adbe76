use sit::github::{field_str, field_u64, get_field, github_search_matches, release_assets, release_install, Json, ReleaseAssets};
use sit::Distro;

fn s(x: &str) -> Json {
    Json::Str(x.to_string())
}

fn obj(members: Vec<(&str, Json)>) -> Json {
    Json::Object(members.into_iter().map(|(k, v)| (k.to_string(), v)).collect())
}

fn repo(name: Option<&str>, stars: Option<u64>) -> Json {
    let mut m = Vec::new();
    if let Some(n) = name {
        m.push(("full_name", s(n)));
    }
    m.push(("stargazers_count", Json::Number(stars)));
    obj(m)
}

fn asset(name: &str) -> Json {
    obj(vec![("name", s(name)), ("browser_download_url", s(&format!("https://github.com/o/r/releases/download/v1/{}", name)))])
}

fn dl(name: &str) -> String {
    format!("https://github.com/o/r/releases/download/v1/{}", name)
}

#[test]
fn fields_are_read_by_key() {
    let j = obj(vec![("a", s("x")), ("n", Json::Number(Some(7))), ("a", s("later"))]);
    assert_eq!(field_str(&j, "a"), Some("x".to_string()));
    assert_eq!(field_u64(&j, "n"), Some(7));
    assert_eq!(field_str(&j, "n"), None);
    assert_eq!(field_u64(&j, "missing"), None);
    assert!(get_field(&j, "missing").is_none());
    assert!(get_field(&Json::Null, "a").is_none());
    assert!(get_field(&s("text"), "a").is_none());
}

#[test]
fn search_results_become_matches() {
    let items = vec![
        repo(Some("brave/brave-browser"), Some(17000)),
        repo(None, Some(5)),
        repo(Some(""), Some(5)),
        repo(Some("zen-browser/desktop"), None),
        repo(Some("a/b"), Some(1)),
        repo(Some("c/d"), Some(2)),
        repo(Some("e/f"), Some(3)),
    ];
    let json = obj(vec![("total_count", Json::Number(Some(7))), ("items", Json::Array(items))]);
    let found = github_search_matches(&json);
    let got: Vec<(String, String, String)> = found.iter().map(|m| (m.name.clone(), m.platform.clone(), m.url.clone())).collect();
    assert_eq!(
        got,
        vec![
            ("brave/brave-browser (★17000)".to_string(), "GitHub".to_string(), "https://api.github.com/repos/brave/brave-browser/releases/latest".to_string()),
            ("zen-browser/desktop (★0)".to_string(), "GitHub".to_string(), "https://api.github.com/repos/zen-browser/desktop/releases/latest".to_string()),
            ("a/b (★1)".to_string(), "GitHub".to_string(), "https://api.github.com/repos/a/b/releases/latest".to_string()),
        ]
    );
}

#[test]
fn a_search_answer_without_items_gives_nothing() {
    assert!(github_search_matches(&obj(vec![("message", s("rate limited"))])).is_empty());
    assert!(github_search_matches(&Json::Null).is_empty());
    assert!(github_search_matches(&obj(vec![("items", s("oops"))])).is_empty());
}

fn release() -> Json {
    obj(vec![
        ("tag_name", s("v1")),
        (
            "assets",
            Json::Array(vec![
                asset("app-1.0.x86_64.rpm"),
                asset("app-1.0_amd64.deb"),
                asset("app-1.0_amd64.deb.sha256"),
                asset("app-1.0.AppImage"),
                asset("app-1.0-arm64.AppImage"),
                asset("app-1.0.tar.gz"),
                asset("app-1.0.tar.gz.sha512"),
                asset("app-win.exe"),
                obj(vec![("name", s("no-url.deb"))]),
            ]),
        ),
    ])
}

fn offered(r: ReleaseAssets) -> (Vec<(String, String)>, Vec<String>, Vec<(String, String)>) {
    match r {
        ReleaseAssets::Choose { assets, names, checksums } => (assets, names, checksums),
        ReleaseAssets::NoAssets => panic!("no assets"),
        ReleaseAssets::NoCompatible => panic!("none compatible"),
    }
}

#[test]
fn release_assets_are_filtered_and_sorted() {
    let (assets, names, checksums) = offered(release_assets(&release(), &Distro::Ubuntu));
    assert_eq!(
        assets,
        vec![
            ("app-1.0_amd64.deb".to_string(), dl("app-1.0_amd64.deb")),
            ("app-1.0.AppImage".to_string(), dl("app-1.0.AppImage")),
            ("app-1.0.tar.gz".to_string(), dl("app-1.0.tar.gz")),
        ]
    );
    assert_eq!(names, vec!["app-1.0_amd64.deb ✓sha256".to_string(), "app-1.0.AppImage".to_string(), "app-1.0.tar.gz ✓sha256".to_string()]);
    assert_eq!(
        checksums,
        vec![
            ("app-1.0_amd64.deb".to_string(), dl("app-1.0_amd64.deb.sha256")),
            ("app-1.0.tar.gz".to_string(), dl("app-1.0.tar.gz.sha512")),
        ]
    );

    let (assets, _, _) = offered(release_assets(&release(), &Distro::Fedora));
    let names: Vec<String> = assets.iter().map(|a| a.0.clone()).collect();
    assert_eq!(names, vec!["app-1.0.x86_64.rpm", "app-1.0.AppImage", "app-1.0.tar.gz"]);
}

#[test]
fn a_list_of_releases_uses_the_first() {
    let (assets, _, _) = offered(release_assets(&Json::Array(vec![release(), Json::Null]), &Distro::Unknown));
    let names: Vec<String> = assets.iter().map(|a| a.0.clone()).collect();
    assert_eq!(names, vec!["app-1.0.AppImage", "app-1.0.tar.gz"]);
}

#[test]
fn releases_without_assets_or_compatible_ones() {
    assert!(matches!(release_assets(&obj(vec![("assets", Json::Array(vec![]))]), &Distro::Ubuntu), ReleaseAssets::NoAssets));
    assert!(matches!(release_assets(&obj(vec![("message", s("Not Found"))]), &Distro::Ubuntu), ReleaseAssets::NoAssets));
    assert!(matches!(release_assets(&Json::Array(vec![]), &Distro::Ubuntu), ReleaseAssets::NoAssets));
    let only_foreign = obj(vec![("assets", Json::Array(vec![asset("app-macos.dmg"), asset("app.sha256")]))]);
    assert!(matches!(release_assets(&only_foreign, &Distro::Ubuntu), ReleaseAssets::NoCompatible));
}

#[test]
fn the_chosen_release_asset() {
    let (assets, _, checksums) = offered(release_assets(&release(), &Distro::Ubuntu));
    let r = release_install(&assets, &checksums, 0, "brave/brave-browser (★17000)");
    assert_eq!(r.file_name, "app-1.0_amd64.deb");
    assert_eq!(r.url, dl("app-1.0_amd64.deb"));
    assert_eq!(r.app_name, "brave-browser (★17000)");
    assert_eq!(r.checksum_url, Some(dl("app-1.0_amd64.deb.sha256")));
    let r = release_install(&assets, &checksums, 1, "owner/zen");
    assert_eq!(r.app_name, "zen");
    assert_eq!(r.checksum_url, None);
}
