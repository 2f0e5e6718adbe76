use sit::direct::{
    common_path_of, find_download_subpage, is_script_body, scan_curl_commands, DirectAction,
    DirectNote, DirectUrlSession, FetchedPage, Phase,
};
use sit::Distro;

fn page(url: &str, content_type: &str, body: &str) -> Option<FetchedPage> {
    Some(FetchedPage { final_url: url.to_string(), content_type: content_type.to_string(), body: body.to_string() })
}

fn html(url: &str, body: &str) -> Option<FetchedPage> {
    page(url, "text/html; charset=utf-8", body)
}

fn note(n: &DirectNote) -> String {
    match n {
        DirectNote::FetchFailed(u) => format!("failed {}", u),
        DirectNote::ScriptDetected => "script".to_string(),
        DirectNote::Fetched(u) => format!("fetched {}", u),
        DirectNote::LookingForDownloadPage => "subpage".to_string(),
        DirectNote::TryingCommonPaths => "common".to_string(),
        DirectNote::CurlCommandsFound(k) => format!("curl {}", k),
        DirectNote::VsCodeDetected => "vscode".to_string(),
        DirectNote::FirefoxDetected => "firefox".to_string(),
        DirectNote::GitHubRepoFound(r) => format!("github {}", r),
        DirectNote::NothingFound => "nothing".to_string(),
    }
}

fn notes(v: &[DirectNote]) -> Vec<String> {
    v.iter().map(note).collect()
}

fn fetch_target(a: &DirectAction) -> String {
    match a {
        DirectAction::Fetch(u) => u.clone(),
        _ => panic!("expected a fetch"),
    }
}

type Offer = (Vec<(String, String)>, Vec<(String, String)>);

fn offer(a: &DirectAction) -> Offer {
    match a {
        DirectAction::Install { links, curls } => {
            (links.clone(), curls.iter().map(|c| (c.url.clone(), c.display_name.clone())).collect())
        }
        _ => panic!("expected an install offer"),
    }
}

fn is_done(a: &DirectAction) -> bool {
    matches!(a, DirectAction::Done)
}

#[test]
fn a_session_starts_by_fetching_the_url() {
    let (s, a) = DirectUrlSession::new("https://example.com", &Distro::Ubuntu);
    assert_eq!(fetch_target(&a), "https://example.com");
    assert_eq!(s.phase(), Phase::Main);
}

#[test]
fn a_failed_fetch_ends_the_session() {
    let (s, _) = DirectUrlSession::new("https://example.com", &Distro::Ubuntu);
    let (s, n, a) = s.step(None);
    assert_eq!(notes(&n), vec!["failed https://example.com"]);
    assert!(is_done(&a));
    assert_eq!(s.phase(), Phase::Done);
}

#[test]
fn a_script_answer_is_offered_as_curl_bash() {
    let (s, _) = DirectUrlSession::new("https://get.docker.com", &Distro::Ubuntu);
    let (s, n, a) = s.step(page("https://get.docker.com/", "text/plain", "\n  #!/bin/sh\necho hi\n"));
    assert_eq!(notes(&n), vec!["script"]);
    match a {
        DirectAction::RunScript(c) => {
            assert_eq!(c.url, "https://get.docker.com/");
            assert_eq!(c.display_name, "curl -fsSL https://get.docker.com/ | bash");
        }
        _ => panic!("expected a script"),
    }
    assert_eq!(s.phase(), Phase::Done);
}

#[test]
fn script_bodies() {
    assert!(is_script_body("text/plain", "#!/bin/bash\n"));
    assert!(is_script_body("", "# install me\n"));
    assert!(!is_script_body("text/html", "#!/bin/bash\n"));
    assert!(!is_script_body("text/plain", "   \n"));
    assert!(!is_script_body("text/plain", "echo hi"));
}

#[test]
fn packages_on_the_page_are_offered() {
    let (s, _) = DirectUrlSession::new("https://example.com/app", &Distro::Ubuntu);
    let body = r#"<a href="/dl/app_1.0_amd64.deb">deb</a><a href="/install.sh">script</a>"#;
    let (s, n, a) = s.step(html("https://example.com/app", body));
    assert_eq!(notes(&n), vec!["fetched https://example.com/app"]);
    assert_eq!(
        offer(&a),
        (
            vec![("app_1.0_amd64.deb".to_string(), "https://example.com/dl/app_1.0_amd64.deb".to_string())],
            vec![("https://example.com/install.sh".to_string(), "curl -fsSL https://example.com/install.sh | bash".to_string())],
        )
    );
    assert_eq!(s.phase(), Phase::Done);
}

#[test]
fn the_download_subpage_is_followed() {
    let (s, _) = DirectUrlSession::new("https://example.com/", &Distro::Fedora);
    let body = r#"<a href="https://www.youtube.com/download">video</a><a href="https://other.org/download">elsewhere</a><a href="/get">Download now</a>"#;
    let (s, n, a) = s.step(html("https://example.com/", body));
    assert_eq!(notes(&n), vec!["fetched https://example.com/", "subpage"]);
    assert_eq!(fetch_target(&a), "https://example.com/get");
    assert_eq!(s.phase(), Phase::SubPage);
    let (s, n, a) = s.step(html("https://example.com/get", r#"<a href="files/app.x86_64.rpm">rpm</a>"#));
    assert!(n.is_empty());
    assert_eq!(offer(&a), (vec![("app.x86_64.rpm".to_string(), "https://example.com/files/app.x86_64.rpm".to_string())], vec![]));
    assert_eq!(s.phase(), Phase::Done);
}

#[test]
fn common_paths_are_tried_in_turn() {
    let (s, _) = DirectUrlSession::new("https://example.org/", &Distro::Ubuntu);
    let (s, n, a) = s.step(html("https://example.org/", "<p>hello</p>"));
    assert_eq!(notes(&n), vec!["fetched https://example.org/", "subpage", "common"]);
    assert_eq!(fetch_target(&a), "https://example.org/download");
    assert_eq!(s.phase(), Phase::CommonPath(0));
    let (s, n, a) = s.step(None);
    assert!(n.is_empty());
    assert_eq!(fetch_target(&a), "https://example.org/downloads");
    let (s, n, a) = s.step(html("https://example.org/downloads", "<p>still nothing</p>"));
    assert!(n.is_empty());
    assert_eq!(fetch_target(&a), "https://example.org/Download");
    assert_eq!(s.phase(), Phase::CommonPath(2));
    let (s, n, a) = s.step(None);
    assert_eq!(notes(&n), vec!["nothing"]);
    assert!(is_done(&a));
    assert_eq!(s.phase(), Phase::Done);
}

#[test]
fn a_common_path_with_packages_ends_the_search() {
    let (s, _) = DirectUrlSession::new("https://example.org", &Distro::Unknown);
    let (s, _, _) = s.step(html("https://example.org", "<p>hello</p>"));
    let (s, n, a) = s.step(html("https://example.org/download", r#"<a href="app.AppImage">get</a>"#));
    assert!(n.is_empty());
    assert_eq!(offer(&a), (vec![("app.AppImage".to_string(), "https://example.org/app.AppImage".to_string())], vec![]));
    assert_eq!(s.phase(), Phase::Done);
}

#[test]
fn curl_commands_in_the_text_are_a_last_resort() {
    let (s, _) = DirectUrlSession::new("https://example.net/download", &Distro::Ubuntu);
    let (s, n, a) = s.step(html("https://example.net/download", "<p>Run curl -sS https://example.net/get | python3</p>"));
    assert_eq!(notes(&n), vec!["fetched https://example.net/download", "subpage", "curl 1"]);
    assert_eq!(offer(&a), (vec![], vec![("https://example.net/get".to_string(), "curl -sS https://example.net/get".to_string())]));
    assert_eq!(s.phase(), Phase::Done);
}

#[test]
fn vs_code_has_a_known_download() {
    for (d, name, url) in [
        (Distro::Ubuntu, "code.deb", "https://update.code.visualstudio.com/latest/linux-deb-x64/stable"),
        (Distro::Fedora, "code.rpm", "https://update.code.visualstudio.com/latest/linux-rpm-x64/stable"),
        (Distro::Unknown, "code.tar.gz", "https://update.code.visualstudio.com/latest/linux-x64/stable"),
    ] {
        let (s, _) = DirectUrlSession::new("https://code.visualstudio.com/download", &d);
        let (_, n, a) = s.step(html("https://code.visualstudio.com/download", "<html></html>"));
        assert_eq!(notes(&n), vec!["fetched https://code.visualstudio.com/download", "subpage", "vscode"]);
        assert_eq!(offer(&a), (vec![(name.to_string(), url.to_string())], vec![]));
    }
}

#[test]
fn firefox_has_a_known_download() {
    let (s, _) = DirectUrlSession::new("https://www.mozilla.org/firefox/download/", &Distro::Fedora);
    let (_, n, a) = s.step(html("https://www.mozilla.org/firefox/download/", "<html></html>"));
    assert_eq!(notes(&n), vec!["fetched https://www.mozilla.org/firefox/download/", "subpage", "firefox"]);
    assert_eq!(
        offer(&a),
        (vec![("firefox.tar.xz".to_string(), "https://download.mozilla.org/?product=firefox-latest-ssl&os=linux64&lang=en-US".to_string())], vec![])
    );
}

#[test]
fn a_github_repository_on_the_page_is_followed() {
    let (s, _) = DirectUrlSession::new("https://example.com/downloads", &Distro::Ubuntu);
    let (s, n, a) = s.step(html("https://example.com/downloads", "<p>See https://github.com/owner/repo for code</p>"));
    assert_eq!(notes(&n), vec!["fetched https://example.com/downloads", "subpage", "github owner/repo"]);
    match a {
        DirectAction::OpenGitHub { releases_url, repo } => {
            assert_eq!(releases_url, "https://api.github.com/repos/owner/repo/releases/latest");
            assert_eq!(repo, "owner/repo");
        }
        _ => panic!("expected GitHub"),
    }
    assert_eq!(s.phase(), Phase::Done);
}

#[test]
fn a_finished_session_stays_finished() {
    let (s, _) = DirectUrlSession::new("https://example.com", &Distro::Ubuntu);
    let (s, _, _) = s.step(None);
    let (s, n, a) = s.step(html("https://example.com", "<a href=\"x.deb\">x</a>"));
    assert!(n.is_empty());
    assert!(is_done(&a));
    assert_eq!(s.phase(), Phase::Done);
}

#[test]
fn every_session_ends_within_five_steps() {
    let (mut s, mut a) = DirectUrlSession::new("https://example.org/", &Distro::Ubuntu);
    let mut steps = 0;
    while matches!(a, DirectAction::Fetch(_)) {
        let (s2, _, a2) = s.step(html("https://example.org/", "<a href=\"/downloads\">Downloads</a>"));
        s = s2;
        a = a2;
        steps += 1;
        assert!(steps <= 5);
    }
    assert_eq!(s.phase(), Phase::Done);
}

#[test]
fn subpage_links_and_paths() {
    let body = r#"<a href="https://reddit.com/r/app/download">r</a><a href="/releases/latest">All releases</a>"#;
    assert_eq!(find_download_subpage(body, "https://example.com/x"), Some("https://example.com/releases/latest".to_string()));
    assert_eq!(find_download_subpage("<a href=\"/about\">About</a>", "https://example.com/"), None);
    assert_eq!(common_path_of("https://example.com//", 0), "https://example.com/download");
    assert_eq!(common_path_of("https://example.com", 1), "https://example.com/downloads");
    assert_eq!(common_path_of("https://example.com/", 2), "https://example.com/Download");
}

#[test]
fn curl_commands_scanned_from_text() {
    let found = scan_curl_commands("curl -L https://a.org/x curl https://a.org/x curl -o f https://b.org/y");
    let got: Vec<(String, String)> = found.iter().map(|c| (c.url.clone(), c.display_name.clone())).collect();
    assert_eq!(
        got,
        vec![
            ("https://a.org/x".to_string(), "curl -L https://a.org/x".to_string()),
            ("https://b.org/y".to_string(), "curl -o f https://b.org/y".to_string()),
        ]
    );
}
