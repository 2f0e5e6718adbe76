use sit::scrape::{extract_curl_installs, extract_github_repo, scrape_download_links};
use sit::html::HtmlElement;
use sit::search::{bing_results_from, parse_bing_search, parse_search_html, web_results_from};
use sit::urls::{resolve_search_url, resolve_url};
use sit::{AppMatch, CurlInstall, Distro};

fn link(n: &str, u: &str) -> (String, String) {
    (n.to_string(), u.to_string())
}

fn installs(v: &[CurlInstall]) -> Vec<(String, String)> {
    v.iter().map(|c| (c.url.clone(), c.display_name.clone())).collect()
}

fn matches(v: &[AppMatch]) -> Vec<(String, String, String)> {
    v.iter().map(|m| (m.name.clone(), m.platform.clone(), m.url.clone())).collect()
}

#[test]
fn relative_links_are_resolved_against_the_page() {
    assert_eq!(resolve_url("https://example.com/a/b", "../c.deb"), Some("https://example.com/c.deb".to_string()));
    assert_eq!(resolve_url("https://example.com/a/b", "c.deb"), Some("https://example.com/a/c.deb".to_string()));
    assert_eq!(resolve_url("https://example.com/a/", "/d/e.rpm"), Some("https://example.com/d/e.rpm".to_string()));
    assert_eq!(resolve_url("https://example.com/a", "https://cdn.org/x.zip"), Some("https://cdn.org/x.zip".to_string()));
}

#[test]
fn a_base_that_is_no_url_resolves_nothing() {
    assert_eq!(resolve_url("not a url", "x.deb"), None);
    assert_eq!(resolve_url("", "https://example.com/"), None);
}

#[test]
fn duckduckgo_redirects_give_their_target() {
    assert_eq!(
        resolve_search_url("//duckduckgo.com/l/?uddg=https%3A%2F%2Fbrave.com%2Fdownload%2F&rut=abc"),
        Some("https://brave.com/download/".to_string())
    );
    assert_eq!(resolve_search_url("https://duckduckgo.com/about"), None);
}

#[test]
fn bing_redirects_are_decoded() {
    assert_eq!(
        resolve_search_url("https://www.bing.com/ck/a?!&&p=abc&u=a1aHR0cHM6Ly9icmF2ZS5jb20v&ntb=1"),
        Some("https://brave.com/".to_string())
    );
    // Padding is restored before decoding.
    assert_eq!(resolve_search_url("https://www.bing.com/ck/a?u=a1aHR0cHM6Ly9hLmNvbQ"), Some("https://a.com".to_string()));
    // Without the a1 prefix the whole value is decoded.
    assert_eq!(resolve_search_url("https://www.bing.com/ck/a?u=aHR0cHM6Ly9hLmNvbQ"), Some("https://a.com".to_string()));
    assert_eq!(resolve_search_url("https://www.bing.com/ck/a?p=1"), None);
    assert_eq!(resolve_search_url("https://www.bing.com/ck/a?u=a1!!!!"), None);
}

#[test]
fn other_urls_pass_through() {
    assert_eq!(resolve_search_url("https://example.com/x"), Some("https://example.com/x".to_string()));
    assert_eq!(resolve_search_url("//example.com/x"), Some("https://example.com/x".to_string()));
    assert_eq!(resolve_search_url(""), None);
    assert_eq!(resolve_search_url("/relative/path"), None);
}

#[test]
fn github_repo_is_found_and_site_pages_skipped() {
    let html = "<a href=\"https://github.com/github/docs\">x</a> <a href=\"https://github.com/topics/rust\">t</a> \
                <a href=\"https://github.com/sponsors/me\">s</a> <a href=\"https://github.com/me/app.git\">g</a> \
                <a href=\"https://github.com/zen-browser/desktop\">zen</a>";
    assert_eq!(extract_github_repo(html), Some("zen-browser/desktop".to_string()));
    assert_eq!(extract_github_repo("<p>no repository here</p>"), None);
    assert_eq!(extract_github_repo("see github.com/owner/repo for code"), Some("owner/repo".to_string()));
}

const PAGE: &str = r#"<html><body>
<a href="/files/app-1.0.x86_64.rpm">RPM</a>
<a href="https://cdn.example.com/app-1.0_amd64.deb">DEB</a>
<a data-os="windows" href="/app.exe" data-url="/app-1.0-linux.zip">Windows</a>
<button onclick="location.href='https://dl.example.com/app-1.0.AppImage'">Get</button>
<p>Mirror: https://mirror.example.com/app-1.0.tar.gz</p>
<a href="https://cdn.example.com/app-1.0_amd64.deb">DEB again</a>
</body></html>"#;

#[test]
fn download_links_of_a_page_on_ubuntu() {
    let links = scrape_download_links(PAGE, "https://example.com/download", &Distro::Ubuntu);
    assert_eq!(
        links,
        vec![
            link("app-1.0_amd64.deb", "https://cdn.example.com/app-1.0_amd64.deb"),
            link("app-1.0.AppImage", "https://dl.example.com/app-1.0.AppImage"),
            link("app-1.0.tar.gz", "https://mirror.example.com/app-1.0.tar.gz"),
        ]
    );
}

#[test]
fn download_links_of_a_page_on_fedora() {
    let links = scrape_download_links(PAGE, "https://example.com/download", &Distro::Fedora);
    assert_eq!(
        links,
        vec![
            link("app-1.0.x86_64.rpm", "https://example.com/files/app-1.0.x86_64.rpm"),
            link("app-1.0.AppImage", "https://dl.example.com/app-1.0.AppImage"),
            link("app-1.0.tar.gz", "https://mirror.example.com/app-1.0.tar.gz"),
        ]
    );
}

#[test]
fn linux_elements_offer_their_data_attributes() {
    let html = r#"<div data-os="Linux" data-download-url="/get/app-linux.zip">Linux</div>
<span data-src="/x/tool.tar.xz">tool</span>"#;
    let links = scrape_download_links(html, "https://example.com/", &Distro::Unknown);
    assert_eq!(
        links,
        vec![
            link("app-linux.zip", "https://example.com/get/app-linux.zip"),
            link("tool.tar.xz", "https://example.com/x/tool.tar.xz"),
        ]
    );
}

#[test]
fn download_links_are_distinct_by_name() {
    let html = r#"<a href="https://a.org/app.deb">a</a><a href="https://b.org/app.deb">b</a>
https://c.org/app.deb https://c.org/other.deb"#;
    let links = scrape_download_links(html, "https://a.org/", &Distro::Ubuntu);
    assert_eq!(links, vec![link("app.deb", "https://a.org/app.deb"), link("other.deb", "https://c.org/other.deb")]);
    for i in 0..links.len() {
        for j in i + 1..links.len() {
            assert_ne!(links[i].0, links[j].0);
        }
    }
}

#[test]
fn a_page_without_packages_gives_no_links() {
    assert!(scrape_download_links("<p>hello</p>", "https://example.com/", &Distro::Ubuntu).is_empty());
    assert!(scrape_download_links("", "https://example.com/", &Distro::Fedora).is_empty());
}

#[test]
fn install_scripts_of_a_page() {
    let html = r#"<p>Install: <code>curl -fsSL https://get.example.com/install.sh | sh</code></p>
<a href="/setup.sh">script</a>"#;
    let found = extract_curl_installs(html, "https://example.com/");
    assert_eq!(
        installs(&found),
        vec![
            ("https://example.com/setup.sh".to_string(), "curl -fsSL https://example.com/setup.sh | bash".to_string()),
            ("https://get.example.com/install.sh".to_string(), "curl -fsSL https://get.example.com/install.sh | sh".to_string()),
        ]
    );
}

#[test]
fn process_substitution_installs_give_their_url() {
    let html = "<pre>bash <(curl -s https://example.org/i.sh)</pre>";
    let found = extract_curl_installs(html, "https://example.org/");
    assert_eq!(
        installs(&found),
        vec![
            ("https://example.org/i.sh".to_string(), "bash <(curl -s https://example.org/i.sh".to_string()),
            // The code block is read as text: its URL runs on to the bracket.
            ("https://example.org/i.sh)".to_string(), "bash <(curl -s https://example.org/i.sh)".to_string()),
        ]
    );
}

#[test]
fn code_blocks_with_commands_are_offered() {
    let html = "<samp>wget -qO- https://example.net/setup | bash -s -- --yes\nsecond line</samp>";
    let found = extract_curl_installs(html, "https://example.net/");
    assert_eq!(
        installs(&found),
        vec![("https://example.net/setup".to_string(), "wget -qO- https://example.net/setup | bash -s -- --yes".to_string())]
    );
}

#[test]
fn install_commands_are_distinct_by_url() {
    let html = r#"<a href="https://x.org/i.sh">one</a><a href="https://x.org/i.sh">two</a>
<code>curl https://x.org/i.sh | bash</code>"#;
    let found = extract_curl_installs(html, "https://x.org/");
    assert_eq!(found.len(), 1);
    assert_eq!(found[0].url, "https://x.org/i.sh");
}

#[test]
fn a_page_without_scripts_gives_no_installs() {
    assert!(extract_curl_installs("<p>curl is a tool</p>", "https://example.com/").is_empty());
}

const DDG: &str = r#"<html><body>
<div class="result"><a class="result__a" href="//duckduckgo.com/l/?uddg=https%3A%2F%2Fbrave.com%2Fdownload%2F&amp;rut=x">Download Brave Browser</a></div>
<div class="result"><a class="result__a" href="https://itsfoss.com/install-brave/">Install Brave on Linux</a></div>
<div class="result"><a href="https://brave.com/login">Sign in</a></div>
<a href="https://duckduckgo.com/about">About</a>
<a href="/html/?q=brave">Next</a>
</body></html>"#;

#[test]
fn duckduckgo_results_are_scored() {
    let found = parse_search_html(DDG, "brave");
    assert_eq!(
        matches(&found),
        vec![
            ("Download Brave Browser (brave.com)".to_string(), "Web".to_string(), "https://brave.com/download/".to_string()),
            ("Install Brave on Linux (itsfoss.com)".to_string(), "Web".to_string(), "https://itsfoss.com/install-brave/".to_string()),
        ]
    );
}

#[test]
fn duckduckgo_results_best_first_and_at_most_five() {
    let html = r#"
<a href="https://one.org/a">Something else entirely</a>
<a href="https://two.org/b">Zed editor</a>
<a href="https://zed.dev/download">Download Zed</a>
<a href="https://three.org/c">Other page one</a>
<a href="https://four.org/d">Other page two</a>
<a href="https://five.org/e">Other page three</a>
<a href="https://six.org/f">Other page four</a>"#;
    let found = parse_search_html(html, "zed");
    assert_eq!(found.len(), 5);
    assert_eq!(found[0].url, "https://zed.dev/download");
    assert_eq!(found[1].url, "https://two.org/b");
    assert_eq!(found[2].url, "https://one.org/a");
}

#[test]
fn duckduckgo_results_have_distinct_urls() {
    let html = r#"<a href="https://zed.dev/download">Download Zed</a>
<a href="//duckduckgo.com/l/?uddg=https%3A%2F%2Fzed.dev%2Fdownload">Zed download page</a>
<a href="https://zed.dev/">Zed home</a>"#;
    let found = parse_search_html(html, "zed");
    let urls: Vec<String> = found.iter().map(|m| m.url.clone()).collect();
    assert_eq!(urls, vec!["https://zed.dev/download".to_string(), "https://zed.dev/".to_string()]);
    assert!(found.iter().all(|m| m.platform == "Web"));
}

#[test]
fn duckduckgo_short_titles_show_the_domain() {
    let html = r#"<a href="https://my-app.io/">go</a>"#;
    let found = parse_search_html(html, "app");
    assert_eq!(matches(&found), vec![("My App (my-app.io)".to_string(), "Web".to_string(), "https://my-app.io/".to_string())]);
}

#[test]
fn duckduckgo_long_titles_are_cut() {
    let title = "A very long title that goes on and on about downloading things for Linux";
    let html = format!(r#"<a href="https://long.org/">{}</a>"#, title);
    let found = parse_search_html(&html, "zzz");
    let cut: String = title.chars().take(52).collect();
    assert_eq!(found[0].name, format!("{}… (long.org)", cut));
}

const BING: &str = r#"<html><body><ol id="b_results">
<li class="b_algo"><h2><a href="https://www.bing.com/ck/a?!&amp;&amp;p=1&amp;u=a1aHR0cHM6Ly9icmF2ZS5jb20v&amp;ntb=1">Brave Browser Download</a></h2></li>
<li class="b_algo"><h2><a href="https://itsfoss.com/brave/">Brave tutorial</a></h2></li>
<li class="b_algo"><h2><a href="https://brave.com/linux/">Go</a></h2></li>
<li class="b_algo"><h2><a href="https://brave.com/linux/">Brave for Linux</a></h2></li>
<li class="b_algo"><h2><a href="https://brave.com/">Brave again</a></h2></li>
<li class="b_ad"><h2><a href="https://ads.example.com/">An advert</a></h2></li>
</ol></body></html>"#;

#[test]
fn bing_results_are_read() {
    let found = parse_bing_search(BING);
    assert_eq!(
        matches(&found),
        vec![
            ("Brave Browser Download (brave.com)".to_string(), "Web".to_string(), "https://brave.com/".to_string()),
            ("Brave for Linux (brave.com)".to_string(), "Web".to_string(), "https://brave.com/linux/".to_string()),
        ]
    );
}

#[test]
fn bing_results_are_few_and_distinct() {
    let mut html = String::from("<ol>");
    for i in 0..8 {
        html.push_str(&format!(r#"<li class="b_algo"><h2><a href="https://site{}.org/">Result number {}</a></h2></li>"#, i, i));
    }
    html.push_str("</ol>");
    let found = parse_bing_search(&html);
    assert_eq!(found.len(), 5);
    for i in 0..found.len() {
        assert_eq!(found[i].url, format!("https://site{}.org/", i));
        for j in i + 1..found.len() {
            assert_ne!(found[i].url, found[j].url);
        }
    }
    assert!(parse_bing_search("<p>nothing</p>").is_empty());
}

fn element(attrs: &[Option<&str>], text: &[&str]) -> HtmlElement {
    HtmlElement {
        attrs: attrs.iter().map(|a| a.map(|v| v.to_string())).collect(),
        text: text.iter().map(|t| t.to_string()).collect(),
    }
}

#[test]
fn ranking_selected_result_links() {
    let els = vec![
        element(&[None, Some("https://itsfoss.com/install-brave/")], &["Install Brave on Linux"]),
        element(&[Some("https://brave.com/download/"), Some("https://ignored.org/")], &["Download ", "Brave Browser"]),
        element(&[None, None], &["no link"]),
        element(&[], &["no attributes read"]),
    ];
    let found = web_results_from(&els, "Brave");
    assert_eq!(
        matches(&found),
        vec![
            ("Download  Brave Browser (brave.com)".to_string(), "Web".to_string(), "https://brave.com/download/".to_string()),
            ("Install Brave on Linux (itsfoss.com)".to_string(), "Web".to_string(), "https://itsfoss.com/install-brave/".to_string()),
        ]
    );
    assert!(web_results_from(&vec![], "brave").is_empty());
}

#[test]
fn reading_selected_bing_links() {
    let els = vec![
        Some(element(&[Some("https://www.bing.com/ck/a?u=a1aHR0cHM6Ly9icmF2ZS5jb20v")], &["Brave ", "Browser"])),
        None,
        Some(element(&[Some("https://brave.com/")], &["Brave again"])),
        Some(element(&[Some("https://zed.dev/")], &["Zed"])),
        Some(element(&[Some("https://zed.dev/download")], &["Zed download"])),
    ];
    let found = bing_results_from(&els);
    assert_eq!(
        matches(&found),
        vec![
            ("Brave Browser (brave.com)".to_string(), "Web".to_string(), "https://brave.com/".to_string()),
            ("Zed download (zed.dev)".to_string(), "Web".to_string(), "https://zed.dev/download".to_string()),
        ]
    );
}

#[test]
fn install_urls_are_never_empty() {
    let html = r#"<a href="x.sh">s</a><code>curl -sL https://a.org/i | sh</code><pre>wget https://b.org/j && bash j</pre>
curl -fsSL https://c.org/k.sh | sudo bash"#;
    let found = extract_curl_installs(html, "https://example.com/dir/");
    assert!(!found.is_empty());
    assert!(found.iter().all(|c| !c.url.is_empty()));
    assert_eq!(found[0].url, "https://example.com/dir/x.sh");
}
