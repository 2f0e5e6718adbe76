use sit::cli::{bing_search_url, classify_input, ddg_search_url, github_search_url, needs_ddg_fallback, result_lines, Request};
use sit::AppMatch;

fn m(name: &str, platform: &str) -> AppMatch {
    AppMatch { name: name.to_string(), platform: platform.to_string(), url: "https://example.com/".to_string() }
}

#[test]
fn what_the_input_asks_for() {
    assert_eq!(classify_input("--version"), Request::Version);
    assert_eq!(classify_input("-v"), Request::Version);
    assert_eq!(classify_input("--update"), Request::Update);
    assert_eq!(classify_input("--upgrade"), Request::Update);
    assert_eq!(classify_input("https://zen-browser.app"), Request::DirectUrl);
    assert_eq!(classify_input("http://example.com/x"), Request::DirectUrl);
    assert_eq!(classify_input("brave"), Request::Search);
    assert_eq!(classify_input("visual studio code"), Request::Search);
    assert_eq!(classify_input("--version x"), Request::Search);
    assert_eq!(classify_input("HTTPS://x"), Request::Search);
    assert_eq!(classify_input(""), Request::Search);
}

#[test]
fn search_urls_encode_the_query() {
    assert_eq!(
        github_search_url("visual studio code"),
        "https://api.github.com/search/repositories?q=visual%20studio%20code+in:name&sort=stars&order=desc"
    );
    assert_eq!(bing_search_url("brave"), "https://www.bing.com/search?q=brave+linux+download");
    assert_eq!(ddg_search_url("a&b/c"), "https://html.duckduckgo.com/html/?q=a%26b%2Fc");
    assert_eq!(ddg_search_url("zen-browser_1.0~x"), "https://html.duckduckgo.com/html/?q=zen-browser_1.0~x");
    assert_eq!(ddg_search_url("é"), "https://html.duckduckgo.com/html/?q=%C3%A9");
}

#[test]
fn duckduckgo_is_asked_when_no_web_result_came() {
    assert!(needs_ddg_fallback(&[]));
    assert!(needs_ddg_fallback(&[m("a/b (★1)", "GitHub")]));
    assert!(!needs_ddg_fallback(&[m("a/b (★1)", "GitHub"), m("Brave (brave.com)", "Web")]));
}

#[test]
fn result_lines_show_the_source() {
    let lines = result_lines(&[
        m("Microsoft/vscode (★123456)", "GitHub"),
        m("Visual Studio Code (code.visualstudio.com)", "Web"),
        m("com.visualstudio.code", "Flathub"),
    ]);
    assert_eq!(
        lines,
        vec![
            "[GitHub] Microsoft/vscode (★123456)".to_string(),
            "🌐 Visual Studio Code (code.visualstudio.com)".to_string(),
            "[Flathub] com.visualstudio.code".to_string(),
        ]
    );
    assert!(result_lines(&[]).is_empty());
}
