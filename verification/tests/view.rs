use knowledge_observer::view::{
    parse_request_path, resolve_project_dir_from, route, write_response_head, Route, INDEX_HTML,
};

#[test]
fn parse_request_path_basic() {
    assert_eq!(parse_request_path("GET / HTTP/1.1\r\nHost: x\r\n").as_deref(), Some("/"));
    assert_eq!(
        parse_request_path("GET /graph.json HTTP/1.1\r\n").as_deref(),
        Some("/graph.json")
    );
    assert_eq!(
        parse_request_path("GET /index.html?x=1 HTTP/1.1\r\n").as_deref(),
        Some("/index.html")
    );
}

#[test]
fn parse_request_path_rejects_non_get_and_garbage() {
    assert_eq!(parse_request_path("POST / HTTP/1.1\r\n"), None);
    assert_eq!(parse_request_path("garbage"), None);
    assert_eq!(parse_request_path(""), None);
}

#[test]
fn index_html_is_embedded_and_self_contained() {
    // The page must not pull any external resource. We check for the markup that
    // would *load* something (src=/href= to a scheme), not for the bare SVG
    // namespace URI "http://www.w3.org/2000/svg" which is a required identifier,
    // not a fetched resource.
    assert!(INDEX_HTML.contains("<html"));
    assert!(!INDEX_HTML.contains("src=\"http"), "no external src= resources");
    assert!(!INDEX_HTML.contains("href=\"http"), "no external href= resources");
    assert!(!INDEX_HTML.contains("//cdn"), "no CDN references");
    assert!(INDEX_HTML.contains("/graph.json"), "page fetches the graph endpoint");
}

#[test]
fn project_dir_resolution_priority() {
    // 1. Explicit arg wins over everything.
    assert_eq!(
        resolve_project_dir_from(
            Some("C:/arg"),
            Some("C:/host"),
            Some("C:/observer"),
            Some(String::from("C:/cwd")),
        ),
        String::from("C:/arg")
    );
    // Blank arg is skipped → CLAUDE_PROJECT_DIR.
    assert_eq!(
        resolve_project_dir_from(
            Some("   "),
            Some("C:/host"),
            Some("C:/observer"),
            Some(String::from("C:/cwd")),
        ),
        String::from("C:/host")
    );
    // 2. CLAUDE_PROJECT_DIR over OBSERVER_PROJECT_DIR.
    assert_eq!(
        resolve_project_dir_from(
            None,
            Some("C:/host"),
            Some("C:/observer"),
            Some(String::from("C:/cwd")),
        ),
        String::from("C:/host")
    );
    // 3. OBSERVER_PROJECT_DIR over cwd.
    assert_eq!(
        resolve_project_dir_from(None, None, Some("C:/observer"), Some(String::from("C:/cwd"))),
        String::from("C:/observer")
    );
    // 4. cwd is the last resort.
    assert_eq!(
        resolve_project_dir_from(None, None, None, Some(String::from("C:/cwd"))),
        String::from("C:/cwd")
    );
    // Nothing at all → ".".
    assert_eq!(resolve_project_dir_from(None, None, None, None), String::from("."));
}

#[test]
fn paths_are_routed() {
    assert!(matches!(route("GET / HTTP/1.1\r\n"), Route::Page));
    assert!(matches!(route("GET /index.html HTTP/1.1\r\n"), Route::Page));
    assert!(matches!(route("GET /graph.json?t=1 HTTP/1.1\r\n"), Route::Graph));
    assert!(matches!(route("GET /other HTTP/1.1\r\n"), Route::NotFound));
    assert!(matches!(route("POST / HTTP/1.1\r\n"), Route::NotFound));
}

#[test]
fn response_heads_name_status_type_and_length() {
    assert_eq!(
        write_response_head(Route::Page, 12),
        "HTTP/1.1 200 OK\r\nContent-Type: text/html; charset=utf-8\r\nContent-Length: 12\r\nConnection: close\r\nCache-Control: no-store\r\n\r\n"
    );
    assert!(write_response_head(Route::Graph, 0).contains("Content-Type: application/json"));
    assert!(write_response_head(Route::NotFound, 9).starts_with("HTTP/1.1 404 "));
}
