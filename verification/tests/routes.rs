use rcomm::routes::{clean_route, route_key_for_file, RouteTable};

#[test]
fn clean_route_collapses_double_slash() {
    assert_eq!(clean_route("//".to_string()), "/");
    assert_eq!(clean_route("/".to_string()), "/");
    assert_eq!(clean_route("//howdy".to_string()), "/howdy");
}

#[test]
fn clean_route_drops_dot_and_dot_dot() {
    assert_eq!(clean_route("/a/../b".to_string()), "/a/b");
    assert_eq!(clean_route("/./a".to_string()), "/a");
    assert_eq!(clean_route("/a/./b".to_string()), "/a/b");
}

#[test]
fn clean_route_handles_trailing_slash() {
    assert_eq!(clean_route("/howdy/".to_string()), "/howdy");
    assert_eq!(clean_route("/howdy".to_string()), "/howdy");
}

#[test]
fn clean_route_empty_becomes_root() {
    assert_eq!(clean_route("".to_string()), "/");
    assert_eq!(clean_route("/../..".to_string()), "/");
}

#[test]
fn clean_route_is_idempotent_on_samples() {
    for raw in ["//", "/a/b/../b", "/howdy/", "", "/x//y/./z/"] {
        let once = clean_route(raw.to_string());
        let twice = clean_route(once.clone());
        assert_eq!(once, twice);
    }
}

#[test]
fn route_key_registers_plain_files_under_prefix() {
    assert_eq!(
        route_key_for_file("", "style.css"),
        Some("/style.css".to_string())
    );
    assert_eq!(
        route_key_for_file("/howdy", "page.css"),
        Some("/howdy/page.css".to_string())
    );
    assert_eq!(
        route_key_for_file("/howdy", "script.js"),
        Some("/howdy/script.js".to_string())
    );
}

#[test]
fn route_key_maps_index_and_page_to_directory() {
    assert_eq!(route_key_for_file("", "index.html"), Some("/".to_string()));
    assert_eq!(route_key_for_file("", "page.html"), Some("/".to_string()));
    assert_eq!(
        route_key_for_file("/howdy", "page.html"),
        Some("/howdy".to_string())
    );
}

#[test]
fn route_key_reserves_not_found() {
    assert_eq!(route_key_for_file("", "not_found.html"), None);
    assert_eq!(route_key_for_file("/deep", "not_found.html"), None);
}

#[test]
fn route_key_skips_other_extensions() {
    assert_eq!(route_key_for_file("", "notes.txt"), None);
    assert_eq!(route_key_for_file("", "README"), None);
    assert_eq!(route_key_for_file("/a", "archive.tar.gz"), None);
}

#[test]
fn route_table_insert_and_get() {
    let mut table = RouteTable::new();
    table.insert("/".to_string(), "pages/index.html".to_string());
    table.insert("/howdy".to_string(), "pages/howdy/page.html".to_string());
    assert_eq!(table.len(), 2);
    assert_eq!(table.get("/"), Some("pages/index.html".to_string()));
    assert_eq!(table.get("/howdy"), Some("pages/howdy/page.html".to_string()));
    assert_eq!(table.get("/missing"), None);
    assert!(table.contains("/howdy"));
    assert!(!table.contains("/nowhere"));
}

#[test]
fn route_table_later_insert_wins() {
    let mut table = RouteTable::new();
    table.insert("/".to_string(), "pages/index.html".to_string());
    table.insert("/".to_string(), "pages/other.html".to_string());
    assert_eq!(table.len(), 1);
    assert_eq!(table.get("/"), Some("pages/other.html".to_string()));
    assert_eq!(table.route_at(0), "/");
    assert_eq!(table.file_at(0), "pages/other.html");
}
