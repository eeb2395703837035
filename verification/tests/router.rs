use jukeboxd::router::{param, pieces_of, RoutePattern, Router, Segment, ViewKind};
use jukeboxd::routes::{content_for, jukebox_router, playlist_id};
use jukeboxd::views::Content;

fn table() -> Router {
    let mut router = Router::new();
    assert!(router.route("/", ViewKind::Home));
    assert!(router.route("/playlists/:id", ViewKind::Playlist));
    router
}

fn pairs(list: &[(&str, &str)]) -> Vec<(String, String)> {
    list.iter().map(|(k, v)| (k.to_string(), v.to_string())).collect()
}

#[test]
fn root_resolves_to_home() {
    let found = table().resolve("/").unwrap();
    assert_eq!(found.view, ViewKind::Home);
    assert!(found.params.is_empty());
}

#[test]
fn playlist_path_resolves_with_its_id() {
    let found = table().resolve("/playlists/0").unwrap();
    assert_eq!(found.view, ViewKind::Playlist);
    assert_eq!(found.params, pairs(&[("id", "0")]));
    let found = table().resolve("/playlists/9999").unwrap();
    assert_eq!(found.view, ViewKind::Playlist);
    assert_eq!(found.params, pairs(&[("id", "9999")]));
    let found = table().resolve("/playlists/abc").unwrap();
    assert_eq!(found.params, pairs(&[("id", "abc")]));
}

#[test]
fn unknown_paths_resolve_to_nothing() {
    let router = table();
    for path in [
        "/unknown",
        "/playlists",
        "/playlists/",
        "/playlists/0/songs",
        "/playlist/0",
        "/Playlists/0",
        "",
        "playlists/0",
        "//",
        "/playlists//0",
        "/playlists/0//",
        "//playlists/0",
    ] {
        assert!(router.resolve(path).is_none(), "{}", path);
    }
}

#[test]
fn one_slash_at_the_end_is_passed_over() {
    let found = table().resolve("/playlists/3/").unwrap();
    assert_eq!(found.view, ViewKind::Playlist);
    assert_eq!(found.params, pairs(&[("id", "3")]));
}

#[test]
fn first_match_wins() {
    let mut router = Router::new();
    assert!(router.route("/playlists/new", ViewKind::Home));
    assert!(router.route("/playlists/:id", ViewKind::Playlist));
    assert!(router.route("/:a/:b", ViewKind::Home));
    assert_eq!(router.resolve("/playlists/new").unwrap().view, ViewKind::Home);
    let found = router.resolve("/playlists/7").unwrap();
    assert_eq!(found.view, ViewKind::Playlist);
    assert_eq!(found.params, pairs(&[("id", "7")]));
    let found = router.resolve("/albums/7").unwrap();
    assert_eq!(found.view, ViewKind::Home);
    assert_eq!(found.params, pairs(&[("a", "albums"), ("b", "7")]));

    let mut shadowed = Router::new();
    assert!(shadowed.route("/playlists/:id", ViewKind::Playlist));
    assert!(shadowed.route("/playlists/new", ViewKind::Home));
    assert_eq!(shadowed.resolve("/playlists/new").unwrap().view, ViewKind::Playlist);
}

#[test]
fn an_empty_table_resolves_nothing() {
    assert!(Router::new().resolve("/").is_none());
}

#[test]
fn a_template_must_begin_with_a_slash() {
    let mut router = Router::new();
    assert!(!router.route("playlists/:id", ViewKind::Playlist));
    assert!(!router.route("", ViewKind::Home));
    assert!(router.routes.is_empty());
    assert!(RoutePattern::parse("nope").is_none());
}

#[test]
fn templates_are_parsed_into_segments() {
    let pattern = RoutePattern::parse("/playlists/:id").unwrap();
    assert_eq!(pattern.segments.len(), 2);
    assert!(matches!(&pattern.segments[0], Segment::Literal(text) if text == "playlists"));
    assert!(matches!(&pattern.segments[1], Segment::Param(name) if name == "id"));
    assert!(RoutePattern::parse("/").unwrap().segments.is_empty());
    let same = jukebox_router();
    assert_eq!(same.routes.len(), 2);
    assert!(same.routes[0].pattern.segments.is_empty());
    assert_eq!(same.routes[0].view, ViewKind::Home);
    assert!(matches!(&same.routes[1].pattern.segments[0], Segment::Literal(text) if text == "playlists"));
    assert!(matches!(&same.routes[1].pattern.segments[1], Segment::Param(name) if name == "id"));
    assert_eq!(same.routes[1].view, ViewKind::Playlist);
}

#[test]
fn paths_are_cut_at_their_slashes() {
    let texts = |path: &str| pieces_of(path);
    assert_eq!(texts("/"), Some(vec![]));
    assert_eq!(texts("/a"), Some(vec!["a".to_string()]));
    assert_eq!(texts("/a/"), Some(vec!["a".to_string()]));
    assert_eq!(texts("/a/b"), Some(vec!["a".to_string(), "b".to_string()]));
    assert_eq!(texts("/a//b"), Some(vec!["a".to_string(), "".to_string(), "b".to_string()]));
    assert_eq!(texts("//"), Some(vec!["".to_string()]));
    assert_eq!(texts("/\u{e9}t\u{e9}/\u{4e2d}"), Some(vec!["\u{e9}t\u{e9}".to_string(), "\u{4e2d}".to_string()]));
    assert_eq!(texts("a"), None);
    assert_eq!(texts(""), None);
}

#[test]
fn patterns_accept_and_bind() {
    let pattern = RoutePattern::parse("/a/:x/b/:y").unwrap();
    let pieces = pieces_of("/a/1/b/2").unwrap();
    assert!(pattern.accepts(&pieces));
    assert_eq!(pattern.bind(&pieces), pairs(&[("x", "1"), ("y", "2")]));
    assert!(!pattern.accepts(&pieces_of("/a/1/c/2").unwrap()));
    assert!(!pattern.accepts(&pieces_of("/a/1/b").unwrap()));
    assert!(pattern.bind(&pieces_of("/a/1/b").unwrap()).is_empty());
}

#[test]
fn parameters_are_found_by_name() {
    let params = pairs(&[("a", "1"), ("id", "2"), ("id", "3")]);
    assert_eq!(param(&params, "id"), Some(&"2".to_string()));
    assert_eq!(param(&params, "a"), Some(&"1".to_string()));
    assert_eq!(param(&params, "b"), None);
}

#[test]
fn playlist_id_is_parsed_or_names_nothing() {
    assert_eq!(playlist_id(&pairs(&[("id", "0")])), 0);
    assert_eq!(playlist_id(&pairs(&[("id", "12")])), 12);
    assert_eq!(playlist_id(&pairs(&[("id", "abc")])), usize::MAX);
    assert_eq!(playlist_id(&pairs(&[("id", "-1")])), usize::MAX);
    assert_eq!(playlist_id(&pairs(&[("id", "99999999999999999999999999")])), usize::MAX);
    assert_eq!(playlist_id(&pairs(&[("other", "1")])), usize::MAX);
    assert_eq!(playlist_id(&pairs(&[])), usize::MAX);
}

#[test]
fn paths_ask_for_their_content() {
    let router = jukebox_router();
    assert_eq!(content_for(&router, "/"), Content::Home);
    assert_eq!(content_for(&router, "/playlists/0"), Content::Playlist(0));
    assert_eq!(content_for(&router, "/playlists/9999"), Content::Playlist(9999));
    assert_eq!(content_for(&router, "/playlists/x"), Content::Playlist(usize::MAX));
    assert_eq!(content_for(&router, "/unknown"), Content::NotFound);
    assert_eq!(content_for(&router, ""), Content::NotFound);
}
