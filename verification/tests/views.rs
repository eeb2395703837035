use jukeboxd::context::{ContextKind, MissingContext, Registry};
use jukeboxd::model::{FeedAction, FeedEvent, FeedTarget, Playlist};
use jukeboxd::reactive::{ReactiveCell, Runtime};
use jukeboxd::views::{
    content_view, feed_view, library_view, use_feed, use_playlists, Content, Page, Shared,
};

fn playlist(title: &str) -> Playlist {
    Playlist {
        title: title.to_owned(),
        author: "author".to_owned(),
        description: String::new(),
        songs: Vec::new(),
        likes: 0,
    }
}

struct Fixture {
    runtime: Runtime,
    context: Registry<Shared>,
    liked: ReactiveCell<bool>,
    scope: usize,
}

fn fixture(with_playlists: bool, with_feed: bool) -> Fixture {
    let mut runtime = Runtime::new();
    let mut context = Registry::new();
    if with_playlists {
        let list = vec![
            (0, runtime.create_cell(playlist("zero"))),
            (1, runtime.create_cell(playlist("one"))),
        ];
        context.provide(ContextKind::PlaylistList, Shared::Playlists(list));
    }
    if with_feed {
        let events = vec![FeedEvent::new(FeedAction::Like, "A".to_owned(), FeedTarget::Nothing)];
        context.provide(ContextKind::Feed, Shared::Feed(runtime.create_cell(events)));
    }
    let liked = runtime.create_cell(false);
    let scope = runtime.create_scope();
    Fixture { runtime, context, liked, scope }
}

#[test]
fn feed_view_needs_the_feed_context() {
    let mut f = fixture(true, false);
    let shown = feed_view(&mut f.runtime, f.scope, &f.context);
    assert_eq!(shown.unwrap_err(), MissingContext { kind: ContextKind::Feed });
    assert!(use_feed(&f.context).is_err());
}

#[test]
fn library_view_needs_the_playlists_context() {
    let mut f = fixture(false, true);
    let shown = library_view(&mut f.runtime, f.scope, &f.context);
    assert_eq!(shown.unwrap_err(), MissingContext { kind: ContextKind::PlaylistList });
    assert!(use_playlists(&f.context).is_err());
}

#[test]
fn detail_view_needs_both_contexts_and_home_needs_none() {
    let mut f = fixture(false, false);
    let shown = content_view(&mut f.runtime, f.scope, &f.context, Content::Playlist(0), &f.liked);
    assert_eq!(shown.unwrap_err(), MissingContext { kind: ContextKind::PlaylistList });
    let shown = content_view(&mut f.runtime, f.scope, &f.context, Content::Home, &f.liked);
    assert!(matches!(shown, Ok(Page::Home)));
    let shown = content_view(&mut f.runtime, f.scope, &f.context, Content::NotFound, &f.liked);
    assert!(matches!(shown, Ok(Page::NotFound)));

    let mut f = fixture(true, false);
    let shown = content_view(&mut f.runtime, f.scope, &f.context, Content::Playlist(7), &f.liked);
    assert_eq!(shown.unwrap_err(), MissingContext { kind: ContextKind::Feed });
}

#[test]
fn a_kind_with_the_wrong_value_counts_as_missing() {
    let mut runtime = Runtime::new();
    let mut context = Registry::new();
    context.provide(ContextKind::Feed, Shared::Playlists(Vec::new()));
    let scope = runtime.create_scope();
    let shown = feed_view(&mut runtime, scope, &context);
    assert_eq!(shown.unwrap_err(), MissingContext { kind: ContextKind::Feed });
}

#[test]
fn views_subscribe_to_what_they_read() {
    let mut f = fixture(true, true);
    let library = f.scope;
    let feed = f.runtime.create_scope();
    let content = f.runtime.create_scope();

    let entries = library_view(&mut f.runtime, library, &f.context).unwrap();
    assert_eq!(entries.len(), 2);
    assert_eq!(entries[1].title, "one");
    let items = feed_view(&mut f.runtime, feed, &f.context).unwrap();
    assert_eq!(items.len(), 1);
    assert_eq!(items[0].text(), "A liked ");
    let page =
        content_view(&mut f.runtime, content, &f.context, Content::Playlist(1), &f.liked).unwrap();
    assert!(matches!(&page, Page::Playlist(detail) if detail.title == "one"));
    assert_eq!(f.runtime.current_scope(), None);

    assert!(f.runtime.is_subscribed(library, 0));
    assert!(f.runtime.is_subscribed(library, 1));
    assert!(!f.runtime.is_subscribed(library, 2));
    assert!(f.runtime.is_subscribed(feed, 2));
    assert!(!f.runtime.is_subscribed(feed, 1));
    assert!(f.runtime.is_subscribed(content, 1));
    assert!(f.runtime.is_subscribed(content, f.liked.key()));
    assert!(!f.runtime.is_subscribed(content, 0));
    assert_eq!(f.runtime.write(&mut f.liked, true), vec![content]);

    let page =
        content_view(&mut f.runtime, content, &f.context, Content::Playlist(5), &f.liked).unwrap();
    assert!(matches!(page, Page::NoSelection));
    assert!(!f.runtime.is_subscribed(content, 1));
    assert!(f.runtime.write(&mut f.liked, false).is_empty());
}

#[test]
fn a_view_without_a_scope_renders_without_subscribing() {
    let mut f = fixture(true, true);
    let items = feed_view(&mut f.runtime, 99, &f.context).unwrap();
    assert_eq!(items.len(), 1);
    let entries = library_view(&mut f.runtime, 99, &f.context).unwrap();
    assert_eq!(entries.len(), 2);
    let page = content_view(&mut f.runtime, 99, &f.context, Content::Playlist(0), &f.liked).unwrap();
    assert!(matches!(page, Page::Playlist(_)));
    assert!(!f.runtime.is_subscribed(99, 0));
    assert!(!f.runtime.is_subscribed(99, 2));
}
