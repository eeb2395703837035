use jukeboxd::app::{sample_feed, App};
use jukeboxd::model::{FeedAction, FeedEvent, FeedTarget, Playlist, Song};
use jukeboxd::views::{Content, Page};

fn playlist(title: &str, author: &str, songs: usize) -> Playlist {
    Playlist {
        title: title.to_owned(),
        author: author.to_owned(),
        description: format!("{} described", title),
        songs: (0..songs)
            .map(|i| Song {
                title: format!("song {}", i),
                author: "band".to_owned(),
                album: "album".to_owned(),
                release: "2001".to_owned(),
            })
            .collect(),
        likes: 0,
    }
}

fn two_playlists() -> Vec<Playlist> {
    vec![playlist("First", "Ann", 2), playlist("Second", "Bob", 3)]
}

fn detail_title(app: &App) -> Option<String> {
    match app.page() {
        Page::Playlist(detail) => Some(detail.title.clone()),
        _ => None,
    }
}

#[test]
fn end_to_end_like_appends_one_event_by_you() {
    let mut app = App::boot(two_playlists(), Vec::new(), "/");
    assert_eq!(app.playlist_count(), 2);
    assert_eq!(app.feed_events().len(), 0);
    assert!(app.feed().is_empty());
    app.navigate("/playlists/1");
    assert_eq!(detail_title(&app).as_deref(), Some("Second"));
    app.click_like();
    let events = app.feed_events();
    assert_eq!(events.len(), 1);
    assert_eq!(events[0].actor, "You");
    assert!(matches!(events[0].action, FeedAction::Like));
    assert!(matches!(&events[0].target, FeedTarget::Playlist { title, author } if title == "Second" && author == "Bob"));
    assert_eq!(app.feed().len(), 1);
    assert_eq!(app.feed()[0].text(), "You liked playlist Second by Bob");
}

#[test]
fn like_after_the_sample_feed() {
    let mut app = App::boot(two_playlists(), sample_feed(), "/playlists/0");
    assert_eq!(app.feed().len(), 2);
    assert_eq!(app.feed()[0].text(), "Garrett Jones sent you a friend request!");
    assert_eq!(
        app.feed()[1].text(),
        "Garrett Jones commented on album Sample Feed Album:Try clicking the like button on a playlist!"
    );
    app.click_like();
    assert_eq!(app.feed().len(), 3);
    assert_eq!(app.feed()[2].text(), "You liked playlist First by Ann");
    let events = app.feed_events();
    assert_eq!(events.len(), 3);
    assert_eq!(events[0].actor, "Garrett Jones");
    assert!(matches!(events[0].action, FeedAction::FriendRequest));
    assert!(matches!(&events[1].action, FeedAction::Comment(text) if text == "Try clicking the like button on a playlist!"));
    assert!(matches!(&events[1].target, FeedTarget::Album(name) if name == "Sample Feed Album"));
}

#[test]
fn routes_select_the_views() {
    let mut app = App::boot(two_playlists(), Vec::new(), "/");
    assert_eq!(app.current_content(), Content::Home);
    assert!(matches!(app.page(), Page::Home));

    app.navigate("/playlists/0");
    assert_eq!(app.current_content(), Content::Playlist(0));
    assert_eq!(detail_title(&app).as_deref(), Some("First"));

    app.navigate("/playlists/9999");
    assert_eq!(app.current_content(), Content::Playlist(9999));
    assert!(matches!(app.page(), Page::NoSelection));

    app.navigate("/playlists/2");
    assert!(matches!(app.page(), Page::NoSelection));

    app.navigate("/playlists/two");
    assert_eq!(app.current_content(), Content::Playlist(usize::MAX));
    assert!(matches!(app.page(), Page::NoSelection));

    app.navigate("/unknown");
    assert_eq!(app.current_content(), Content::NotFound);
    assert!(matches!(app.page(), Page::NotFound));

    app.navigate("/");
    assert!(matches!(app.page(), Page::Home));
}

#[test]
fn toggling_four_times_records_two_likes() {
    let mut app = App::boot(two_playlists(), sample_feed(), "/playlists/0");
    let before = app.feed_events().len();
    let mut lengths = Vec::new();
    let mut flags = Vec::new();
    for _ in 0..4 {
        app.click_like();
        lengths.push(app.feed_events().len() - before);
        flags.push(app.is_liked());
    }
    assert_eq!(flags, vec![true, false, true, false]);
    assert_eq!(lengths, vec![1, 1, 2, 2]);
    let events = app.feed_events();
    for event in &events[before..] {
        assert!(matches!(event.action, FeedAction::Like));
        assert_eq!(event.actor, "You");
    }
    assert_eq!(app.feed().len(), before + 2);
}

#[test]
fn a_write_renders_again_only_the_views_that_read_the_cell() {
    let mut app = App::boot(two_playlists(), Vec::new(), "/playlists/0");
    let library = app.library_scope_id();
    let feed = app.feed_scope_id();
    let content = app.content_scope_id();
    assert!(library != feed && feed != content && library != content);
    assert_eq!(app.click_like(), vec![content, feed]);
    assert_eq!(app.click_like(), vec![content]);
    assert_eq!(app.click_like(), vec![content, feed]);
}

#[test]
fn the_like_button_shows_the_flag() {
    let mut app = App::boot(two_playlists(), Vec::new(), "/playlists/1");
    let style = |app: &App| match app.page() {
        Page::Playlist(detail) => detail.style.clone(),
        _ => String::new(),
    };
    assert!(!app.is_liked());
    assert_eq!(style(&app), "like");
    app.click_like();
    assert!(app.is_liked());
    assert_eq!(style(&app), "like_filled");
    app.click_like();
    assert_eq!(style(&app), "like");
}

#[test]
fn without_a_playlist_there_is_nothing_to_like() {
    for path in ["/", "/unknown", "/playlists/9999", "/playlists/x"] {
        let mut app = App::boot(two_playlists(), sample_feed(), path);
        assert!(app.click_like().is_empty());
        assert!(!app.is_liked());
        assert_eq!(app.feed_events().len(), 2);
        assert_eq!(app.feed().len(), 2);
    }
}

#[test]
fn the_like_flag_lasts_while_the_detail_view_does() {
    let mut app = App::boot(two_playlists(), Vec::new(), "/playlists/0");
    app.click_like();
    assert!(app.is_liked());
    app.navigate("/playlists/1");
    assert!(app.is_liked());
    assert_eq!(app.click_like(), vec![app.content_scope_id()]);
    assert!(!app.is_liked());
    app.click_like();
    assert!(app.is_liked());
    app.navigate("/");
    assert!(!app.is_liked());
    app.navigate("/playlists/1");
    assert!(!app.is_liked());
    assert_eq!(app.click_like(), vec![app.content_scope_id(), app.feed_scope_id()]);
    let events = app.feed_events();
    assert_eq!(events.len(), 3);
    assert!(matches!(&events[0].target, FeedTarget::Playlist { title, .. } if title == "First"));
    assert!(matches!(&events[1].target, FeedTarget::Playlist { title, .. } if title == "Second"));
    assert!(matches!(&events[2].target, FeedTarget::Playlist { title, .. } if title == "Second"));
}

#[test]
fn the_library_lists_every_playlist_under_its_place() {
    let app = App::boot(two_playlists(), Vec::new(), "/");
    let library = app.library();
    assert_eq!(library.len(), 2);
    assert_eq!(library[0].href, "/playlists/0");
    assert_eq!(library[0].title, "First");
    assert_eq!(library[0].author, "Author: Ann");
    assert_eq!(library[0].tracks, "Tracks: 2");
    assert_eq!(library[1].href, "/playlists/1");
    assert_eq!(library[1].title, "Second");
    assert_eq!(library[1].tracks, "Tracks: 3");
}

#[test]
fn library_links_lead_to_their_playlists() {
    let mut app = App::boot(two_playlists(), Vec::new(), "/");
    for i in 0..2 {
        let href = app.library()[i].href.clone();
        let title = app.library()[i].title.clone();
        app.navigate(&href);
        assert_eq!(app.current_content(), Content::Playlist(i));
        assert_eq!(detail_title(&app), Some(title));
    }
}

#[test]
fn an_empty_catalog_boots() {
    let mut app = App::boot(Vec::new(), Vec::new(), "/playlists/0");
    assert_eq!(app.playlist_count(), 0);
    assert!(app.library().is_empty());
    assert!(matches!(app.page(), Page::NoSelection));
    assert!(app.click_like().is_empty());
}

#[test]
fn sample_feed_has_its_two_events() {
    let feed: Vec<FeedEvent> = sample_feed();
    assert_eq!(feed.len(), 2);
    assert!(matches!(feed[0].action, FeedAction::FriendRequest));
    assert_eq!(feed[0].actor, "Garrett Jones");
    assert!(matches!(feed[0].target, FeedTarget::Nothing));
    assert_eq!(feed[1].actor, "Garrett Jones");
}
