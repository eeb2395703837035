use jukeboxd::model::{FeedAction, FeedEvent, FeedTarget, Playlist, Song};
use jukeboxd::playlist::{
    feed_after, library_entry, like_image, like_style, playlist_link, render_playlist, select, toggle_like,
    Selection,
};

fn song(title: &str) -> Song {
    Song {
        title: title.to_owned(),
        author: format!("{} author", title),
        album: format!("{} album", title),
        release: "1999".to_owned(),
    }
}

fn playlist(title: &str, author: &str, songs: Vec<Song>) -> Playlist {
    Playlist {
        title: title.to_owned(),
        author: author.to_owned(),
        description: format!("about {}", title),
        songs,
        likes: 3,
    }
}

#[test]
fn identifiers_select_playlists_or_nothing() {
    assert_eq!(select(0, 2), Selection::Loaded(0));
    assert_eq!(select(1, 2), Selection::Loaded(1));
    assert_eq!(select(2, 2), Selection::NoSelection);
    assert_eq!(select(9999, 2), Selection::NoSelection);
    assert_eq!(select(usize::MAX, 2), Selection::NoSelection);
    assert_eq!(select(0, 0), Selection::NoSelection);
}

#[test]
fn turning_the_like_on_is_recorded() {
    let p = playlist("X", "Y", vec![]);
    let click = toggle_like(false, &p);
    assert!(click.liked);
    let event = click.event.unwrap();
    assert!(matches!(event.action, FeedAction::Like));
    assert_eq!(event.actor, "You");
    assert!(matches!(&event.target, FeedTarget::Playlist { title, author } if title == "X" && author == "Y"));
}

#[test]
fn turning_the_like_off_is_not_recorded() {
    let p = playlist("X", "Y", vec![]);
    let click = toggle_like(true, &p);
    assert!(!click.liked);
    assert!(click.event.is_none());
}

#[test]
fn four_toggles_record_two_likes() {
    let p = playlist("X", "Y", vec![]);
    let mut liked = false;
    let mut feed: Vec<FeedEvent> =
        vec![FeedEvent::new(FeedAction::FriendRequest, "A".to_owned(), FeedTarget::Nothing)];
    let mut lengths = Vec::new();
    for _ in 0..4 {
        let click = toggle_like(liked, &p);
        liked = click.liked;
        feed = feed_after(&feed, click);
        lengths.push(feed.len());
    }
    assert!(!liked);
    assert_eq!(lengths, vec![2, 2, 3, 3]);
    assert_eq!(feed[0].actor, "A");
    assert!(matches!(feed[0].action, FeedAction::FriendRequest));
    for event in &feed[1..] {
        assert!(matches!(event.action, FeedAction::Like));
        assert_eq!(event.actor, "You");
    }
}

#[test]
fn like_button_styles() {
    assert_eq!(like_style(false), "like");
    assert_eq!(like_style(true), "like_filled");
    assert_eq!(like_image(false), "url('/images/like.svg')");
    assert_eq!(like_image(true), "url('/images/like_filled.svg')");
}

#[test]
fn playlist_is_rendered_with_numbered_songs() {
    let p = playlist("Mix", "Ann", vec![song("one"), song("two"), song("three")]);
    let detail = render_playlist(&p, false);
    assert_eq!(detail.title, "Mix");
    assert_eq!(detail.byline, "Playlist by Ann");
    assert_eq!(detail.description, "about Mix");
    assert_eq!(detail.style, "like");
    assert_eq!(detail.image, "url('/images/like.svg')");
    assert_eq!(detail.rows.len(), 3);
    assert_eq!(detail.rows[0].number, 1);
    assert_eq!(detail.rows[0].title, "one");
    assert_eq!(detail.rows[0].author, "one author");
    assert_eq!(detail.rows[0].release, "1999");
    assert_eq!(detail.rows[2].number, 3);
    assert_eq!(detail.rows[2].title, "three");
    assert_eq!(render_playlist(&p, true).style, "like_filled");
    assert!(render_playlist(&playlist("E", "F", vec![]), false).rows.is_empty());
}

#[test]
fn library_entries_link_to_their_playlists() {
    let p = playlist("Mix", "Ann", vec![song("one"), song("two")]);
    let entry = library_entry(4, &p);
    assert_eq!(entry.href, "/playlists/4");
    assert_eq!(entry.title, "Mix");
    assert_eq!(entry.author, "Author: Ann");
    assert_eq!(entry.tracks, "Tracks: 2");
    assert_eq!(playlist_link(0), "/playlists/0");
    assert_eq!(playlist_link(120), "/playlists/120");
}

#[test]
fn a_click_that_is_not_recorded_leaves_the_feed() {
    let p = playlist("X", "Y", vec![]);
    let feed = vec![FeedEvent::new(FeedAction::Like, "A".to_owned(), FeedTarget::Nothing)];
    let after = feed_after(&feed, toggle_like(true, &p));
    assert_eq!(after.len(), 1);
    assert_eq!(after[0].actor, "A");
}
