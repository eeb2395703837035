use jukeboxd::model::{
    clone_events, clone_songs, FeedAction, FeedEvent, FeedTarget, Playlist, Song,
};

#[test]
fn new_event_holds_what_it_was_given() {
    let event = FeedEvent::new(
        FeedAction::Comment("words".to_owned()),
        "actor".to_owned(),
        FeedTarget::Album("album".to_owned()),
    );
    assert!(matches!(&event.action, FeedAction::Comment(text) if text == "words"));
    assert_eq!(event.actor, "actor");
    assert!(matches!(&event.target, FeedTarget::Album(name) if name == "album"));
}

#[test]
fn clones_hold_the_same_texts() {
    let song = Song {
        title: "t".to_owned(),
        author: "a".to_owned(),
        album: "l".to_owned(),
        release: "r".to_owned(),
    };
    let playlist = Playlist {
        title: "T".to_owned(),
        author: "A".to_owned(),
        description: "D".to_owned(),
        songs: vec![song.clone(), song],
        likes: 5,
    };
    let copy = playlist.clone();
    assert_eq!(copy.title, "T");
    assert_eq!(copy.author, "A");
    assert_eq!(copy.description, "D");
    assert_eq!(copy.likes, 5);
    assert_eq!(copy.songs.len(), 2);
    assert_eq!(copy.songs[1].title, "t");
    assert_eq!(copy.songs[1].author, "a");
    assert_eq!(copy.songs[1].album, "l");
    assert_eq!(copy.songs[1].release, "r");
    assert_eq!(clone_songs(&playlist.songs).len(), 2);

    let events = vec![
        FeedEvent::new(FeedAction::Like, "x".to_owned(), FeedTarget::Nothing),
        FeedEvent::new(
            FeedAction::FriendRequest,
            "y".to_owned(),
            FeedTarget::Playlist { title: "p".to_owned(), author: "q".to_owned() },
        ),
    ];
    let copies = clone_events(&events);
    assert_eq!(copies.len(), 2);
    assert_eq!(copies[0].actor, "x");
    assert!(matches!(copies[0].action, FeedAction::Like));
    assert!(matches!(copies[0].target, FeedTarget::Nothing));
    assert!(matches!(copies[1].action, FeedAction::FriendRequest));
    assert!(matches!(&copies[1].target, FeedTarget::Playlist { title, author } if title == "p" && author == "q"));
}
