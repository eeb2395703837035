//! The records that the views show: songs, playlists and feed events.
//!
//! Every record has a view made of `Seq<char>` texts, and the contracts of
//! the crate speak of those views only.

use vstd::prelude::*;

verus! {

/// What a [`Song`] holds, as texts.
pub struct SongView {
    pub title: Seq<char>,
    pub author: Seq<char>,
    pub album: Seq<char>,
    pub release: Seq<char>,
}

/// One track of a playlist. A song is never changed once it is loaded.
#[derive(Debug)]
pub struct Song {
    pub title: String,
    pub author: String,
    pub album: String,
    pub release: String,
}

impl View for Song {
    type V = SongView;

    open spec fn view(&self) -> SongView {
        SongView {
            title: self.title@,
            author: self.author@,
            album: self.album@,
            release: self.release@,
        }
    }
}

impl Clone for Song {
    fn clone(&self) -> (copy: Song)
        ensures
            copy@ == self@,
    {
        Song {
            title: self.title.clone(),
            author: self.author.clone(),
            album: self.album.clone(),
            release: self.release.clone(),
        }
    }
}

/// The views of a sequence of songs, in the same order.
pub open spec fn song_views(songs: Seq<Song>) -> Seq<SongView> {
    Seq::new(songs.len(), |i: int| songs[i]@)
}

/// A copy of `songs` with the same views in the same order.
pub fn clone_songs(songs: &Vec<Song>) -> (copy: Vec<Song>)
    ensures
        song_views(copy@) == song_views(songs@),
{
    let mut copy: Vec<Song> = Vec::new();
    let mut i: usize = 0;
    while i < songs.len()
        invariant
            i <= songs.len(),
            copy.len() == i,
            forall|k: int| 0 <= k < i ==> copy[k]@ == songs[k]@,
        decreases songs.len() - i,
    {
        copy.push(songs[i].clone());
        i += 1;
    }
    assert(song_views(copy@) =~= song_views(songs@));
    copy
}

/// What a [`Playlist`] holds: texts, the songs in order, and the like count.
pub struct PlaylistView {
    pub title: Seq<char>,
    pub author: Seq<char>,
    pub description: Seq<char>,
    pub songs: Seq<SongView>,
    pub likes: nat,
}

/// A playlist of the catalog. Its place in the loaded list is its
/// identifier, which is why the record itself carries none.
#[derive(Debug)]
pub struct Playlist {
    pub title: String,
    pub author: String,
    pub description: String,
    pub songs: Vec<Song>,
    pub likes: usize,
}

impl View for Playlist {
    type V = PlaylistView;

    open spec fn view(&self) -> PlaylistView {
        PlaylistView {
            title: self.title@,
            author: self.author@,
            description: self.description@,
            songs: song_views(self.songs@),
            likes: self.likes as nat,
        }
    }
}

impl Clone for Playlist {
    fn clone(&self) -> (copy: Playlist)
        ensures
            copy@ == self@,
    {
        Playlist {
            title: self.title.clone(),
            author: self.author.clone(),
            description: self.description.clone(),
            songs: clone_songs(&self.songs),
            likes: self.likes,
        }
    }
}

/// The views of a sequence of playlists, in the same order.
pub open spec fn playlist_views(playlists: Seq<Playlist>) -> Seq<PlaylistView> {
    Seq::new(playlists.len(), |i: int| playlists[i]@)
}

/// What a [`FeedAction`] holds.
pub enum FeedActionView {
    Like,
    Comment(Seq<char>),
    FriendRequest,
}

/// What somebody did.
#[derive(Debug)]
pub enum FeedAction {
    Like,
    Comment(String),
    FriendRequest,
}

impl View for FeedAction {
    type V = FeedActionView;

    open spec fn view(&self) -> FeedActionView {
        match self {
            FeedAction::Like => FeedActionView::Like,
            FeedAction::Comment(text) => FeedActionView::Comment(text@),
            FeedAction::FriendRequest => FeedActionView::FriendRequest,
        }
    }
}

impl Clone for FeedAction {
    fn clone(&self) -> (copy: FeedAction)
        ensures
            copy@ == self@,
    {
        match self {
            FeedAction::Like => FeedAction::Like,
            FeedAction::Comment(text) => FeedAction::Comment(text.clone()),
            FeedAction::FriendRequest => FeedAction::FriendRequest,
        }
    }
}

/// What a [`FeedTarget`] holds.
pub enum FeedTargetView {
    Playlist { title: Seq<char>, author: Seq<char> },
    Album(Seq<char>),
    Nothing,
}

/// What the action was done to.
#[derive(Debug)]
pub enum FeedTarget {
    Playlist { title: String, author: String },
    Album(String),
    /// No target: a friend request is addressed to the reader.
    Nothing,
}

impl View for FeedTarget {
    type V = FeedTargetView;

    open spec fn view(&self) -> FeedTargetView {
        match self {
            FeedTarget::Playlist { title, author } => FeedTargetView::Playlist {
                title: title@,
                author: author@,
            },
            FeedTarget::Album(name) => FeedTargetView::Album(name@),
            FeedTarget::Nothing => FeedTargetView::Nothing,
        }
    }
}

impl Clone for FeedTarget {
    fn clone(&self) -> (copy: FeedTarget)
        ensures
            copy@ == self@,
    {
        match self {
            FeedTarget::Playlist { title, author } => FeedTarget::Playlist {
                title: title.clone(),
                author: author.clone(),
            },
            FeedTarget::Album(name) => FeedTarget::Album(name.clone()),
            FeedTarget::Nothing => FeedTarget::Nothing,
        }
    }
}

/// What a [`FeedEvent`] holds.
pub struct FeedEventView {
    pub action: FeedActionView,
    pub actor: Seq<char>,
    pub target: FeedTargetView,
}

/// One entry of the activity feed. The feed only grows: an event that was
/// appended is neither changed nor removed.
#[derive(Debug)]
pub struct FeedEvent {
    pub action: FeedAction,
    pub actor: String,
    pub target: FeedTarget,
}

impl View for FeedEvent {
    type V = FeedEventView;

    open spec fn view(&self) -> FeedEventView {
        FeedEventView { action: self.action@, actor: self.actor@, target: self.target@ }
    }
}

impl FeedEvent {
    /// The event in which `actor` did `action` to `target`.
    pub fn new(action: FeedAction, actor: String, target: FeedTarget) -> (event: FeedEvent)
        ensures
            event.action == action,
            event.actor == actor,
            event.target == target,
            event@ == (FeedEventView { action: action@, actor: actor@, target: target@ }),
    {
        FeedEvent { action, actor, target }
    }
}

impl Clone for FeedEvent {
    fn clone(&self) -> (copy: FeedEvent)
        ensures
            copy@ == self@,
    {
        FeedEvent {
            action: self.action.clone(),
            actor: self.actor.clone(),
            target: self.target.clone(),
        }
    }
}

/// The views of a sequence of events, in the same order.
pub open spec fn event_views(events: Seq<FeedEvent>) -> Seq<FeedEventView> {
    Seq::new(events.len(), |i: int| events[i]@)
}

/// A copy of `events` with the same views in the same order.
pub fn clone_events(events: &Vec<FeedEvent>) -> (copy: Vec<FeedEvent>)
    ensures
        event_views(copy@) == event_views(events@),
{
    let mut copy: Vec<FeedEvent> = Vec::new();
    let mut i: usize = 0;
    while i < events.len()
        invariant
            i <= events.len(),
            copy.len() == i,
            forall|k: int| 0 <= k < i ==> copy[k]@ == events[k]@,
        decreases events.len() - i,
    {
        copy.push(events[i].clone());
        i += 1;
    }
    assert(event_views(copy@) =~= event_views(events@));
    copy
}

} // verus!
