//! The playlist detail view: which playlist is selected, what is shown of
//! it, and what a click on the like button does.
//!
//! The view is in one of two states: no selection, when the identifier from
//! the path names no playlist, or loaded. A click on the like button flips
//! the view's own `liked` flag. Only the click that turns the flag on is
//! recorded in the feed; the click that turns it off leaves the feed alone.

use vstd::prelude::*;
use vstd::string::StringExecFns;
use crate::model::{
    clone_events, event_views, FeedAction, FeedActionView, FeedEvent, FeedEventView, FeedTarget,
    FeedTargetView, Playlist, PlaylistView, SongView,
};
use crate::text::{decimal, to_decimal};

verus! {

/// The state of the detail view.
#[derive(Clone, Copy, Debug, PartialEq, Eq, Structural)]
pub enum Selection {
    /// The identifier names no playlist: it could not be read as a number,
    /// or no playlist has that number.
    NoSelection,
    /// The playlist with this identifier is shown.
    Loaded(usize),
}

/// The state of the detail view for the identifier `id` when there are
/// `count` playlists.
pub open spec fn selection_of(id: usize, count: nat) -> Selection {
    if id < count {
        Selection::Loaded(id)
    } else {
        Selection::NoSelection
    }
}

/// The state of the detail view for the identifier `id` when there are
/// `count` playlists: loaded if a playlist has that identifier, no
/// selection for any other.
pub fn select(id: usize, count: usize) -> (selection: Selection)
    ensures
        selection == selection_of(id, count as nat),
{
    if id < count {
        Selection::Loaded(id)
    } else {
        Selection::NoSelection
    }
}

/// The event that records a like of `playlist`: done by "You", to the
/// playlist named by its title and author.
pub open spec fn like_event(playlist: PlaylistView) -> FeedEventView {
    FeedEventView {
        action: FeedActionView::Like,
        actor: "You"@,
        target: FeedTargetView::Playlist { title: playlist.title, author: playlist.author },
    }
}

/// The like flag and the feed, as far as clicks on the like button go.
pub struct LikeModel {
    pub liked: bool,
    pub feed: Seq<FeedEventView>,
}

impl LikeModel {
    /// The state after one click on the like button of `playlist`.
    pub open spec fn clicked(self, playlist: PlaylistView) -> LikeModel {
        if self.liked {
            LikeModel { liked: false, feed: self.feed }
        } else {
            LikeModel { liked: true, feed: self.feed.push(like_event(playlist)) }
        }
    }

    /// The state after `clicks` clicks on the like button of `playlist`.
    pub open spec fn clicked_times(self, playlist: PlaylistView, clicks: nat) -> LikeModel
        decreases clicks,
    {
        if clicks == 0 {
            self
        } else {
            self.clicked_times(playlist, (clicks - 1) as nat).clicked(playlist)
        }
    }

    /// How many of `clicks` clicks turn the flag on.
    pub open spec fn turned_on(self, clicks: nat) -> nat {
        if self.liked {
            clicks / 2
        } else {
            (clicks + 1) / 2
        }
    }

    /// Clicks are recorded when they turn the flag on and never when they
    /// turn it off: after any number of clicks the feed has grown by one
    /// like event for each click that turned the flag on, behind the events
    /// that were there, which are unchanged.
    pub proof fn law_likes_recorded_on_true_transitions(self, playlist: PlaylistView, clicks: nat)
        ensures
            self.clicked_times(playlist, clicks).liked == (self.liked != (clicks % 2 == 1)),
            self.clicked_times(playlist, clicks).feed.len() == self.feed.len() + self.turned_on(
                clicks,
            ),
            self.clicked_times(playlist, clicks).feed.take(self.feed.len() as int) == self.feed,
            forall|i: int|
                self.feed.len() <= i < self.clicked_times(playlist, clicks).feed.len()
                    ==> self.clicked_times(playlist, clicks).feed[i] == like_event(playlist),
        decreases clicks,
    {
        if clicks == 0 {
            assert(self.feed.take(self.feed.len() as int) =~= self.feed);
        } else {
            self.law_likes_recorded_on_true_transitions(playlist, (clicks - 1) as nat);
            let before = self.clicked_times(playlist, (clicks - 1) as nat);
            let after = before.clicked(playlist);
            assert(after.feed.take(self.feed.len() as int) =~= before.feed.take(
                self.feed.len() as int,
            ));
        }
    }
}

/// What one click on the like button brings about.
#[derive(Debug)]
pub struct LikeClick {
    /// The like flag after the click.
    pub liked: bool,
    /// The event to append to the feed, if the click is recorded.
    pub event: Option<FeedEvent>,
}

/// One click on the like button of `playlist` when the flag is `liked`: the
/// flag flips, and the click that turns it on comes with the like event to
/// append to the feed.
pub fn toggle_like(liked: bool, playlist: &Playlist) -> (click: LikeClick)
    ensures
        click.liked == !liked,
        liked ==> click.event is None,
        !liked ==> click.event is Some && click.event->0@ == like_event(playlist@),
{
    if liked {
        LikeClick { liked: false, event: None }
    } else {
        let event = FeedEvent::new(
            FeedAction::Like,
            String::from_str("You"),
            FeedTarget::Playlist { title: playlist.title.clone(), author: playlist.author.clone() },
        );
        LikeClick { liked: true, event: Some(event) }
    }
}

/// The feed after a click was recorded in it: the events of `feed` with
/// the click's event behind them, or just the events of `feed` for a click
/// that is not recorded.
pub fn feed_after(feed: &Vec<FeedEvent>, click: LikeClick) -> (events: Vec<FeedEvent>)
    ensures
        event_views(events@) == match click.event {
            Some(event) => event_views(feed@).push(event@),
            None => event_views(feed@),
        },
{
    let mut events = clone_events(feed);
    match click.event {
        Some(event) => {
            let ghost before = event_views(events@);
            events.push(event);
            assert(event_views(events@) =~= before.push(event@));
        },
        None => {},
    }
    events
}

/// The name of the image on the like button.
pub open spec fn style_of(liked: bool) -> Seq<char> {
    if liked {
        "like_filled"@
    } else {
        "like"@
    }
}

/// The name of the image on the like button: filled while the playlist is
/// liked.
pub fn like_style(liked: bool) -> (style: &'static str)
    ensures
        style@ == style_of(liked),
{
    if liked {
        "like_filled"
    } else {
        "like"
    }
}

/// The image on the like button, as the value of a style property.
pub open spec fn image_of(liked: bool) -> Seq<char> {
    "url('/images/"@ + style_of(liked) + ".svg')"@
}

/// The image on the like button, as the value of a style property.
pub fn like_image(liked: bool) -> (image: String)
    ensures
        image@ == image_of(liked),
{
    let mut image = String::from_str("url('/images/");
    image.append(like_style(liked));
    image.append(".svg')");
    image
}

/// What a [`SongRow`] holds, as texts.
pub struct SongRowView {
    pub number: nat,
    pub title: Seq<char>,
    pub author: Seq<char>,
    pub release: Seq<char>,
}

/// One row of the song list.
#[derive(Debug)]
pub struct SongRow {
    /// The song's place in the playlist, counted from one.
    pub number: usize,
    pub title: String,
    pub author: String,
    pub release: String,
}

impl View for SongRow {
    type V = SongRowView;

    open spec fn view(&self) -> SongRowView {
        SongRowView {
            number: self.number as nat,
            title: self.title@,
            author: self.author@,
            release: self.release@,
        }
    }
}

/// The row of the song at place `index`.
pub open spec fn row_of(index: int, song: SongView) -> SongRowView {
    SongRowView {
        number: (index + 1) as nat,
        title: song.title,
        author: song.author,
        release: song.release,
    }
}

/// What a [`PlaylistDetail`] holds, as texts.
pub struct PlaylistDetailView {
    pub title: Seq<char>,
    pub byline: Seq<char>,
    pub description: Seq<char>,
    pub style: Seq<char>,
    pub image: Seq<char>,
    pub rows: Seq<SongRowView>,
}

/// The detail view of one playlist, rendered.
#[derive(Debug)]
pub struct PlaylistDetail {
    pub title: String,
    /// Who made the playlist, as a line of text.
    pub byline: String,
    pub description: String,
    /// The name of the image on the like button.
    pub style: String,
    /// The image on the like button, as the value of a style property.
    pub image: String,
    /// The songs, one row each, in the order of the playlist.
    pub rows: Vec<SongRow>,
}

impl View for PlaylistDetail {
    type V = PlaylistDetailView;

    open spec fn view(&self) -> PlaylistDetailView {
        PlaylistDetailView {
            title: self.title@,
            byline: self.byline@,
            description: self.description@,
            style: self.style@,
            image: self.image@,
            rows: Seq::new(self.rows.len() as nat, |i: int| self.rows[i]@),
        }
    }
}

/// The detail view of `playlist` while the like flag is `liked`.
pub open spec fn detail_of(playlist: PlaylistView, liked: bool) -> PlaylistDetailView {
    PlaylistDetailView {
        title: playlist.title,
        byline: "Playlist by "@ + playlist.author,
        description: playlist.description,
        style: style_of(liked),
        image: image_of(liked),
        rows: Seq::new(playlist.songs.len(), |i: int| row_of(i, playlist.songs[i])),
    }
}

/// Renders the detail view of `playlist` while the like flag is `liked`.
/// The songs are numbered from one in the order of the playlist. The same
/// playlist and flag always give the same view.
pub fn render_playlist(playlist: &Playlist, liked: bool) -> (detail: PlaylistDetail)
    ensures
        detail@ == detail_of(playlist@, liked),
{
    let mut rows: Vec<SongRow> = Vec::new();
    let mut i: usize = 0;
    while i < playlist.songs.len()
        invariant
            i <= playlist.songs.len(),
            rows.len() == i,
            forall|k: int| 0 <= k < i ==> rows[k]@ == row_of(k, playlist.songs[k]@),
        decreases playlist.songs.len() - i,
    {
        let song = &playlist.songs[i];
        rows.push(
            SongRow {
                number: i + 1,
                title: song.title.clone(),
                author: song.author.clone(),
                release: song.release.clone(),
            },
        );
        i += 1;
    }
    let mut byline = String::from_str("Playlist by ");
    byline.append(playlist.author.as_str());
    let detail = PlaylistDetail {
        title: playlist.title.clone(),
        byline,
        description: playlist.description.clone(),
        style: String::from_str(like_style(liked)),
        image: like_image(liked),
        rows,
    };
    assert(detail@.rows =~= detail_of(playlist@, liked).rows);
    detail
}

/// The link to the detail view of the playlist with identifier `index`.
pub open spec fn link_to(index: nat) -> Seq<char> {
    "/playlists/"@ + decimal(index)
}

/// The link to the detail view of the playlist with identifier `index`.
pub fn playlist_link(index: usize) -> (link: String)
    ensures
        link@ == link_to(index as nat),
{
    let mut link = String::from_str("/playlists/");
    link.append(to_decimal(index).as_str());
    link
}

/// What a [`LibraryEntry`] holds, as texts.
pub struct LibraryEntryView {
    pub href: Seq<char>,
    pub title: Seq<char>,
    pub author: Seq<char>,
    pub tracks: Seq<char>,
}

/// One playlist in the library panel.
#[derive(Debug)]
pub struct LibraryEntry {
    /// The link to the playlist's detail view.
    pub href: String,
    pub title: String,
    /// Who made the playlist, as a line of text.
    pub author: String,
    /// How many songs the playlist has, as a line of text.
    pub tracks: String,
}

impl View for LibraryEntry {
    type V = LibraryEntryView;

    open spec fn view(&self) -> LibraryEntryView {
        LibraryEntryView {
            href: self.href@,
            title: self.title@,
            author: self.author@,
            tracks: self.tracks@,
        }
    }
}

/// The library entry of the playlist with identifier `index`.
pub open spec fn entry_of(index: int, playlist: PlaylistView) -> LibraryEntryView {
    LibraryEntryView {
        href: link_to(index as nat),
        title: playlist.title,
        author: "Author: "@ + playlist.author,
        tracks: "Tracks: "@ + decimal(playlist.songs.len()),
    }
}

/// The views of a sequence of entries, in the same order.
pub open spec fn entry_views(entries: Seq<LibraryEntry>) -> Seq<LibraryEntryView> {
    Seq::new(entries.len(), |i: int| entries[i]@)
}

/// Renders the library entry of the playlist with identifier `index`.
pub fn library_entry(index: usize, playlist: &Playlist) -> (entry: LibraryEntry)
    ensures
        entry@ == entry_of(index as int, playlist@),
{
    let mut author = String::from_str("Author: ");
    author.append(playlist.author.as_str());
    let mut tracks = String::from_str("Tracks: ");
    tracks.append(to_decimal(playlist.songs.len()).as_str());
    LibraryEntry { href: playlist_link(index), title: playlist.title.clone(), author, tracks }
}

} // verus!
