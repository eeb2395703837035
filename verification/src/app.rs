//! The page as a whole: the cells, the context, the three views with their
//! render scopes, and what a navigation and a click on the like button do.
//!
//! Booting wraps every playlist and the feed in a cell, provides the cells
//! through the context and renders the library, the feed and the content
//! region once. After that a write renders again exactly the views that
//! read the written cell, before control goes back to the caller.

use vstd::prelude::*;
use vstd::string::StringExecFns;
use crate::context::{ContextKind, Registry};
use crate::feed::{item_views, items_of, FeedItem, FeedItemView};
use crate::graph::{lemma_without_absent, lemma_without_removes, without};
use crate::model::{
    clone_events, event_views, playlist_views, FeedAction, FeedActionView, FeedEvent,
    FeedEventView, FeedTarget, FeedTargetView, Playlist, PlaylistView,
};
use crate::playlist::{
    detail_of, entry_of, entry_views, feed_after, toggle_like, LibraryEntry, LibraryEntryView,
    LikeModel,
};
use crate::reactive::{ReactiveCell, Runtime};
use crate::router::Router;
use crate::routes::{content_for, content_of, jukebox_router, jukebox_routes};
use crate::views::{
    cell_ids, content_reads, content_view, feed_view, library_of, library_view, page_of,
    provided_feed, provided_playlists, rendered, selected, use_feed, use_playlists, Content, Page,
    PageView, Shared,
};

verus! {

/// A list of one scope without `scope`.
proof fn lemma_without_single(only: usize, scope: usize)
    ensures
        without(seq![only], scope) == if only == scope {
            Seq::<usize>::empty()
        } else {
            seq![only]
        },
        without(Seq::<usize>::empty(), scope) == Seq::<usize>::empty(),
{
    let list = seq![only];
    if only == scope {
        assert(list.no_duplicates());
        lemma_without_removes(list, scope, 0);
        assert(list.remove(0) =~= Seq::<usize>::empty());
    } else {
        assert(!list.contains(scope));
        lemma_without_absent(list, scope);
    }
}

/// What the content region shows for `content`, given the playlists and
/// the like flag.
pub open spec fn shown_page(content: Content, playlists: Seq<PlaylistView>, liked: bool)
    -> PageView {
    match content {
        Content::Home => PageView::Home,
        Content::NotFound => PageView::NotFound,
        Content::Playlist(id) => if id < playlists.len() {
            PageView::Playlist(detail_of(playlists[id as int], liked))
        } else {
            PageView::NoSelection
        },
    }
}

/// The library entries of `playlists`: one for each, under its place in
/// the list.
pub open spec fn shown_library(playlists: Seq<PlaylistView>) -> Seq<LibraryEntryView> {
    Seq::new(playlists.len(), |i: int| entry_of(i, playlists[i]))
}

/// The two events that the feed holds when the page is opened: a friend
/// request, and a comment that invites a click on the like button.
pub open spec fn sample_events() -> Seq<FeedEventView> {
    seq![
        FeedEventView {
            action: FeedActionView::FriendRequest,
            actor: "Garrett Jones"@,
            target: FeedTargetView::Nothing,
        },
        FeedEventView {
            action: FeedActionView::Comment("Try clicking the like button on a playlist!"@),
            actor: "Garrett Jones"@,
            target: FeedTargetView::Album("Sample Feed Album"@),
        },
    ]
}

/// The feed that the page is opened with.
pub fn sample_feed() -> (feed: Vec<FeedEvent>)
    ensures
        event_views(feed@) == sample_events(),
{
    let mut feed: Vec<FeedEvent> = Vec::new();
    feed.push(
        FeedEvent::new(
            FeedAction::FriendRequest,
            String::from_str("Garrett Jones"),
            FeedTarget::Nothing,
        ),
    );
    feed.push(
        FeedEvent::new(
            FeedAction::Comment(String::from_str("Try clicking the like button on a playlist!")),
            String::from_str("Garrett Jones"),
            FeedTarget::Album(String::from_str("Sample Feed Album")),
        ),
    );
    assert(event_views(feed@) =~= sample_events());
    feed
}

/// The page: its state and what its three views show.
pub struct App {
    runtime: Runtime,
    context: Registry<Shared>,
    router: Router,
    content: Content,
    liked: ReactiveCell<bool>,
    library_scope: usize,
    feed_scope: usize,
    content_scope: usize,
    library: Vec<LibraryEntry>,
    feed: Vec<FeedItem>,
    page: Page,
}

impl App {
    /// The playlists that the context provides.
    spec fn list(&self) -> Seq<(usize, ReactiveCell<Playlist>)> {
        match provided_playlists(self.context@) {
            Some(list) => list,
            None => Seq::empty(),
        }
    }

    /// The feed cell that the context provides.
    spec fn feed_cell(&self) -> ReactiveCell<Vec<FeedEvent>> {
        provided_feed(self.context@)->0
    }

    /// Whether the content region shows a playlist.
    spec fn shows_detail(&self) -> bool {
        match self.content {
            Content::Playlist(id) => id < self.list().len(),
            _ => false,
        }
    }

    /// What holds of the page at every moment, also while views wait to be
    /// rendered again: the cells and scopes are those of the runtime, no
    /// render is running, the feed cell has the feed view as its one
    /// subscriber, and the like flag has no subscriber but the content
    /// region.
    spec fn base(&self) -> bool {
        &&& self.runtime.wf()
        &&& self.context.wf()
        &&& self.router@ == jukebox_routes()
        &&& provided_playlists(self.context@) is Some
        &&& provided_feed(self.context@) is Some
        &&& forall|i: int|
            0 <= i < self.list().len()
                ==> (#[trigger] self.list()[i]).0 == i && self.list()[i].1.id()
                == i
        &&& self.feed_cell().id() == self.list().len()
        &&& self.list().len() < self.liked.id() < self.runtime@.cells()
        &&& self.library_scope < self.runtime@.scopes
        &&& self.feed_scope < self.runtime@.scopes
        &&& self.content_scope < self.runtime@.scopes
        &&& self.library_scope != self.feed_scope
        &&& self.library_scope != self.content_scope
        &&& self.feed_scope != self.content_scope
        &&& self.runtime@.stack.len() == 0
        &&& self.runtime@.notified(self.feed_cell().id()) == seq![self.feed_scope]
        &&& (self.runtime@.notified(self.liked.id()) == seq![self.content_scope]
            || self.runtime@.notified(self.liked.id()) == Seq::<usize>::empty())
    }

    /// The library panel shows the playlists as they are.
    spec fn library_fresh(&self) -> bool {
        entry_views(self.library@) == library_of(self.list())
    }

    /// The feed panel shows the feed as it is.
    spec fn feed_fresh(&self) -> bool {
        item_views(self.feed@) == items_of(event_views(self.feed_cell().value()@))
    }

    /// The content region shows what it is asked to, as things are, and is
    /// subscribed to the like flag exactly while it shows a playlist.
    spec fn page_fresh(&self) -> bool {
        &&& self.page@ == page_of(self.content, self.list(), self.liked.value())
        &&& self.runtime@.notified(self.liked.id()) == if self.shows_detail() {
            seq![self.content_scope]
        } else {
            Seq::<usize>::empty()
        }
    }

    /// The page's invariant: its bookkeeping is sound and every view shows
    /// the current values of the cells it reads.
    pub closed spec fn wf(&self) -> bool {
        &&& self.base()
        &&& self.library_fresh()
        &&& self.feed_fresh()
        &&& self.page_fresh()
    }

    /// The playlists of the catalog, in the order in which they were
    /// loaded. A playlist's place is its identifier.
    pub closed spec fn playlists(&self) -> Seq<PlaylistView> {
        Seq::new(self.list().len(), |i: int| self.list()[i].1.value()@)
    }

    /// The events of the feed, the newest last.
    pub closed spec fn events(&self) -> Seq<FeedEventView> {
        event_views(self.feed_cell().value()@)
    }

    /// The like flag of the detail view.
    pub closed spec fn liked(&self) -> bool {
        self.liked.value()
    }

    /// What the content region is asked to show.
    pub closed spec fn content(&self) -> Content {
        self.content
    }

    /// What the library panel shows.
    pub closed spec fn library_shown(&self) -> Seq<LibraryEntryView> {
        entry_views(self.library@)
    }

    /// What the feed panel shows.
    pub closed spec fn feed_shown(&self) -> Seq<FeedItemView> {
        item_views(self.feed@)
    }

    /// What the content region shows.
    pub closed spec fn page_shown(&self) -> PageView {
        self.page@
    }

    /// The scope of the library panel.
    pub closed spec fn library_scope(&self) -> usize {
        self.library_scope
    }

    /// The scope of the feed panel.
    pub closed spec fn feed_scope(&self) -> usize {
        self.feed_scope
    }

    /// The scope of the content region.
    pub closed spec fn content_scope(&self) -> usize {
        self.content_scope
    }

    /// Every view shows the current state: the library one entry for each
    /// playlist, the feed one item for each event, and the content region
    /// the page that its content, the playlists and the like flag call for.
    pub proof fn law_views_show_the_state(&self)
        requires
            self.wf(),
        ensures
            self.library_shown() == shown_library(self.playlists()),
            self.feed_shown() == items_of(self.events()),
            self.page_shown() == shown_page(self.content(), self.playlists(), self.liked()),
            self.library_scope() != self.feed_scope(),
            self.library_scope() != self.content_scope(),
            self.feed_scope() != self.content_scope(),
    {
        assert(library_of(self.list()) =~= shown_library(self.playlists()));
        match self.content {
            Content::Playlist(id) => {
                if id < self.list().len() {
                    assert(selected(self.list(), id) == Some(self.list()[id as int].1));
                    assert(self.playlists()[id as int] == self.list()[id as int].1.value()@);
                }
            },
            _ => {},
        }
    }

    /// What stays as it is while views are rendered again: everything but
    /// the runtime's subscriptions and what the views show.
    spec fn same_state(&self, before: &App) -> bool {
        &&& self.context == before.context
        &&& self.router == before.router
        &&& self.content == before.content
        &&& self.liked == before.liked
        &&& self.library_scope == before.library_scope
        &&& self.feed_scope == before.feed_scope
        &&& self.content_scope == before.content_scope
    }

    /// The effect of one render on the subscribers of the feed cell and of
    /// the like flag: the feed cell keeps the feed view as its one
    /// subscriber, and the like flag has the content region as its
    /// subscriber after a render of the content region that shows a
    /// playlist, none after one that shows none, and its subscribers of
    /// before after a render of another view.
    proof fn lemma_render_keeps_subscribers(&self, scope: usize, cells: Seq<int>)
        requires
            self.base(),
            scope == self.library_scope || scope == self.feed_scope || scope == self.content_scope,
            scope == self.library_scope ==> cells == cell_ids(self.list()),
            scope == self.feed_scope ==> cells == seq![self.feed_cell().id()],
            scope == self.content_scope ==> cells == content_reads(
                self.content,
                self.list(),
                self.liked.id(),
            ),
        ensures
            rendered(self.runtime@, scope, cells).wf(),
            rendered(self.runtime@, scope, cells).stack == self.runtime@.stack,
            rendered(self.runtime@, scope, cells).scopes == self.runtime@.scopes,
            rendered(self.runtime@, scope, cells).cells() == self.runtime@.cells(),
            rendered(self.runtime@, scope, cells).notified(self.feed_cell().id())
                == self.runtime@.notified(self.feed_cell().id()),
            rendered(self.runtime@, scope, cells).notified(self.liked.id()) == if scope
                == self.content_scope {
                if self.shows_detail() {
                    seq![self.content_scope]
                } else {
                    Seq::<usize>::empty()
                }
            } else {
                self.runtime@.notified(self.liked.id())
            },
    {
        let graph = self.runtime@;
        let feed_id = self.feed_cell().id();
        let liked_id = self.liked.id();
        self.runtime.lemma_graph_wf();
        graph.lemma_render_effect(scope, cells, feed_id);
        graph.lemma_render_effect(scope, cells, liked_id);
        lemma_without_single(self.feed_scope, scope);
        lemma_without_single(self.content_scope, scope);
        if scope == self.library_scope {
            assert forall|i: int| 0 <= i < cells.len() implies cells[i] != feed_id && cells[i]
                != liked_id by {
                assert(self.list()[i].1.id() == i);
            }
        } else if scope == self.feed_scope {
            assert(cells[0] == feed_id);
            assert forall|i: int| 0 <= i < cells.len() implies cells[i] != liked_id by {}
            assert(Seq::<usize>::empty().push(scope) =~= seq![scope]);
        } else {
            if self.shows_detail() {
                let id = self.content->Playlist_0;
                assert(self.list()[id as int].1.id() == id);
                assert(cells[1] == liked_id);
                assert forall|i: int| 0 <= i < cells.len() implies cells[i] != feed_id by {}
                assert(Seq::<usize>::empty().push(scope) =~= seq![scope]);
            } else {
                assert(cells.len() == 0);
            }
        }
    }

    /// Renders again the view that owns `scope` and puts what it shows in
    /// the place of what it showed before. A scope that belongs to none of
    /// the three views is passed over.
    fn rerender(&mut self, scope: usize)
        requires
            old(self).base(),
        ensures
            final(self).base(),
            final(self).same_state(old(self)),
            scope == old(self).library_scope || old(self).library_fresh()
                ==> final(self).library_fresh(),
            scope == old(self).feed_scope || old(self).feed_fresh() ==> final(self).feed_fresh(),
            scope == old(self).content_scope || old(self).page_fresh() ==> final(self).page_fresh(),
    {
        if scope == self.library_scope {
            proof {
                self.lemma_render_keeps_subscribers(scope, cell_ids(self.list()));
            }
            match library_view(&mut self.runtime, scope, &self.context) {
                Ok(entries) => {
                    self.library = entries;
                },
                Err(_) => {},
            }
        } else if scope == self.feed_scope {
            proof {
                self.lemma_render_keeps_subscribers(scope, seq![self.feed_cell().id()]);
            }
            match feed_view(&mut self.runtime, scope, &self.context) {
                Ok(items) => {
                    self.feed = items;
                },
                Err(_) => {},
            }
        } else if scope == self.content_scope {
            proof {
                self.lemma_render_keeps_subscribers(
                    scope,
                    content_reads(self.content, self.list(), self.liked.id()),
                );
            }
            match content_view(
                &mut self.runtime,
                scope,
                &self.context,
                self.content,
                &self.liked,
            ) {
                Ok(page) => {
                    self.page = page;
                },
                Err(_) => {},
            }
        }
    }

    /// Renders again the views of the scopes of `notified`, one after the
    /// other in that order, and notes each in `log`. When it is done every
    /// view shows the state: those that did before and were not notified,
    /// and those that were.
    fn rerender_all(&mut self, notified: &Vec<usize>, log: &mut Vec<usize>)
        requires
            old(self).base(),
            old(self).library_fresh() || notified@.contains(old(self).library_scope),
            old(self).feed_fresh() || notified@.contains(old(self).feed_scope),
            old(self).page_fresh() || notified@.contains(old(self).content_scope),
        ensures
            final(self).wf(),
            final(self).same_state(old(self)),
            final(log)@ == old(log)@ + notified@,
    {
        let mut i: usize = 0;
        proof {
            assert(notified@.skip(0) =~= notified@);
            assert(log@ + notified@.take(0) =~= log@);
        }
        while i < notified.len()
            invariant
                i <= notified.len(),
                self.base(),
                self.same_state(old(self)),
                self.library_fresh() || notified@.skip(i as int).contains(self.library_scope),
                self.feed_fresh() || notified@.skip(i as int).contains(self.feed_scope),
                self.page_fresh() || notified@.skip(i as int).contains(self.content_scope),
                log@ == old(log)@ + notified@.take(i as int),
            decreases notified.len() - i,
        {
            let scope = notified[i];
            proof {
                let rest = notified@.skip(i as int);
                let after = notified@.skip(i + 1);
                assert forall|s: usize| rest.contains(s) && s != scope
                    implies after.contains(s) by {
                    let k = choose|k: int| 0 <= k < rest.len() && rest[k] == s;
                    assert(after[k - 1] == s);
                }
                assert(notified@.take(i + 1) =~= notified@.take(i as int).push(scope));
            }
            self.rerender(scope);
            log.push(scope);
            i += 1;
        }
        proof {
            assert(notified@.skip(notified.len() as int) =~= Seq::<usize>::empty());
            assert(notified@.take(notified.len() as int) =~= notified@);
        }
    }

    /// Boots the page: wraps every playlist of `playlists`, in order, and
    /// the events of `feed` in cells, provides the cells through the
    /// context, and renders the library, the feed and, for the path `path`,
    /// the content region. The like flag starts out off.
    pub fn boot(playlists: Vec<Playlist>, feed: Vec<FeedEvent>, path: &str) -> (app: App)
        ensures
            app.wf(),
            app.playlists() == playlist_views(playlists@),
            app.events() == event_views(feed@),
            !app.liked(),
            app.content() == content_of(jukebox_routes(), path@),
    {
        let mut runtime = Runtime::new();
        let mut list: Vec<(usize, ReactiveCell<Playlist>)> = Vec::new();
        let mut i: usize = 0;
        proof {
            runtime.lemma_graph_wf();
        }
        while i < playlists.len()
            invariant
                i <= playlists.len(),
                runtime.wf(),
                runtime@.cells() == i,
                runtime@.scopes == 0,
                runtime@.stack.len() == 0,
                forall|c: int| runtime@.notified(c) == Seq::<usize>::empty(),
                list.len() == i,
                forall|k: int|
                    0 <= k < i ==> (#[trigger] list[k]).0 == k && list[k].1.id() == k
                        && list[k].1.value()@ == playlists[k]@,
            decreases playlists.len() - i,
        {
            let ghost before = runtime@;
            let cell = runtime.create_cell(playlists[i].clone());
            proof {
                assert forall|c: int| runtime@.notified(c) == Seq::<usize>::empty() by {
                    if 0 <= c < before.cells() {
                        assert(runtime@.subscribers[c] == before.subscribers[c]);
                        assert(before.notified(c) == Seq::<usize>::empty());
                    }
                }
            }
            list.push((i, cell));
            i += 1;
        }
        let ghost cells = list@;
        let ghost before_feed = runtime@;
        let feed_cell = runtime.create_cell(feed);
        proof {
            assert forall|c: int| runtime@.notified(c) == Seq::<usize>::empty() by {
                if 0 <= c < before_feed.cells() {
                    assert(runtime@.subscribers[c] == before_feed.subscribers[c]);
                    assert(before_feed.notified(c) == Seq::<usize>::empty());
                }
            }
        }
        let ghost before_liked = runtime@;
        let liked = runtime.create_cell(false);
        proof {
            assert forall|c: int| runtime@.notified(c) == Seq::<usize>::empty() by {
                if 0 <= c < before_liked.cells() {
                    assert(runtime@.subscribers[c] == before_liked.subscribers[c]);
                    assert(before_liked.notified(c) == Seq::<usize>::empty());
                }
            }
        }
        let library_scope = runtime.create_scope();
        let feed_scope = runtime.create_scope();
        let content_scope = runtime.create_scope();
        let ghost feed_id = feed_cell.id();
        let ghost liked_id = liked.id();

        let mut context: Registry<Shared> = Registry::new();
        context.enter();
        let ghost entered = context@;
        context.provide(ContextKind::PlaylistList, Shared::Playlists(list));
        let ghost with_list = context@;
        context.provide(ContextKind::Feed, Shared::Feed(feed_cell));
        proof {
            entered.law_nearest_provider_wins(
                ContextKind::PlaylistList,
                Shared::Playlists(list),
                ContextKind::Feed,
            );
            with_list.law_nearest_provider_wins(
                ContextKind::Feed,
                Shared::Feed(feed_cell),
                ContextKind::PlaylistList,
            );
            assert(provided_playlists(context@) == Some(cells));
            assert(provided_feed(context@) == Some(feed_cell));
        }
        let router = jukebox_router();
        let content = content_for(&router, path);

        let ghost g0 = runtime@;
        proof {
            runtime.lemma_graph_wf();
            let reads = cell_ids(cells);
            assert forall|k: int| 0 <= k < reads.len() implies reads[k] != feed_id && reads[k]
                != liked_id by {
                assert(cells[k].1.id() == k);
            }
            g0.lemma_render_effect(library_scope, reads, feed_id);
            g0.lemma_render_effect(library_scope, reads, liked_id);
            lemma_without_single(library_scope, library_scope);
        }
        let library = match library_view(&mut runtime, library_scope, &context) {
            Ok(entries) => entries,
            Err(_) => Vec::new(),
        };
        let ghost g1 = runtime@;
        proof {
            let reads = seq![feed_id];
            assert(reads[0] == feed_id);
            assert forall|k: int| 0 <= k < reads.len() implies reads[k] != liked_id by {}
            g1.lemma_render_effect(feed_scope, reads, feed_id);
            g1.lemma_render_effect(feed_scope, reads, liked_id);
            lemma_without_single(feed_scope, feed_scope);
            assert(Seq::<usize>::empty().push(feed_scope) =~= seq![feed_scope]);
        }
        let shown_feed = match feed_view(&mut runtime, feed_scope, &context) {
            Ok(items) => items,
            Err(_) => Vec::new(),
        };
        let ghost g2 = runtime@;
        proof {
            let reads = content_reads(content, cells, liked_id);
            g2.lemma_render_effect(content_scope, reads, feed_id);
            g2.lemma_render_effect(content_scope, reads, liked_id);
            lemma_without_single(feed_scope, content_scope);
            match content {
                Content::Playlist(id) => {
                    if id < cells.len() {
                        assert(cells[id as int].1.id() == id);
                        assert(reads[1] == liked_id);
                        assert forall|k: int| 0 <= k < reads.len() implies reads[k] != feed_id by {}
                        assert(Seq::<usize>::empty().push(content_scope) =~= seq![content_scope]);
                    }
                },
                _ => {},
            }
        }
        let page = match content_view(&mut runtime, content_scope, &context, content, &liked) {
            Ok(page) => page,
            Err(_) => Page::NotFound,
        };
        let app = App {
            runtime,
            context,
            router,
            content,
            liked,
            library_scope,
            feed_scope,
            content_scope,
            library,
            feed: shown_feed,
            page,
        };
        proof {
            assert(app.list() == cells);
            assert(app.playlists() =~= playlist_views(playlists@));
        }
        app
    }

    /// Takes the page to `path`: the content region is asked to show what
    /// the path resolves to and is rendered again; the library and the feed
    /// are not. The detail view keeps its like flag while one detail path
    /// follows another, and starts with the flag off when it is shown anew.
    pub fn navigate(&mut self, path: &str)
        requires
            old(self).wf(),
        ensures
            final(self).wf(),
            final(self).playlists() == old(self).playlists(),
            final(self).events() == old(self).events(),
            final(self).content() == content_of(jukebox_routes(), path@),
            final(self).liked() == (old(self).liked() && old(self).content() is Playlist
                && final(self).content() is Playlist),
            final(self).library_shown() == old(self).library_shown(),
            final(self).feed_shown() == old(self).feed_shown(),
            final(self).library_scope() == old(self).library_scope(),
            final(self).feed_scope() == old(self).feed_scope(),
            final(self).content_scope() == old(self).content_scope(),
    {
        let content = content_for(&self.router, path);
        let stays = match (self.content, content) {
            (Content::Playlist(_), Content::Playlist(_)) => true,
            _ => false,
        };
        if !stays {
            let ghost before = self.runtime@;
            self.liked = self.runtime.create_cell(false);
            proof {
                let feed_id = self.feed_cell().id();
                assert(self.runtime@.subscribers[feed_id] == before.subscribers[feed_id]);
            }
        }
        self.content = content;
        let scope = self.content_scope;
        self.rerender(scope);
    }

    /// One click on the like button. While a playlist is shown the like
    /// flag flips and the content region is rendered again; the click that
    /// turns the flag on also appends its like event to the feed, and the
    /// feed panel is rendered again. While no playlist is shown there is no
    /// button, and nothing happens. Hands back the scopes that were
    /// rendered again, in the order of their renders; all of that is done
    /// when the call returns.
    pub fn click_like(&mut self) -> (renders: Vec<usize>)
        requires
            old(self).wf(),
        ensures
            final(self).wf(),
            final(self).playlists() == old(self).playlists(),
            final(self).content() == old(self).content(),
            final(self).library_shown() == old(self).library_shown(),
            final(self).library_scope() == old(self).library_scope(),
            final(self).feed_scope() == old(self).feed_scope(),
            final(self).content_scope() == old(self).content_scope(),
            match old(self).content() {
                Content::Playlist(id) if id < old(self).playlists().len() => {
                    &&& (LikeModel { liked: final(self).liked(), feed: final(self).events() }) == (
                    LikeModel { liked: old(self).liked(), feed: old(self).events() }).clicked(
                        old(self).playlists()[id as int],
                    )
                    &&& renders@ == if old(self).liked() {
                        seq![old(self).content_scope()]
                    } else {
                        seq![old(self).content_scope(), old(self).feed_scope()]
                    }
                },
                _ => {
                    &&& final(self).liked() == old(self).liked()
                    &&& final(self).events() == old(self).events()
                    &&& final(self).feed_shown() == old(self).feed_shown()
                    &&& final(self).page_shown() == old(self).page_shown()
                    &&& renders@ == Seq::<usize>::empty()
                },
            },
    {
        let mut log: Vec<usize> = Vec::new();
        let id = match self.content {
            Content::Playlist(id) => id,
            _ => {
                return log;
            },
        };
        let click = match use_playlists(&self.context) {
            Ok(list) => {
                if id < list.len() {
                    toggle_like(*self.liked.peek(), list[id].1.peek())
                } else {
                    return log;
                }
            },
            Err(_) => {
                return log;
            },
        };
        let notified = self.runtime.write(&mut self.liked, click.liked);
        proof {
            assert(notified@[0] == self.content_scope);
        }
        self.rerender_all(&notified, &mut log);
        assert(log@ =~= seq![self.content_scope]);
        if click.event.is_some() {
            let ghost before = self.context@;
            let ghost old_cell = self.feed_cell();
            let notified = match self.context.lookup_mut(ContextKind::Feed) {
                Ok(Shared::Feed(cell)) => {
                    let events = feed_after(cell.peek(), click);
                    let notified = self.runtime.write(cell, events);
                    proof {
                        before.law_replaced_is_found(
                            ContextKind::Feed,
                            Shared::Feed(*cell),
                            ContextKind::PlaylistList,
                        );
                    }
                    notified
                },
                _ => Vec::new(),
            };
            proof {
                assert(notified@[0] == self.feed_scope);
            }
            self.rerender_all(&notified, &mut log);
            assert(log@ =~= seq![self.content_scope, self.feed_scope]);
        }
        log
    }

    /// What the library panel shows.
    pub fn library(&self) -> (entries: &Vec<LibraryEntry>)
        ensures
            entry_views(entries@) == self.library_shown(),
    {
        &self.library
    }

    /// What the feed panel shows.
    pub fn feed(&self) -> (items: &Vec<FeedItem>)
        ensures
            item_views(items@) == self.feed_shown(),
    {
        &self.feed
    }

    /// What the content region shows.
    pub fn page(&self) -> (page: &Page)
        ensures
            page@ == self.page_shown(),
    {
        &self.page
    }

    /// What the content region is asked to show.
    pub fn current_content(&self) -> (content: Content)
        ensures
            content == self.content(),
    {
        self.content
    }

    /// Whether the playlist shown is liked.
    pub fn is_liked(&self) -> (liked: bool)
        ensures
            liked == self.liked(),
    {
        *self.liked.peek()
    }

    /// The events of the feed, the newest last.
    pub fn feed_events(&self) -> (events: Vec<FeedEvent>)
        requires
            self.wf(),
        ensures
            event_views(events@) == self.events(),
    {
        match use_feed(&self.context) {
            Ok(cell) => clone_events(cell.peek()),
            Err(_) => Vec::new(),
        }
    }

    /// How many playlists the catalog has.
    pub fn playlist_count(&self) -> (count: usize)
        requires
            self.wf(),
        ensures
            count == self.playlists().len(),
    {
        match use_playlists(&self.context) {
            Ok(list) => list.len(),
            Err(_) => 0,
        }
    }

    /// The scope of the library panel.
    pub fn library_scope_id(&self) -> (scope: usize)
        ensures
            scope == self.library_scope(),
    {
        self.library_scope
    }

    /// The scope of the feed panel.
    pub fn feed_scope_id(&self) -> (scope: usize)
        ensures
            scope == self.feed_scope(),
    {
        self.feed_scope
    }

    /// The scope of the content region.
    pub fn content_scope_id(&self) -> (scope: usize)
        ensures
            scope == self.content_scope(),
    {
        self.content_scope
    }
}

} // verus!
