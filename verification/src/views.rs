//! The views of the page as render functions: each one finds its cells in
//! the context, reads them inside its own render scope, and hands back what
//! it shows.
//!
//! A view that does not find its context fails with `MissingContext` and
//! shows nothing. While a view renders, its scope is the current one, so
//! that the cells it reads will have it rendered again when they are
//! written; when it is done, the scope that was current before is current
//! again.

use vstd::prelude::*;
use crate::context::{ContextKind, MissingContext, Providers, Registry};
use crate::feed::{item_views, items_of, render_feed, FeedItem};
use crate::graph::Graph;
use crate::model::{event_views, FeedEvent, Playlist};
use crate::playlist::{
    detail_of, entry_of, entry_views, library_entry, render_playlist, select, selection_of,
    LibraryEntry, LibraryEntryView, PlaylistDetail, PlaylistDetailView, Selection,
};
use crate::reactive::{ReactiveCell, Runtime};

verus! {

/// What the components of the page share through the context.
pub enum Shared {
    /// The playlists of the catalog: each identifier with the cell that
    /// holds the playlist.
    Playlists(Vec<(usize, ReactiveCell<Playlist>)>),
    /// The cell that holds the activity feed.
    Feed(ReactiveCell<Vec<FeedEvent>>),
}

/// The playlists that the context provides, if it provides any.
pub open spec fn provided_playlists(context: Providers<Shared>) -> Option<
    Seq<(usize, ReactiveCell<Playlist>)>,
> {
    match context.found(ContextKind::PlaylistList) {
        Some(Shared::Playlists(list)) => Some(list@),
        _ => None,
    }
}

/// The feed cell that the context provides, if it provides one.
pub open spec fn provided_feed(context: Providers<Shared>) -> Option<ReactiveCell<Vec<FeedEvent>>> {
    match context.found(ContextKind::Feed) {
        Some(Shared::Feed(cell)) => Some(cell),
        _ => None,
    }
}

/// The playlists of the context, or `MissingContext` if no ancestor
/// provides them.
pub fn use_playlists(context: &Registry<Shared>) -> (found: Result<
    &Vec<(usize, ReactiveCell<Playlist>)>,
    MissingContext,
>)
    ensures
        match found {
            Ok(list) => provided_playlists(context@) == Some(list@),
            Err(missing) => provided_playlists(context@) is None && missing.kind
                == ContextKind::PlaylistList,
        },
{
    match context.lookup(ContextKind::PlaylistList) {
        Ok(Shared::Playlists(list)) => Ok(list),
        _ => Err(MissingContext { kind: ContextKind::PlaylistList }),
    }
}

/// The feed cell of the context, or `MissingContext` if no ancestor
/// provides it.
pub fn use_feed(context: &Registry<Shared>) -> (found: Result<
    &ReactiveCell<Vec<FeedEvent>>,
    MissingContext,
>)
    ensures
        match found {
            Ok(cell) => provided_feed(context@) == Some(*cell),
            Err(missing) => provided_feed(context@) is None && missing.kind == ContextKind::Feed,
        },
{
    match context.lookup(ContextKind::Feed) {
        Ok(Shared::Feed(cell)) => Ok(cell),
        _ => Err(MissingContext { kind: ContextKind::Feed }),
    }
}

/// The graph after a render of `scope` that read the cells of `cells`. A
/// scope that does not exist renders without a trace.
pub open spec fn rendered(graph: Graph, scope: usize, cells: Seq<int>) -> Graph {
    if scope < graph.scopes {
        graph.entered(scope).after_reads(cells).left()
    } else {
        graph
    }
}

/// Renders the feed panel in `scope`: one item for each event of the feed,
/// in the order of the feed. The scope is subscribed to the feed cell and
/// to nothing else.
pub fn feed_view(runtime: &mut Runtime, scope: usize, context: &Registry<Shared>) -> (shown: Result<
    Vec<FeedItem>,
    MissingContext,
>)
    requires
        old(runtime).wf(),
    ensures
        final(runtime).wf(),
        match provided_feed(context@) {
            Some(cell) => {
                &&& shown is Ok
                &&& item_views(shown->Ok_0@) == items_of(event_views(cell.value()@))
                &&& final(runtime)@ == rendered(old(runtime)@, scope, seq![cell.id()])
            },
            None => {
                &&& shown == Err::<Vec<FeedItem>, MissingContext>(
                    MissingContext { kind: ContextKind::Feed },
                )
                &&& final(runtime)@ == old(runtime)@
            },
        },
{
    match use_feed(context) {
        Err(missing) => Err(missing),
        Ok(cell) => {
            proof {
                runtime@.entered(scope).lemma_read_one(cell.id());
            }
            if runtime.begin_render(scope) {
                let items = render_feed(runtime.read(cell));
                runtime.end_render();
                Ok(items)
            } else {
                Ok(render_feed(cell.peek()))
            }
        },
    }
}

/// The numbers of the cells of `list`, in the order of the list.
pub open spec fn cell_ids(list: Seq<(usize, ReactiveCell<Playlist>)>) -> Seq<int> {
    Seq::new(list.len(), |i: int| list[i].1.id())
}

/// The library entries of the playlists of `list`, in the order of the
/// list, each under the identifier that the list gives it.
pub open spec fn library_of(list: Seq<(usize, ReactiveCell<Playlist>)>) -> Seq<LibraryEntryView> {
    Seq::new(list.len(), |i: int| entry_of(list[i].0 as int, list[i].1.value()@))
}

/// Renders the library panel in `scope`: one entry for each playlist of the
/// context, in the order of the list. The scope is subscribed to the cell
/// of every playlist.
pub fn library_view(runtime: &mut Runtime, scope: usize, context: &Registry<Shared>) -> (shown:
    Result<Vec<LibraryEntry>, MissingContext>)
    requires
        old(runtime).wf(),
    ensures
        final(runtime).wf(),
        match provided_playlists(context@) {
            Some(list) => {
                &&& shown is Ok
                &&& entry_views(shown->Ok_0@) == library_of(list)
                &&& final(runtime)@ == rendered(old(runtime)@, scope, cell_ids(list))
            },
            None => {
                &&& shown == Err::<Vec<LibraryEntry>, MissingContext>(
                    MissingContext { kind: ContextKind::PlaylistList },
                )
                &&& final(runtime)@ == old(runtime)@
            },
        },
{
    match use_playlists(context) {
        Err(missing) => Err(missing),
        Ok(list) => {
            let live = runtime.begin_render(scope);
            let ghost begun = runtime@;
            let mut entries: Vec<LibraryEntry> = Vec::new();
            let mut i: usize = 0;
            proof {
                assert(cell_ids(list@).take(0) =~= Seq::<int>::empty());
            }
            while i < list.len()
                invariant
                    i <= list.len(),
                    runtime.wf(),
                    entries.len() == i,
                    forall|k: int|
                        0 <= k < i ==> entries[k]@ == entry_of(
                            list[k].0 as int,
                            list[k].1.value()@,
                        ),
                    live ==> runtime@ == begun.after_reads(cell_ids(list@).take(i as int)),
                    !live ==> runtime@ == begun,
                decreases list.len() - i,
            {
                let id = list[i].0;
                let cell = &list[i].1;
                proof {
                    begun.lemma_read_more(cell_ids(list@).take(i as int), cell.id());
                    assert(cell_ids(list@).take(i as int).push(cell.id()) =~= cell_ids(list@).take(
                        i + 1,
                    ));
                }
                if live {
                    entries.push(library_entry(id, runtime.read(cell)));
                } else {
                    entries.push(library_entry(id, cell.peek()));
                }
                i += 1;
            }
            proof {
                assert(cell_ids(list@).take(list.len() as int) =~= cell_ids(list@));
                assert(entry_views(entries@) =~= library_of(list@));
            }
            if live {
                runtime.end_render();
            }
            Ok(entries)
        },
    }
}

/// What the content region is asked to show.
#[derive(Clone, Copy, Debug, PartialEq, Eq, Structural)]
pub enum Content {
    /// The welcome page.
    Home,
    /// The detail view of the playlist with this identifier, which may
    /// name no playlist at all.
    Playlist(usize),
    /// No route accepts the path.
    NotFound,
}

/// What a [`Page`] holds, as texts.
pub enum PageView {
    Home,
    Playlist(PlaylistDetailView),
    NoSelection,
    NotFound,
}

/// What the content region shows.
#[derive(Debug)]
pub enum Page {
    /// The welcome page.
    Home,
    /// One playlist in detail.
    Playlist(PlaylistDetail),
    /// The detail view without a playlist: the identifier names none.
    NoSelection,
    /// The fallback for a path that no route accepts.
    NotFound,
}

impl View for Page {
    type V = PageView;

    open spec fn view(&self) -> PageView {
        match self {
            Page::Home => PageView::Home,
            Page::Playlist(detail) => PageView::Playlist(detail@),
            Page::NoSelection => PageView::NoSelection,
            Page::NotFound => PageView::NotFound,
        }
    }
}

/// The cell of the playlist that the identifier `id` selects in `list`:
/// the one at that place, if the detail view is loaded with it.
pub open spec fn selected(list: Seq<(usize, ReactiveCell<Playlist>)>, id: usize) -> Option<
    ReactiveCell<Playlist>,
> {
    match selection_of(id, list.len()) {
        Selection::Loaded(at) => Some(list[at as int].1),
        Selection::NoSelection => None,
    }
}

/// What the content region shows for `content`, given the playlists of the
/// context and the like flag.
pub open spec fn page_of(
    content: Content,
    list: Seq<(usize, ReactiveCell<Playlist>)>,
    liked: bool,
) -> PageView {
    match content {
        Content::Home => PageView::Home,
        Content::NotFound => PageView::NotFound,
        Content::Playlist(id) => match selected(list, id) {
            Some(cell) => PageView::Playlist(detail_of(cell.value()@, liked)),
            None => PageView::NoSelection,
        },
    }
}

/// The cells that the content region reads for `content`: the cell of the
/// selected playlist and the like flag, or none where no playlist is shown.
pub open spec fn content_reads(
    content: Content,
    list: Seq<(usize, ReactiveCell<Playlist>)>,
    liked: int,
) -> Seq<int> {
    match content {
        Content::Playlist(id) => match selected(list, id) {
            Some(cell) => seq![cell.id(), liked],
            None => Seq::empty(),
        },
        _ => Seq::empty(),
    }
}

/// The context that the content region misses for `content`, if any. The
/// detail view needs the playlists and the feed, whether or not a playlist
/// is selected; the other views need nothing.
pub open spec fn content_misses(content: Content, context: Providers<Shared>) -> Option<
    MissingContext,
> {
    if !(content is Playlist) {
        None
    } else if provided_playlists(context) is None {
        Some(MissingContext { kind: ContextKind::PlaylistList })
    } else if provided_feed(context) is None {
        Some(MissingContext { kind: ContextKind::Feed })
    } else {
        None
    }
}

/// Renders the content region in `scope`. An identifier that names no
/// playlist gives the detail view without a selection. The scope is
/// subscribed to what was read and to nothing it read in an earlier render.
pub fn content_view(
    runtime: &mut Runtime,
    scope: usize,
    context: &Registry<Shared>,
    content: Content,
    liked: &ReactiveCell<bool>,
) -> (shown: Result<Page, MissingContext>)
    requires
        old(runtime).wf(),
    ensures
        final(runtime).wf(),
        match content_misses(content, context@) {
            Some(missing) => {
                &&& shown == Err::<Page, MissingContext>(missing)
                &&& final(runtime)@ == old(runtime)@
            },
            None => {
                let list = match provided_playlists(context@) {
                    Some(list) => list,
                    None => Seq::empty(),
                };
                &&& shown is Ok
                &&& shown->Ok_0@ == page_of(content, list, liked.value())
                &&& final(runtime)@ == rendered(
                    old(runtime)@,
                    scope,
                    content_reads(content, list, liked.id()),
                )
            },
        },
{
    match content {
        Content::Home => {
            if runtime.begin_render(scope) {
                runtime.end_render();
            }
            Ok(Page::Home)
        },
        Content::NotFound => {
            if runtime.begin_render(scope) {
                runtime.end_render();
            }
            Ok(Page::NotFound)
        },
        Content::Playlist(id) => {
            let list = match use_playlists(context) {
                Ok(list) => list,
                Err(missing) => {
                    return Err(missing);
                },
            };
            match use_feed(context) {
                Ok(_) => {},
                Err(missing) => {
                    return Err(missing);
                },
            }
            let live = runtime.begin_render(scope);
            let page = if let Selection::Loaded(at) = select(id, list.len()) {
                let cell = &list[at].1;
                proof {
                    let begun = old(runtime)@.entered(scope);
                    begun.lemma_read_one(cell.id());
                    begun.lemma_read_more(seq![cell.id()], liked.id());
                    assert(seq![cell.id()].push(liked.id()) =~= seq![cell.id(), liked.id()]);
                }
                if live {
                    let playlist = runtime.read(cell);
                    let flag = *runtime.read(liked);
                    Page::Playlist(render_playlist(playlist, flag))
                } else {
                    Page::Playlist(render_playlist(cell.peek(), *liked.peek()))
                }
            } else {
                Page::NoSelection
            };
            if live {
                runtime.end_render();
            }
            Ok(page)
        },
    }
}

} // verus!
