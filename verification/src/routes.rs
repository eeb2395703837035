//! The routes of the page: `/` for the welcome page and `/playlists/:id`
//! for the detail view, and what the content region is asked to show for a
//! path.

use vstd::prelude::*;
use vstd::string::StringExecFns;
use crate::playlist::link_to;
use crate::router::{
    bound_params, first_accepting, lemma_split_append, lemma_split_plain, pair_texts, param,
    param_value, path_pieces, pattern_accepts, resolution, segment_accepts, split, Route,
    RoutePattern, RouteView, Router, Segment, SegmentView, ViewKind,
};
use crate::text::{decimal, lemma_decimal_spells, parse_index, spelled_number};
use crate::views::Content;

verus! {

/// The route table of the page, in the order of declaration.
pub open spec fn jukebox_routes() -> Seq<RouteView> {
    seq![
        RouteView { pattern: Seq::empty(), view: ViewKind::Home },
        RouteView {
            pattern: seq![SegmentView::Literal("playlists"@), SegmentView::Param("id"@)],
            view: ViewKind::Playlist,
        },
    ]
}

/// The route table of the page.
pub fn jukebox_router() -> (router: Router)
    ensures
        router@ == jukebox_routes(),
{
    let home = Route { pattern: RoutePattern { segments: Vec::new() }, view: ViewKind::Home };
    let mut segments: Vec<Segment> = Vec::new();
    segments.push(Segment::Literal(String::from_str("playlists")));
    segments.push(Segment::Param(String::from_str("id")));
    let detail = Route { pattern: RoutePattern { segments }, view: ViewKind::Playlist };
    let mut routes: Vec<Route> = Vec::new();
    routes.push(home);
    routes.push(detail);
    let router = Router { routes };
    proof {
        assert(router@[0].pattern =~= jukebox_routes()[0].pattern);
        assert(router@[1].pattern =~= jukebox_routes()[1].pattern);
        assert(router@ =~= jukebox_routes());
    }
    router
}

/// The playlist identifier that the parameters name: the number that the
/// parameter `id` spells, or `usize::MAX`, which names no playlist, if
/// there is no such parameter or it spells no number that fits.
pub open spec fn id_of(params: Seq<(Seq<char>, Seq<char>)>) -> usize {
    match param_value(params, "id"@) {
        Some(text) => match spelled_number(text) {
            Some(n) => if n <= usize::MAX {
                n as usize
            } else {
                usize::MAX
            },
            None => usize::MAX,
        },
        None => usize::MAX,
    }
}

/// The playlist identifier that `params` name. A parameter that cannot be
/// read as a number does not fail: it gives `usize::MAX`, which the detail
/// view shows as no selection.
pub fn playlist_id(params: &Vec<(String, String)>) -> (id: usize)
    ensures
        id == id_of(pair_texts(params@)),
{
    match param(params, "id") {
        Some(text) => match parse_index(text.as_str()) {
            Some(id) => id,
            None => usize::MAX,
        },
        None => usize::MAX,
    }
}

/// What the content region is asked to show for `path` under the table
/// `routes`: the view of the route that the path resolves to, or the
/// fallback if it resolves to none.
pub open spec fn content_of(routes: Seq<RouteView>, path: Seq<char>) -> Content {
    match resolution(routes, path) {
        None => Content::NotFound,
        Some(found) => match found.view {
            ViewKind::Home => Content::Home,
            ViewKind::Playlist => Content::Playlist(id_of(found.params)),
        },
    }
}

/// What the content region is asked to show for `path`.
pub fn content_for(router: &Router, path: &str) -> (content: Content)
    ensures
        content == content_of(router@, path@),
{
    match router.resolve(path) {
        None => Content::NotFound,
        Some(found) => match found.view {
            ViewKind::Home => Content::Home,
            ViewKind::Playlist => Content::Playlist(playlist_id(&found.params)),
        },
    }
}

/// The link of a library entry leads to its playlist: for every
/// identifier, the link to it resolves to the detail view with that
/// identifier.
pub proof fn law_link_resolves(index: usize)
    ensures
        content_of(jukebox_routes(), link_to(index as nat)) == Content::Playlist(index),
{
    reveal_strlit("/playlists/");
    reveal_strlit("playlists");
    reveal_strlit("id");
    let digits = decimal(index as nat);
    lemma_decimal_spells(index as nat);
    let path = link_to(index as nat);
    let head = "playlists"@;
    assert(path.len() == 11 + digits.len());
    assert(path[0] == '/');
    assert(path.last() == digits.last());
    assert(digits[digits.len() - 1] != '/');
    let body = path.subrange(1, path.len() as int);
    assert(body =~= head + seq!['/'] + digits);
    lemma_split_append(head, digits);
    lemma_split_plain(head);
    let pieces = seq![head, digits];
    assert(split(body) =~= pieces);
    assert(path_pieces(path) == Some(pieces));
    let routes = jukebox_routes();
    assert(!pattern_accepts(routes[0].pattern, pieces));
    assert(pattern_accepts(routes[1].pattern, pieces)) by {
        assert forall|i: int| 0 <= i < routes[1].pattern.len() implies segment_accepts(
            #[trigger] routes[1].pattern[i],
            pieces[i],
        ) by {
            if i == 0 {
            } else {
                assert(i == 1);
            }
        }
    }
    assert(first_accepting(routes, pieces, 1) == Some(1int));
    assert(first_accepting(routes, pieces, 0) == Some(1int));
    let pattern = routes[1].pattern;
    assert(pattern.drop_last() =~= seq![SegmentView::Literal(head)]);
    assert(pieces.drop_last() =~= seq![head]);
    assert(pattern.drop_last().drop_last() =~= Seq::<SegmentView>::empty());
    assert(bound_params(pattern.drop_last().drop_last(), pieces.drop_last().drop_last())
        =~= Seq::<(Seq<char>, Seq<char>)>::empty());
    assert(bound_params(pattern.drop_last(), pieces.drop_last()) =~= Seq::<
        (Seq<char>, Seq<char>),
    >::empty());
    let params = seq![("id"@, digits)];
    assert(bound_params(pattern, pieces) =~= params);
    assert(param_value(params, "id"@) == Some(digits));
}

/// The path `/` shows the welcome page.
pub proof fn law_root_is_home()
    ensures
        content_of(jukebox_routes(), "/"@) == Content::Home,
{
    reveal_strlit("/");
    let pieces = Seq::<Seq<char>>::empty();
    assert(path_pieces("/"@) == Some(pieces));
    assert(pattern_accepts(jukebox_routes()[0].pattern, pieces));
}

/// Parameters without an `id`, or with an `id` that spells no number, ask
/// for the identifier that names no playlist: they never fail.
pub proof fn law_unreadable_id_selects_nothing(params: Seq<(Seq<char>, Seq<char>)>)
    requires
        param_value(params, "id"@) is None || spelled_number(param_value(params, "id"@)->0) is None,
    ensures
        id_of(params) == usize::MAX,
{
}

} // verus!
