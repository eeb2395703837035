//! The router: which view a path selects, and with which parameters.
//!
//! A path is cut into pieces at its slashes. A route pattern is a list of
//! segments, each a literal text or a named parameter, and it accepts a path
//! that has as many pieces as the pattern has segments, none of them empty,
//! with every literal met exactly. Of the routes of a table the first that
//! accepts the path wins.

use vstd::prelude::*;
use vstd::string::StrSliceExecFns;
use vstd::string::StringExecFns;

verus! {

/// The pieces of `text` between its slashes, in order. A text without a
/// slash is one piece, and two slashes in a row have an empty piece
/// between them.
pub open spec fn split(text: Seq<char>) -> Seq<Seq<char>>
    decreases text.len(),
{
    if text.len() == 0 {
        seq![Seq::empty()]
    } else {
        let front = split(text.drop_last());
        if text.last() == '/' {
            front.push(Seq::empty())
        } else {
            front.drop_last().push(front.last().push(text.last()))
        }
    }
}

/// A text without a slash is its own single piece.
pub proof fn lemma_split_plain(text: Seq<char>)
    requires
        forall|i: int| 0 <= i < text.len() ==> text[i] != '/',
    ensures
        split(text) == seq![text],
    decreases text.len(),
{
    if text.len() == 0 {
        assert(text =~= Seq::<char>::empty());
    } else {
        let front = text.drop_last();
        assert forall|i: int| 0 <= i < front.len() implies front[i] != '/' by {
            assert(front[i] == text[i]);
        }
        lemma_split_plain(front);
        assert(text[text.len() - 1] != '/');
        assert(front.push(text.last()) =~= text);
        assert(split(front).last() == front);
        assert(split(front).drop_last().push(text) =~= seq![text]);
    }
}

/// The pieces of a text that ends with a slash and a text without slashes:
/// the pieces of what is before that slash, and the last text.
pub proof fn lemma_split_append(head: Seq<char>, tail: Seq<char>)
    requires
        forall|i: int| 0 <= i < tail.len() ==> tail[i] != '/',
    ensures
        split(head + seq!['/'] + tail) == split(head).push(tail),
    decreases tail.len(),
{
    let whole = head + seq!['/'] + tail;
    if tail.len() == 0 {
        assert(whole.drop_last() =~= head);
        assert(tail =~= Seq::<char>::empty());
    } else {
        let front = tail.drop_last();
        assert forall|i: int| 0 <= i < front.len() implies front[i] != '/' by {
            assert(front[i] == tail[i]);
        }
        lemma_split_append(head, front);
        assert(whole.drop_last() =~= head + seq!['/'] + front);
        assert(whole.last() == tail.last());
        assert(tail[tail.len() - 1] != '/');
        assert(front.push(tail.last()) =~= tail);
        assert(split(head).push(front).drop_last() =~= split(head));
    }
}

/// The pieces of a path. A path begins with a slash, and one slash at its
/// end is passed over; `/` alone has no piece. A text that does not begin
/// with a slash is no path.
pub open spec fn path_pieces(path: Seq<char>) -> Option<Seq<Seq<char>>> {
    if path.len() == 0 || path[0] != '/' {
        None
    } else if path.len() == 1 {
        Some(Seq::empty())
    } else if path.last() == '/' {
        Some(split(path.subrange(1, path.len() - 1)))
    } else {
        Some(split(path.subrange(1, path.len() as int)))
    }
}

/// The texts of a sequence of strings, in the same order.
pub open spec fn texts(strings: Seq<String>) -> Seq<Seq<char>> {
    Seq::new(strings.len(), |i: int| strings[i]@)
}

/// What a [`Segment`] holds.
pub enum SegmentView {
    Literal(Seq<char>),
    Param(Seq<char>),
}

/// One segment of a route pattern.
#[derive(Debug)]
pub enum Segment {
    /// A text that the piece of the path has to equal.
    Literal(String),
    /// A parameter: any piece that is not empty, bound to this name.
    Param(String),
}

impl View for Segment {
    type V = SegmentView;

    open spec fn view(&self) -> SegmentView {
        match self {
            Segment::Literal(text) => SegmentView::Literal(text@),
            Segment::Param(name) => SegmentView::Param(name@),
        }
    }
}

/// Whether `segment` accepts `piece`: the piece is not empty, and a literal
/// is met exactly.
pub open spec fn segment_accepts(segment: SegmentView, piece: Seq<char>) -> bool {
    piece.len() > 0 && match segment {
        SegmentView::Literal(text) => piece == text,
        SegmentView::Param(_) => true,
    }
}

/// Whether `pattern` accepts `pieces`: as many pieces as segments, and
/// every segment accepts its piece.
pub open spec fn pattern_accepts(pattern: Seq<SegmentView>, pieces: Seq<Seq<char>>) -> bool {
    &&& pattern.len() == pieces.len()
    &&& forall|i: int| 0 <= i < pattern.len() ==> segment_accepts(#[trigger] pattern[i], pieces[i])
}

/// The parameters that `pattern` binds in `pieces`: for each parameter
/// segment, in order, its name and the piece at its place.
pub open spec fn bound_params(pattern: Seq<SegmentView>, pieces: Seq<Seq<char>>) -> Seq<
    (Seq<char>, Seq<char>),
>
    decreases pattern.len(),
{
    if pattern.len() == 0 || pieces.len() != pattern.len() {
        Seq::empty()
    } else {
        let front = bound_params(pattern.drop_last(), pieces.drop_last());
        match pattern.last() {
            SegmentView::Param(name) => front.push((name, pieces.last())),
            SegmentView::Literal(_) => front,
        }
    }
}

/// The segment that the piece `piece` of a template stands for: a
/// parameter named by what follows a leading colon, else a literal.
pub open spec fn segment_of(piece: Seq<char>) -> SegmentView {
    if piece.len() > 0 && piece[0] == ':' {
        SegmentView::Param(piece.subrange(1, piece.len() as int))
    } else {
        SegmentView::Literal(piece)
    }
}

/// The pattern that a template stands for, if the template is a path.
pub open spec fn pattern_of(template: Seq<char>) -> Option<Seq<SegmentView>> {
    match path_pieces(template) {
        Some(pieces) => Some(Seq::new(pieces.len(), |i: int| segment_of(pieces[i]))),
        None => None,
    }
}

/// The names and values of a sequence of pairs, as texts.
pub open spec fn pair_texts(pairs: Seq<(String, String)>) -> Seq<(Seq<char>, Seq<char>)> {
    Seq::new(pairs.len(), |i: int| (pairs[i].0@, pairs[i].1@))
}

/// The pieces of `text` between its slashes.
fn split_text(text: &str) -> (pieces: Vec<String>)
    ensures
        texts(pieces@) == split(text@),
{
    let len = text.unicode_len();
    let mut pieces: Vec<String> = Vec::new();
    let mut start: usize = 0;
    let mut i: usize = 0;
    proof {
        assert(text@.take(0) =~= Seq::<char>::empty());
        assert(texts(pieces@).push(text@.subrange(0, 0)) =~= seq![Seq::<char>::empty()]);
    }
    while i < len
        invariant
            start <= i <= len,
            len == text@.len(),
            split(text@.take(i as int)) == texts(pieces@).push(
                text@.subrange(start as int, i as int),
            ),
        decreases len - i,
    {
        let c = text.get_char(i);
        let ghost before = texts(pieces@);
        let ghost open_piece = text@.subrange(start as int, i as int);
        proof {
            assert(text@.take(i + 1).drop_last() =~= text@.take(i as int));
            assert(text@.take(i + 1).last() == c);
        }
        if c == '/' {
            pieces.push(String::from_str(text.substring_char(start, i)));
            start = i + 1;
            proof {
                assert(texts(pieces@) =~= before.push(open_piece));
                assert(text@.subrange(start as int, i + 1) =~= Seq::<char>::empty());
            }
        } else {
            proof {
                assert(before.push(open_piece).drop_last() =~= before);
                assert(open_piece.push(c) =~= text@.subrange(start as int, i + 1));
            }
        }
        i += 1;
    }
    pieces.push(String::from_str(text.substring_char(start, len)));
    proof {
        assert(text@.take(len as int) =~= text@);
        assert(texts(pieces@) =~= split(text@));
    }
    pieces
}

/// The pieces of `path`, or `None` if it does not begin with a slash.
pub fn pieces_of(path: &str) -> (pieces: Option<Vec<String>>)
    ensures
        match pieces {
            Some(list) => path_pieces(path@) == Some(texts(list@)),
            None => path_pieces(path@) is None,
        },
{
    let len = path.unicode_len();
    if len == 0 || path.get_char(0) != '/' {
        return None;
    }
    if len == 1 {
        let list: Vec<String> = Vec::new();
        assert(texts(list@) =~= Seq::<Seq<char>>::empty());
        return Some(list);
    }
    let end = if path.get_char(len - 1) == '/' {
        len - 1
    } else {
        len
    };
    Some(split_text(path.substring_char(1, end)))
}

/// A path template: the segments that a path has to meet, in order.
#[derive(Debug)]
pub struct RoutePattern {
    pub segments: Vec<Segment>,
}

impl View for RoutePattern {
    type V = Seq<SegmentView>;

    open spec fn view(&self) -> Seq<SegmentView> {
        Seq::new(self.segments.len() as nat, |i: int| self.segments[i]@)
    }
}

impl RoutePattern {
    /// The pattern that `template` stands for, such as `/playlists/:id`: a
    /// piece that begins with a colon is a parameter of that name, any
    /// other piece a literal. `None` for a template that does not begin
    /// with a slash.
    pub fn parse(template: &str) -> (pattern: Option<RoutePattern>)
        ensures
            match pattern {
                Some(p) => pattern_of(template@) == Some(p@),
                None => pattern_of(template@) is None,
            },
    {
        match pieces_of(template) {
            None => None,
            Some(pieces) => {
                let mut segments: Vec<Segment> = Vec::new();
                let mut i: usize = 0;
                while i < pieces.len()
                    invariant
                        i <= pieces.len(),
                        segments.len() == i,
                        forall|k: int| 0 <= k < i ==> segments[k]@ == segment_of(pieces[k]@),
                    decreases pieces.len() - i,
                {
                    let piece = pieces[i].as_str();
                    let len = piece.unicode_len();
                    if len > 0 && piece.get_char(0) == ':' {
                        segments.push(
                            Segment::Param(String::from_str(piece.substring_char(1, len))),
                        );
                    } else {
                        segments.push(Segment::Literal(String::from_str(piece)));
                    }
                    i += 1;
                }
                let pattern = RoutePattern { segments };
                assert(pattern@ =~= Seq::new(
                    texts(pieces@).len(),
                    |i: int| segment_of(texts(pieces@)[i]),
                ));
                Some(pattern)
            },
        }
    }

    /// Whether the pattern accepts `pieces`.
    pub fn accepts(&self, pieces: &Vec<String>) -> (yes: bool)
        ensures
            yes == pattern_accepts(self@, texts(pieces@)),
    {
        if self.segments.len() != pieces.len() {
            return false;
        }
        let mut i: usize = 0;
        while i < pieces.len()
            invariant
                i <= pieces.len(),
                self.segments.len() == pieces.len(),
                forall|k: int| 0 <= k < i
                    ==> segment_accepts(#[trigger] self@[k], texts(pieces@)[k]),
            decreases pieces.len() - i,
        {
            let piece = &pieces[i];
            let met = !piece.as_str().is_empty() && match &self.segments[i] {
                Segment::Literal(text) => *piece == *text,
                Segment::Param(_) => true,
            };
            if !met {
                assert(!segment_accepts(self@[i as int], texts(pieces@)[i as int]));
                return false;
            }
            i += 1;
        }
        true
    }

    /// The parameters that the pattern binds in `pieces`, in the order of
    /// the pattern. A pattern with another number of segments binds none.
    pub fn bind(&self, pieces: &Vec<String>) -> (params: Vec<(String, String)>)
        ensures
            pair_texts(params@) == bound_params(self@, texts(pieces@)),
    {
        let mut params: Vec<(String, String)> = Vec::new();
        if self.segments.len() != pieces.len() {
            assert(pair_texts(params@) =~= Seq::empty());
            return params;
        }
        let mut i: usize = 0;
        proof {
            assert(self@.take(0) =~= Seq::empty());
            assert(pair_texts(params@) =~= Seq::empty());
        }
        while i < pieces.len()
            invariant
                i <= pieces.len(),
                self.segments.len() == pieces.len(),
                pair_texts(params@) == bound_params(
                    self@.take(i as int),
                    texts(pieces@).take(i as int),
                ),
            decreases pieces.len() - i,
        {
            let ghost before = pair_texts(params@);
            proof {
                assert(self@.take(i + 1).drop_last() =~= self@.take(i as int));
                assert(texts(pieces@).take(i + 1).drop_last() =~= texts(pieces@).take(i as int));
                assert(self@.take(i + 1).last() == self.segments[i as int]@);
                assert(texts(pieces@).take(i + 1).last() == pieces[i as int]@);
            }
            match &self.segments[i] {
                Segment::Param(name) => {
                    params.push((name.clone(), pieces[i].clone()));
                    assert(pair_texts(params@) =~= before.push((name@, pieces[i as int]@)));
                },
                Segment::Literal(_) => {},
            }
            i += 1;
        }
        proof {
            assert(self@.take(pieces.len() as int) =~= self@);
            assert(texts(pieces@).take(pieces.len() as int) =~= texts(pieces@));
        }
        params
    }
}

/// The views that a route can select.
#[derive(Clone, Copy, Debug, PartialEq, Eq, Structural)]
pub enum ViewKind {
    /// The welcome page.
    Home,
    /// The detail view of one playlist, named by the parameter `id`.
    Playlist,
}

/// What a [`Route`] holds.
pub struct RouteView {
    pub pattern: Seq<SegmentView>,
    pub view: ViewKind,
}

/// One entry of the route table: a pattern and the view that it selects.
#[derive(Debug)]
pub struct Route {
    pub pattern: RoutePattern,
    pub view: ViewKind,
}

impl View for Route {
    type V = RouteView;

    open spec fn view(&self) -> RouteView {
        RouteView { pattern: self.pattern@, view: self.view }
    }
}

/// What a path was resolved to, as texts.
pub struct ResolvedView {
    pub view: ViewKind,
    pub params: Seq<(Seq<char>, Seq<char>)>,
}

/// What a path was resolved to: the view to show and the parameters
/// taken from the path, as names and values.
#[derive(Debug)]
pub struct Resolved {
    pub view: ViewKind,
    pub params: Vec<(String, String)>,
}

impl View for Resolved {
    type V = ResolvedView;

    open spec fn view(&self) -> ResolvedView {
        ResolvedView { view: self.view, params: pair_texts(self.params@) }
    }
}

/// The place of the first route from `from` on that accepts `pieces`.
pub open spec fn first_accepting(routes: Seq<RouteView>, pieces: Seq<Seq<char>>, from: int)
    -> Option<
    int,
>
    decreases routes.len() - from,
{
    if from < 0 || from >= routes.len() {
        None
    } else if pattern_accepts(routes[from].pattern, pieces) {
        Some(from)
    } else {
        first_accepting(routes, pieces, from + 1)
    }
}

/// What `path` resolves to in the table `routes`: the view of the first
/// route that accepts its pieces, with the parameters that this route
/// binds. `None` if `path` is no path or no route accepts it.
pub open spec fn resolution(routes: Seq<RouteView>, path: Seq<char>) -> Option<ResolvedView> {
    match path_pieces(path) {
        None => None,
        Some(pieces) => match first_accepting(routes, pieces, 0) {
            None => None,
            Some(at) => Some(
                ResolvedView {
                    view: routes[at].view,
                    params: bound_params(routes[at].pattern, pieces),
                },
            ),
        },
    }
}

/// The first match wins: the route found accepts the pieces and no route
/// before it does, and where none is found no route accepts them.
pub proof fn law_first_match_wins(routes: Seq<RouteView>, pieces: Seq<Seq<char>>, from: int)
    requires
        0 <= from,
    ensures
        match first_accepting(routes, pieces, from) {
            Some(at) => {
                &&& from <= at < routes.len()
                &&& pattern_accepts(routes[at].pattern, pieces)
                &&& forall|k: int| from <= k < at ==> !pattern_accepts(routes[k].pattern, pieces)
            },
            None => forall|k: int|
                from <= k < routes.len() ==> !pattern_accepts(routes[k].pattern, pieces),
        },
    decreases routes.len() - from,
{
    if from < routes.len() && !pattern_accepts(routes[from].pattern, pieces) {
        law_first_match_wins(routes, pieces, from + 1);
    }
}

/// The value of the first parameter named `name`.
pub open spec fn param_value(params: Seq<(Seq<char>, Seq<char>)>, name: Seq<char>) -> Option<
    Seq<char>,
>
    decreases params.len(),
{
    if params.len() == 0 {
        None
    } else if params[0].0 == name {
        Some(params[0].1)
    } else {
        param_value(params.drop_first(), name)
    }
}

/// The value of the first parameter named `name`, if there is one.
pub fn param<'a>(params: &'a Vec<(String, String)>, name: &str) -> (value: Option<&'a String>)
    ensures
        match value {
            Some(text) => param_value(pair_texts(params@), name@) == Some(text@),
            None => param_value(pair_texts(params@), name@) is None,
        },
{
    let wanted = String::from_str(name);
    let mut i: usize = 0;
    proof {
        assert(pair_texts(params@).skip(0) =~= pair_texts(params@));
    }
    while i < params.len()
        invariant
            i <= params.len(),
            wanted@ == name@,
            param_value(pair_texts(params@), name@) == param_value(
                pair_texts(params@).skip(i as int),
                name@,
            ),
        decreases params.len() - i,
    {
        proof {
            let rest = pair_texts(params@).skip(i as int);
            assert(rest[0] == (params[i as int].0@, params[i as int].1@));
            assert(rest.drop_first() =~= pair_texts(params@).skip(i + 1));
        }
        if params[i].0 == wanted {
            return Some(&params[i].1);
        }
        i += 1;
    }
    None
}

/// The route table: its entries in the order of their declaration.
#[derive(Debug)]
pub struct Router {
    pub routes: Vec<Route>,
}

impl View for Router {
    type V = Seq<RouteView>;

    open spec fn view(&self) -> Seq<RouteView> {
        Seq::new(self.routes.len() as nat, |i: int| self.routes[i]@)
    }
}

impl Router {
    /// A table without routes: it resolves no path.
    pub fn new() -> (router: Router)
        ensures
            router@ == Seq::<RouteView>::empty(),
    {
        let router = Router { routes: Vec::new() };
        assert(router@ =~= Seq::<RouteView>::empty());
        router
    }

    /// Declares one more route, behind those declared before. A template
    /// that does not begin with a slash declares nothing, and `false` says
    /// so.
    pub fn route(&mut self, template: &str, view: ViewKind) -> (declared: bool)
        ensures
            match pattern_of(template@) {
                Some(pattern) => declared && final(self)@ == old(self)@.push(
                    RouteView { pattern, view },
                ),
                None => !declared && final(self)@ == old(self)@,
            },
    {
        match RoutePattern::parse(template) {
            Some(pattern) => {
                self.routes.push(Route { pattern, view });
                assert(self@ =~= old(self)@.push(RouteView { pattern: pattern@, view }));
                true
            },
            None => false,
        }
    }

    /// Resolves `path`: the view of the first route, in the order of
    /// declaration, whose pattern accepts the path, and the parameters that
    /// it binds. `None` if no route accepts the path.
    pub fn resolve(&self, path: &str) -> (resolved: Option<Resolved>)
        ensures
            match resolved {
                Some(found) => resolution(self@, path@) == Some(found@),
                None => resolution(self@, path@) is None,
            },
    {
        match pieces_of(path) {
            None => None,
            Some(pieces) => {
                let mut i: usize = 0;
                while i < self.routes.len()
                    invariant
                        i <= self.routes.len(),
                        path_pieces(path@) == Some(texts(pieces@)),
                        first_accepting(self@, texts(pieces@), 0) == first_accepting(
                            self@,
                            texts(pieces@),
                            i as int,
                        ),
                    decreases self.routes.len() - i,
                {
                    assert(self@[i as int] == self.routes[i as int]@);
                    if self.routes[i].pattern.accepts(&pieces) {
                        let params = self.routes[i].pattern.bind(&pieces);
                        let found = Resolved { view: self.routes[i].view, params };
                        assert(first_accepting(self@, texts(pieces@), i as int) == Some(i as int));
                        assert(resolution(self@, path@) == Some(found@));
                        return Some(found);
                    }
                    i += 1;
                }
                None
            },
        }
    }
}

} // verus!
