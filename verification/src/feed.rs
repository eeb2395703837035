//! The feed view: what each event of the activity feed is shown as.
//!
//! The view only reads. It maps every event to one item, in the order of
//! the feed, and an item depends on nothing but its event.

use vstd::prelude::*;
use vstd::string::StringExecFns;
use crate::model::{
    event_views, FeedAction, FeedActionView, FeedEvent, FeedEventView, FeedTarget, FeedTargetView,
};

verus! {

/// How a target is described in a feed item.
pub open spec fn target_text(target: FeedTargetView) -> Seq<char> {
    match target {
        FeedTargetView::Playlist { title, author } => "playlist "@ + title + " by "@ + author,
        FeedTargetView::Album(name) => "album "@ + name,
        FeedTargetView::Nothing => Seq::empty(),
    }
}

/// What a [`FeedItem`] holds, as texts.
pub struct FeedItemView {
    pub actor: Seq<char>,
    pub action: Seq<char>,
    pub target: Option<Seq<char>>,
    pub comment: Option<Seq<char>>,
}

impl FeedItemView {
    /// The text of the whole item: its parts one after the other.
    pub open spec fn text(self) -> Seq<char> {
        self.actor + self.action + (match self.target {
            Some(target) => target,
            None => Seq::empty(),
        }) + (match self.comment {
            Some(comment) => comment,
            None => Seq::empty(),
        })
    }
}

/// One rendered feed event: who, did what, to what, and the words of a
/// comment below it.
#[derive(Debug)]
pub struct FeedItem {
    pub actor: String,
    pub action: String,
    pub target: Option<String>,
    pub comment: Option<String>,
}

impl View for FeedItem {
    type V = FeedItemView;

    open spec fn view(&self) -> FeedItemView {
        FeedItemView {
            actor: self.actor@,
            action: self.action@,
            target: match self.target {
                Some(target) => Some(target@),
                None => None,
            },
            comment: match self.comment {
                Some(comment) => Some(comment@),
                None => None,
            },
        }
    }
}

/// The item that shows `event`. A like and a comment name their target, a
/// comment is followed by its words, and a friend request names no target
/// whatever the event carries.
pub open spec fn item_of(event: FeedEventView) -> FeedItemView {
    match event.action {
        FeedActionView::Like => FeedItemView {
            actor: event.actor,
            action: " liked "@,
            target: Some(target_text(event.target)),
            comment: None,
        },
        FeedActionView::Comment(words) => FeedItemView {
            actor: event.actor,
            action: " commented on "@,
            target: Some(target_text(event.target) + ":"@),
            comment: Some(words),
        },
        FeedActionView::FriendRequest => FeedItemView {
            actor: event.actor,
            action: " sent you a friend request!"@,
            target: None,
            comment: None,
        },
    }
}

/// The items that show `events`: one for each event, in the same order.
pub open spec fn items_of(events: Seq<FeedEventView>) -> Seq<FeedItemView> {
    Seq::new(events.len(), |i: int| item_of(events[i]))
}

/// The views of a sequence of items, in the same order.
pub open spec fn item_views(items: Seq<FeedItem>) -> Seq<FeedItemView> {
    Seq::new(items.len(), |i: int| items[i]@)
}

/// How `target` is described in a feed item.
pub fn describe_target(target: &FeedTarget) -> (text: String)
    ensures
        text@ == target_text(target@),
{
    match target {
        FeedTarget::Playlist { title, author } => {
            let mut text = String::from_str("playlist ");
            text.append(title.as_str());
            text.append(" by ");
            text.append(author.as_str());
            text
        },
        FeedTarget::Album(name) => {
            let mut text = String::from_str("album ");
            text.append(name.as_str());
            text
        },
        FeedTarget::Nothing => String::new(),
    }
}

/// The item that shows `event`.
pub fn render_event(event: &FeedEvent) -> (item: FeedItem)
    ensures
        item@ == item_of(event@),
{
    match &event.action {
        FeedAction::Like => FeedItem {
            actor: event.actor.clone(),
            action: String::from_str(" liked "),
            target: Some(describe_target(&event.target)),
            comment: None,
        },
        FeedAction::Comment(words) => {
            let mut target = describe_target(&event.target);
            target.append(":");
            FeedItem {
                actor: event.actor.clone(),
                action: String::from_str(" commented on "),
                target: Some(target),
                comment: Some(words.clone()),
            }
        },
        FeedAction::FriendRequest => FeedItem {
            actor: event.actor.clone(),
            action: String::from_str(" sent you a friend request!"),
            target: None,
            comment: None,
        },
    }
}

/// The items that show `events`: one for each event, in the same order.
/// The same events always give the same items.
pub fn render_feed(events: &Vec<FeedEvent>) -> (items: Vec<FeedItem>)
    ensures
        item_views(items@) == items_of(event_views(events@)),
{
    let mut items: Vec<FeedItem> = Vec::new();
    let mut i: usize = 0;
    while i < events.len()
        invariant
            i <= events.len(),
            items.len() == i,
            forall|k: int| 0 <= k < i ==> items[k]@ == item_of(events[k]@),
        decreases events.len() - i,
    {
        items.push(render_event(&events[i]));
        i += 1;
    }
    assert(item_views(items@) =~= items_of(event_views(events@)));
    items
}

impl FeedItem {
    /// The text of the whole item: its parts one after the other.
    pub fn text(&self) -> (text: String)
        ensures
            text@ == self@.text(),
    {
        let mut text = self.actor.clone();
        text.append(self.action.as_str());
        match &self.target {
            Some(target) => {
                text.append(target.as_str());
            },
            None => {
                assert(text@ + Seq::<char>::empty() =~= text@);
            },
        }
        match &self.comment {
            Some(comment) => {
                text.append(comment.as_str());
            },
            None => {
                assert(text@ + Seq::<char>::empty() =~= text@);
            },
        }
        text
    }
}

} // verus!
