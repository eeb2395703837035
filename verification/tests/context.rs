use jukeboxd::context::{ContextKind, MissingContext, Registry};

#[test]
fn lookup_without_provider_is_missing_context() {
    let registry: Registry<u32> = Registry::new();
    assert_eq!(
        registry.lookup(ContextKind::Feed),
        Err(MissingContext { kind: ContextKind::Feed })
    );
    assert_eq!(
        registry.lookup(ContextKind::PlaylistList),
        Err(MissingContext { kind: ContextKind::PlaylistList })
    );
}

#[test]
fn lookup_finds_what_was_provided_by_kind() {
    let mut registry: Registry<&str> = Registry::new();
    registry.provide(ContextKind::PlaylistList, "playlists");
    assert_eq!(registry.lookup(ContextKind::PlaylistList), Ok(&"playlists"));
    assert_eq!(
        registry.lookup(ContextKind::Feed),
        Err(MissingContext { kind: ContextKind::Feed })
    );
    registry.provide(ContextKind::Feed, "feed");
    assert_eq!(registry.lookup(ContextKind::PlaylistList), Ok(&"playlists"));
    assert_eq!(registry.lookup(ContextKind::Feed), Ok(&"feed"));
}

#[test]
fn nearest_provider_wins_and_ends_with_its_component() {
    let mut registry: Registry<u32> = Registry::new();
    registry.enter();
    registry.provide(ContextKind::Feed, 1);
    registry.enter();
    registry.provide(ContextKind::Feed, 2);
    registry.provide(ContextKind::PlaylistList, 3);
    assert_eq!(registry.lookup(ContextKind::Feed), Ok(&2));
    assert_eq!(registry.lookup(ContextKind::PlaylistList), Ok(&3));
    registry.leave();
    assert_eq!(registry.lookup(ContextKind::Feed), Ok(&1));
    assert_eq!(
        registry.lookup(ContextKind::PlaylistList),
        Err(MissingContext { kind: ContextKind::PlaylistList })
    );
    registry.leave();
    assert_eq!(
        registry.lookup(ContextKind::Feed),
        Err(MissingContext { kind: ContextKind::Feed })
    );
    registry.leave();
    assert_eq!(
        registry.lookup(ContextKind::Feed),
        Err(MissingContext { kind: ContextKind::Feed })
    );
}

#[test]
fn what_is_provided_outside_any_component_stays() {
    let mut registry: Registry<u32> = Registry::new();
    registry.provide(ContextKind::Feed, 1);
    registry.leave();
    assert_eq!(registry.lookup(ContextKind::Feed), Ok(&1));
}

#[test]
fn a_value_can_be_changed_in_place() {
    let mut registry: Registry<Vec<u8>> = Registry::new();
    registry.provide(ContextKind::Feed, vec![1]);
    registry.provide(ContextKind::PlaylistList, vec![9]);
    registry.enter();
    registry.provide(ContextKind::Feed, vec![2]);
    registry.lookup_mut(ContextKind::Feed).unwrap().push(3);
    assert_eq!(registry.lookup(ContextKind::Feed), Ok(&vec![2, 3]));
    assert_eq!(registry.lookup(ContextKind::PlaylistList), Ok(&vec![9]));
    registry.leave();
    assert_eq!(registry.lookup(ContextKind::Feed), Ok(&vec![1]));
    let mut empty: Registry<u8> = Registry::new();
    assert_eq!(
        empty.lookup_mut(ContextKind::Feed),
        Err(MissingContext { kind: ContextKind::Feed })
    );
}
