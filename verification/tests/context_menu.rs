use ducktape::context_menu::{
    open_request, overlay_action, AnchorSource, ContextMenuEvent, ContextMenuIds, ContextRequest,
    OverlayAction, OverlayPress,
};
use ducktape::menu::{MenuEntry, MenuEvent, MenuItem, MenuState};
use ducktape::popover::DismissReason;

#[derive(Debug, Clone, Copy, PartialEq)]
struct Point {
    x: f32,
    y: f32,
}

#[derive(Debug, Clone, Copy, PartialEq)]
struct Rect {
    x: f32,
    y: f32,
    width: f32,
    height: f32,
}

impl Rect {
    fn contains(self, point: Point) -> bool {
        self.x <= point.x
            && point.x < self.x + self.width
            && self.y <= point.y
            && point.y < self.y + self.height
    }
}

fn press(secondary: bool, point: Point, region: Rect, content: Rect) -> OverlayPress {
    OverlayPress {
        secondary,
        in_content: content.contains(point),
        in_region: region.contains(point),
    }
}

#[test]
fn open_event_preserves_the_exact_context_point() {
    let point = Point { x: 137.25, y: 88.5 };
    let event = ContextMenuEvent::OpenAt(point);
    assert_eq!(event.anchor(None), Some(point));
    assert!(event.open(false));
}

#[test]
fn right_click_reanchors_an_open_menu_inside_its_region() {
    let region = Rect { x: 0.0, y: 0.0, width: 300.0, height: 200.0 };
    let content = Rect { x: 100.0, y: 50.0, width: 120.0, height: 100.0 };
    let inside = Point { x: 40.0, y: 80.0 };
    assert_eq!(
        overlay_action(false, Some(press(true, inside, region, content))),
        Some(OverlayAction::Reanchor)
    );
    let outside = Point { x: 280.0, y: 220.0 };
    assert_eq!(
        overlay_action(false, Some(press(true, outside, region, content))),
        Some(OverlayAction::Close(DismissReason::Outside))
    );
    // A primary press on the region closes; one on the content is left to it.
    assert_eq!(
        overlay_action(false, Some(press(false, inside, region, content))),
        Some(OverlayAction::Close(DismissReason::Outside))
    );
    let on_content = Point { x: 150.0, y: 60.0 };
    assert_eq!(overlay_action(false, Some(press(true, on_content, region, content))), None);
    assert_eq!(overlay_action(true, None), Some(OverlayAction::Close(DismissReason::Escape)));
    assert_eq!(overlay_action(false, None), None);
}

#[test]
fn ids_derive_region_content_and_menu_keys() {
    let ids = ContextMenuIds::new("document");
    assert_eq!(ids.region(), "ducktape-context:document:region");
    assert_eq!(ids.content(), "ducktape-context:document:content");
    assert_eq!(ids.menu, "context:document:menu");
}

#[test]
fn events_open_close_and_hand_focus_back_to_the_region() {
    let entries: Vec<MenuEntry> = vec![
        MenuItem::new("copy", "Copy").disabled(true).into(),
        MenuItem::new("paste", "Paste").into(),
    ];
    let state = MenuState::initial(&entries);
    let ids = ContextMenuIds::new("document");
    let open: ContextMenuEvent<Point> = ContextMenuEvent::OpenAt(Point { x: 1.0, y: 2.0 });
    assert_eq!(
        open.focus_target(&ids, &entries, &state),
        Some("ducktape-menu:context:document:menu:paste".to_string())
    );
    let close: ContextMenuEvent<Point> = ContextMenuEvent::Close(DismissReason::Escape);
    assert!(!close.open(true));
    let anchor = Some(Point { x: 5.0, y: 6.0 });
    assert_eq!(close.anchor(anchor), anchor);
    assert_eq!(
        close.focus_target(&ids, &entries, &state),
        Some("ducktape-context:document:region".to_string())
    );
    let dismiss: ContextMenuEvent<Point> = ContextMenuEvent::Menu(MenuEvent::Dismiss);
    assert!(!dismiss.open(true));
    let moved: ContextMenuEvent<Point> = ContextMenuEvent::Menu(MenuEvent::StateChanged(state.clone()));
    assert!(moved.open(true));
    assert!(!moved.open(false));
}

#[test]
fn requests_open_only_an_enabled_closed_region() {
    assert_eq!(
        open_request(ContextRequest::SecondaryPress, false, false, false, false, false),
        Some(AnchorSource::Press)
    );
    assert_eq!(open_request(ContextRequest::SecondaryPress, true, false, false, true, true), None);
    assert_eq!(open_request(ContextRequest::SecondaryPress, false, true, false, true, true), None);
    assert_eq!(open_request(ContextRequest::SecondaryPress, false, false, true, true, true), None);
    assert_eq!(open_request(ContextRequest::FingerPress, false, false, false, false, true), None);
    assert_eq!(
        open_request(ContextRequest::FingerPress, false, false, false, true, false),
        Some(AnchorSource::Press)
    );
    assert_eq!(open_request(ContextRequest::MenuKey, false, false, false, true, false), None);
    assert_eq!(
        open_request(ContextRequest::MenuKey, false, false, false, false, true),
        Some(AnchorSource::RegionCenter)
    );
    assert_eq!(
        open_request(ContextRequest::ShiftF10, false, false, false, false, true),
        Some(AnchorSource::RegionCenter)
    );
}
