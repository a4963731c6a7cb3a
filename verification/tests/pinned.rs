use herdr::layout::Rect;
use herdr::pinned::{pin_extent_bounds, split_for_extent, PinnedSide};

/// The pin's share of the surface, rounded and clamped to the side's
/// content bounds, as the application computes it for a ratio.
fn extent(side: PinnedSide, area: Rect, ratio: f32) -> u16 {
    let (min, max) = pin_extent_bounds(side);
    let span = match side {
        PinnedSide::Right => area.width,
        PinnedSide::Down => area.height,
    };
    (span as f32 * ratio).round().clamp(min as f32, max as f32) as u16
}

fn split(side: PinnedSide, ratio: f32, area: Rect) -> Option<(Rect, Rect)> {
    split_for_extent(side, area, extent(side, area, ratio))
}

#[test]
fn right_pin_respects_ratio_within_content_bounds() {
    let (tab, p) = split(PinnedSide::Right, 0.25, Rect::new(0, 0, 200, 40)).unwrap();
    assert_eq!(p.width, 50);
    assert_eq!(tab.width, 150);
}

#[test]
fn right_pin_caps_at_content_max() {
    let (tab, p) = split(PinnedSide::Right, 0.25, Rect::new(0, 0, 400, 40)).unwrap();
    assert_eq!(p.width, 90);
    assert_eq!(tab.width, 310);
}

#[test]
fn right_pin_raises_to_content_min() {
    let (tab, p) = split(PinnedSide::Right, 0.25, Rect::new(0, 0, 120, 40)).unwrap();
    assert_eq!(p.width, 30);
    assert_eq!(tab.width, 90);
}

#[test]
fn right_pin_hides_when_surface_too_small() {
    assert!(split(PinnedSide::Right, 0.25, Rect::new(0, 0, 60, 40)).is_none());
    assert!(split(PinnedSide::Right, 0.25, Rect::new(0, 0, 69, 40)).is_none());
    assert!(split(PinnedSide::Right, 0.25, Rect::new(0, 0, 70, 40)).is_some());
}

#[test]
fn split_pinned_area_omits_hidden_pins() {
    let area = Rect::new(0, 0, 60, 40);
    let mut rects = Vec::new();
    let main = match split(PinnedSide::Right, 0.25, area) {
        Some((m, p)) => {
            rects.push(p);
            m
        }
        None => area,
    };
    assert!(rects.is_empty());
    assert_eq!(main.width, 60); // the tab keeps the full surface
}

#[test]
fn pins_tile_the_surface() {
    let area = Rect::new(3, 4, 200, 40);
    let (main, pin) = split_for_extent(PinnedSide::Right, area, 50).unwrap();
    assert_eq!(main, Rect::new(3, 4, 150, 40));
    assert_eq!(pin, Rect::new(153, 4, 50, 40));
    let (main, pin) = split_for_extent(PinnedSide::Down, area, 12).unwrap();
    assert_eq!(main, Rect::new(3, 4, 200, 28));
    assert_eq!(pin, Rect::new(3, 32, 200, 12));
    assert!(split_for_extent(PinnedSide::Down, area, 31).is_none());
    assert!(split_for_extent(PinnedSide::Down, area, 30).is_some());
    assert_eq!(pin_extent_bounds(PinnedSide::Down), (5, 30));
}
