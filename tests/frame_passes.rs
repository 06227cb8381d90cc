use wayland_bridge::frame::{frame_targets, process_frame, SurfaceEntry};

fn entry(committed: Option<u64>, texture: Option<u64>) -> SurfaceEntry {
    SurfaceEntry { committed, texture }
}

#[test]
fn update_with_no_surfaces_uploads_nothing() {
    let mut surfaces: Vec<SurfaceEntry> = Vec::new();
    assert!(process_frame(&mut surfaces).is_empty());
    assert!(surfaces.is_empty());
    assert!(frame_targets(&surfaces).is_empty());
}

#[test]
fn process_frame_uploads_new_commits_only() {
    let mut surfaces = vec![
        entry(Some(7), None),
        entry(None, Some(3)),
        entry(Some(9), Some(4)),
    ];
    assert_eq!(process_frame(&mut surfaces), vec![0, 2]);
    assert_eq!(
        surfaces,
        vec![entry(None, Some(7)), entry(None, Some(3)), entry(None, Some(9))]
    );
}

#[test]
fn process_frame_without_commits_changes_nothing() {
    let before = vec![entry(None, Some(1)), entry(None, None)];
    let mut surfaces = before.clone();
    assert!(process_frame(&mut surfaces).is_empty());
    assert_eq!(surfaces, before);
}

#[test]
fn process_frame_twice_uploads_once() {
    let mut surfaces = vec![entry(Some(5), Some(2)), entry(None, Some(8))];
    assert_eq!(process_frame(&mut surfaces), vec![0]);
    let after_first = surfaces.clone();
    assert!(process_frame(&mut surfaces).is_empty());
    assert_eq!(surfaces, after_first);
}

#[test]
fn frame_event_reaches_every_surface_once() {
    let surfaces = vec![entry(None, None), entry(Some(1), None), entry(None, Some(2))];
    assert_eq!(frame_targets(&surfaces), vec![0, 1, 2]);
}
