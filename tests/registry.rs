use wayland_qubes::proto::{Configure, Outbound, Rectangle};
use wayland_qubes::qubes::{CloseAction, Kind, QubesBackendData, QubesData, TickReport};
use wayland_qubes::shell::SurfaceData;

fn rect(x: u32, y: u32, width: u32, height: u32) -> Rectangle {
    Rectangle { x, y, width, height }
}

fn configure(x: u32, y: u32, width: u32, height: u32) -> Configure {
    Configure { rectangle: rect(x, y, width, height), override_redirect: 0 }
}

fn registry_with_toplevel() -> QubesData<u32, u32> {
    let mut q: QubesData<u32, u32> = QubesData::new();
    let d: SurfaceData<()> = q.data();
    assert_eq!(d.window, 2);
    assert!(q.new_toplevel(2, 7, Some((640, 480))).is_some());
    q
}

#[test]
fn new_toplevel_creates_window() {
    let mut q: QubesData<u32, u32> = QubesData::new();
    let d: SurfaceData<()> = q.data();
    assert_eq!(d.window, 2);
    assert_eq!(d.coordinates, (0, 0));
    assert_eq!(d.buffer_scale, 0);
    let msgs = q.new_toplevel(d.window, 7, Some((640, 480))).unwrap();
    let r = rect(0, 0, 640, 480);
    assert_eq!(
        msgs,
        vec![
            Outbound::Create { window: 2, rectangle: r, parent: None, override_redirect: 0 },
            Outbound::Configure { window: 2, configure: Configure { rectangle: r, override_redirect: 0 } },
            Outbound::MapInfo { window: 2, override_redirect: 0, transient_for: 0 },
        ]
    );
    let e = q.get(2).unwrap();
    assert!(!e.has_configured);
    assert_eq!(e.coordinates, (0, 0));
    assert!(matches!(e.surface, Kind::Toplevel(7)));
}

#[test]
fn new_toplevel_without_size_is_one_by_one() {
    let mut q: QubesData<u32, u32> = QubesData::new();
    let _d: SurfaceData<()> = q.data();
    let msgs = q.new_toplevel(2, 1, None).unwrap();
    assert_eq!(msgs[0], Outbound::Create { window: 2, rectangle: rect(0, 0, 1, 1), parent: None, override_redirect: 0 });
    let mut q: QubesData<u32, u32> = QubesData::new();
    let _d: SurfaceData<()> = q.data();
    let msgs = q.new_toplevel(2, 1, Some((0, -5))).unwrap();
    assert_eq!(msgs[0], Outbound::Create { window: 2, rectangle: rect(0, 0, 1, 1), parent: None, override_redirect: 0 });
}

#[test]
fn double_insert_is_refused() {
    let mut q = registry_with_toplevel();
    assert!(q.new_toplevel(2, 9, Some((1, 1))).is_none());
    assert!(matches!(q.get(2).unwrap().surface, Kind::Toplevel(7)));
    assert!(!q.insert(2, QubesBackendData { surface: Kind::Popup(3), has_configured: true, coordinates: (1, 1) }));
}

#[test]
fn ids_strictly_increase() {
    let mut q: QubesData<u32, u32> = QubesData::new();
    let a = q.id();
    let b = q.id();
    let c: SurfaceData<()> = q.data();
    assert_eq!((a, b, c.window), (2, 3, 4));
    assert!(q.new_toplevel(3, 1, None).is_some());
    assert!(q.new_toplevel(2, 1, None).is_some());
    assert_eq!(q.window_ids(), vec![2, 3]);
    assert!(q.can_allocate());
    assert_eq!(q.id(), 5);
}

#[test]
fn initial_configure_from_daemon() {
    let mut q = registry_with_toplevel();
    let m = configure(10, 20, 800, 600);
    let r = q.process_configure(m, 2, Some(None));
    assert_eq!(
        r.messages,
        vec![
            Outbound::Configure { window: 2, configure: m },
            Outbound::ShmImage { window: 2, rectangle: rect(10, 20, 800, 600) },
        ]
    );
    assert_eq!(r.client_size, Some((0, 0)));
    assert!(r.send_to_client);
    assert_eq!(r.placement, Some((10, 20)));
    assert!(r.realloc.is_none() && r.fill.is_none());
    let e = q.get(2).unwrap();
    assert_eq!(e.coordinates, (10, 20));
    assert!(e.has_configured);
}

#[test]
fn later_configure_carries_daemon_size() {
    let mut q = registry_with_toplevel();
    let m = configure(10, 20, 800, 600);
    let first = q.process_configure(m, 2, Some(Some((640, 480))));
    assert_eq!(first.client_size, Some((0, 0)));
    assert!(first.send_to_client);
    let second = q.process_configure(m, 2, Some(Some((0, 0))));
    assert_eq!(second.client_size, Some((800, 600)));
    assert!(second.send_to_client);
}

#[test]
fn unchanged_configure_not_sent_to_client() {
    let mut q = registry_with_toplevel();
    let m = configure(0, 0, 800, 600);
    q.process_configure(m, 2, Some(None));
    let r = q.process_configure(m, 2, Some(Some((800, 600))));
    assert!(!r.send_to_client);
    assert_eq!(r.client_size, Some((800, 600)));
    assert_eq!(r.messages.len(), 2);
}

#[test]
fn configure_on_dead_role_is_only_echoed() {
    let mut q = registry_with_toplevel();
    let m = configure(3, 4, 100, 100);
    let r = q.process_configure(m, 2, None);
    assert_eq!(r.messages.len(), 2);
    assert!(!r.send_to_client);
    assert!(r.client_size.is_none());
    let e = q.get(2).unwrap();
    assert!(!e.has_configured);
    assert_eq!(e.coordinates, (3, 4));
}

#[test]
fn configure_for_unknown_window_is_ignored() {
    let mut q = registry_with_toplevel();
    let r = q.process_configure(configure(0, 0, 5, 5), 9, Some(None));
    assert!(r.messages.is_empty());
    assert!(r.placement.is_none());
    assert!(!r.send_to_client);
    assert!(!q.get(2).unwrap().has_configured);
}

#[test]
fn self_configure_echoes_once() {
    let mut q: QubesData<u32, u32> = QubesData::new();
    let m = configure(50, 400, 0x200, 0x100);
    let r = q.process_configure(m, 1, None);
    assert_eq!(
        r.messages,
        vec![
            Outbound::WindowDump { window: 1 },
            Outbound::Configure { window: 1, configure: m },
            Outbound::ShmImage { window: 1, rectangle: m.rectangle },
        ]
    );
    assert_eq!(r.realloc, Some((0x200, 0x100)));
    assert_eq!(r.fill, Some((0x200 * 0x40, 0x200 * 0x80)));
    let again = q.process_configure(m, 1, None);
    assert_eq!(again.messages, vec![Outbound::Configure { window: 1, configure: m }]);
    assert!(again.fill.is_none() && again.realloc.is_none() && again.placement.is_none());
    let redraw = q.process_self_configure(m);
    assert!(redraw.messages.is_empty());
    assert!(redraw.fill.is_none() && redraw.realloc.is_none());
}

#[test]
fn self_configure_same_area_needs_no_dump() {
    let mut q: QubesData<u32, u32> = QubesData::new();
    q.process_self_configure(configure(0, 0, 4, 8));
    let m = configure(0, 0, 8, 4);
    let r = q.process_self_configure(m);
    assert!(r.realloc.is_none());
    assert_eq!(r.fill, Some((8, 16)));
    assert_eq!(
        r.messages,
        vec![Outbound::Configure { window: 1, configure: m }, Outbound::ShmImage { window: 1, rectangle: m.rectangle }]
    );
}

#[test]
fn close_of_self_window() {
    let mut q = registry_with_toplevel();
    assert_eq!(q.close_action(1), CloseAction::Exit);
    assert_eq!(q.window_ids(), vec![2]);
    assert!(q.reap(&vec![1]).is_empty());
    assert_eq!(q.destroy(1), None);
}

#[test]
fn close_of_client_windows() {
    let mut q = registry_with_toplevel();
    assert_eq!(q.close_action(2), CloseAction::Close);
    assert_eq!(q.close_action(5), CloseAction::Ignore);
    let w = q.id();
    assert!(q.insert(w, QubesBackendData { surface: Kind::Popup(1), has_configured: false, coordinates: (0, 0) }));
    assert_eq!(q.close_action(w), CloseAction::PopupDone);
}

#[test]
fn reap_destroys_each_window_once() {
    let mut q: QubesData<u32, u32> = QubesData::new();
    for _ in 0..3 {
        let w = q.id();
        assert!(q.new_toplevel(w, w, None).is_some());
    }
    let msgs = q.reap(&vec![3, 9, 3, 2]);
    assert_eq!(msgs, vec![Outbound::Destroy { window: 3 }, Outbound::Destroy { window: 2 }]);
    assert_eq!(q.window_ids(), vec![4]);
    assert_eq!(q.destroy(4), Some(Outbound::Destroy { window: 4 }));
    assert_eq!(q.destroy(4), None);
    assert!(q.window_ids().is_empty());
}

#[test]
fn tick_sends_titles_then_destroys_dead_windows() {
    let mut q: QubesData<u32, u32> = QubesData::new();
    for _ in 0..3 {
        let w = q.id();
        assert!(q.new_toplevel(w, w, None).is_some());
    }
    let reports = vec![
        TickReport { window: 2, alive: true, title: Some(b"ab".to_vec()) },
        TickReport { window: 3, alive: false, title: Some(b"gone".to_vec()) },
        TickReport { window: 4, alive: true, title: None },
    ];
    let msgs = q.tick(&reports);
    let mut padded = b"ab".to_vec();
    padded.resize(128, 0);
    assert_eq!(msgs, vec![Outbound::SetTitle { window: 2, title: padded }, Outbound::Destroy { window: 3 }]);
    assert_eq!(q.window_ids(), vec![2, 4]);
    assert_eq!(q.tick(&vec![]), vec![]);
}

#[test]
fn survivors_keep_their_entries() {
    let mut q: QubesData<u32, u32> = QubesData::new();
    for _ in 0..3 {
        let w = q.id();
        assert!(q.new_toplevel(w, w * 10, None).is_some());
    }
    q.process_configure(configure(7, 8, 100, 100), 4, Some(None));
    q.reap(&vec![3]);
    let e = q.get(4).unwrap();
    assert!(e.has_configured);
    assert_eq!(e.coordinates, (7, 8));
    assert!(matches!(e.surface, Kind::Toplevel(40)));
    assert!(matches!(q.get(2).unwrap().surface, Kind::Toplevel(20)));
}
