use walkers_editor::cache::CacheDebug;
use walkers_editor::states::{CacheBitflag, CacheFlag, SelectionBitflag, SelectionFlag};
use walkers_editor::windows::{Window, WindowBitflag};

const ALL: [CacheFlag; 7] = [
    CacheFlag::NodeProjection,
    CacheFlag::NodeOrphan,
    CacheFlag::NodeDedup,
    CacheFlag::NodeUsage,
    CacheFlag::WayArea,
    CacheFlag::WayMeshAndAreaSize,
    CacheFlag::AreaSizeOrdered,
];

#[test]
fn cache_flags_have_bits_of_their_own() {
    let bits: Vec<u8> = ALL.iter().map(|f| f.bit()).collect();
    assert_eq!(bits, vec![1, 2, 4, 8, 16, 32, 64]);
    let rows: Vec<usize> = ALL.iter().map(|f| f.index()).collect();
    assert_eq!(rows, vec![0, 1, 2, 3, 4, 5, 6]);
    assert_eq!(CacheFlag::SIZE, 7);
}

#[test]
fn none_and_all() {
    let none = CacheBitflag::none();
    let all = CacheBitflag::all();
    assert!(none.is_empty());
    assert!(!all.is_empty());
    for f in ALL {
        assert!(!none.contains(f));
        assert!(all.contains(f));
    }
    assert!(CacheBitflag::default().is_empty());
}

#[test]
fn insert_and_remove_touch_one_flag() {
    for f in ALL {
        let mut s = CacheBitflag::none();
        s.insert(f);
        s.insert(f);
        assert!(!s.is_empty());
        for g in ALL {
            assert_eq!(s.contains(g), g == f);
        }
        s.remove(f);
        assert!(s.is_empty());

        let mut s = CacheBitflag::all();
        s.remove(f);
        s.remove(f);
        for g in ALL {
            assert_eq!(s.contains(g), g != f);
        }
        s.insert(f);
        assert_eq!(s, CacheBitflag::all());
    }
}

#[test]
fn removing_every_flag_leaves_nothing_pending() {
    let mut s = CacheBitflag::all();
    for f in ALL {
        assert!(!s.is_empty());
        s.remove(f);
    }
    assert!(s.is_empty());
    assert_eq!(s, CacheBitflag::none());
}

#[test]
fn selection_starts_with_nodes_and_ways() {
    let s = SelectionBitflag::default();
    assert!(s.contains(SelectionFlag::Nodes));
    assert!(s.contains(SelectionFlag::Ways));
    assert!(!s.contains(SelectionFlag::Areas));
    assert_eq!(SelectionFlag::Nodes.bit(), 1);
    assert_eq!(SelectionFlag::Ways.bit(), 2);
    assert_eq!(SelectionFlag::Areas.bit(), 4);
    assert_eq!(SelectionFlag::Nodes.label(), "Nodes");
    assert_eq!(SelectionFlag::Ways.label(), "Ways");
    assert_eq!(SelectionFlag::Areas.label(), "Areas");
}

#[test]
fn selection_toggles() {
    let mut s = SelectionBitflag::nodes_and_ways();
    s.toggle(SelectionFlag::Nodes);
    assert!(!s.contains(SelectionFlag::Nodes));
    assert!(s.contains(SelectionFlag::Ways));
    s.toggle(SelectionFlag::Areas);
    assert!(s.contains(SelectionFlag::Areas));
    s.toggle(SelectionFlag::Nodes);
    s.toggle(SelectionFlag::Areas);
    assert_eq!(s, SelectionBitflag::nodes_and_ways());
}

#[test]
fn windows_are_shown_until_hidden() {
    let windows = [Window::Tags, Window::Controls, Window::History, Window::Toolbar, Window::Debug];
    let mut w = WindowBitflag::default();
    for x in windows {
        assert!(w.is_shown(x));
    }
    w.toggle(Window::History);
    for x in windows {
        assert_eq!(w.is_shown(x), x != Window::History);
    }
    w.toggle(Window::Debug);
    assert!(!w.is_shown(Window::Debug));
    w.toggle(Window::History);
    w.toggle(Window::Debug);
    assert_eq!(w, WindowBitflag::new());
    let bits: Vec<u8> = windows.iter().map(|x| x.bit()).collect();
    assert_eq!(bits, vec![1, 2, 4, 8, 128]);
    let labels: Vec<&str> = windows.iter().map(|x| x.label()).collect();
    assert_eq!(labels, vec!["Tags", "Controls", "History", "Toolbar", "Debug"]);
}

#[test]
fn debug_table_counts_refreshes() {
    let mut d = CacheDebug::new();
    assert_eq!(d.0, [(0, 0); 8]);
    d.update(CacheFlag::NodeDedup, 150);
    d.update(CacheFlag::NodeDedup, 90);
    d.update(CacheFlag::AreaSizeOrdered, 7);
    d.update(CacheFlag::NodeProjection, u32::MAX);
    assert_eq!(d.0, [(u32::MAX, 1), (0, 0), (90, 2), (0, 0), (0, 0), (0, 0), (7, 1), (0, 0)]);
}
