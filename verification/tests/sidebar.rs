use localtex::sidebar::{thumb_keep_window, SidebarFold, SIDEBAR_AUTO_COLLAPSE, SIDEBAR_AUTO_EXPAND};

#[test]
fn seed_matches_scheme_a() {
    assert!(!SidebarFold::seed(800, false).collapsed, "seed at 800 unpinned = expanded");
    assert!(SidebarFold::seed(700, false).collapsed, "seed at 700 unpinned = collapsed");
    assert!(SidebarFold::seed(800, true).collapsed, "seed pinned always collapsed");
    assert!(SidebarFold::seed(700, true).collapsed);
}

#[test]
fn resize_hysteresis() {
    let mut f = SidebarFold::at(800, false);
    assert!(f.on_resize(700, false), "800→700 unpinned collapses");
    assert!(f.collapsed);

    let mut f = SidebarFold::at(700, true);
    assert!(f.on_resize(800, false), "700→800 unpinned expands (crosses 744)");
    assert!(!f.collapsed);

    let mut f = SidebarFold::at(700, true);
    assert!(!f.on_resize(743, false), "700→743 stays collapsed (must pass 744)");
    assert!(f.collapsed);
    assert!(f.on_resize(744, false));
    assert!(!f.collapsed);

    let mut f = SidebarFold::at(730, true);
    assert!(!f.on_resize(710, false), "730→710 already collapsed stays collapsed");
    assert!(f.collapsed);

    let mut f = SidebarFold::at(730, false);
    assert!(
        f.on_resize(710, false),
        "730→710 already expanded folds across 720, no bounce expand"
    );
    assert!(f.collapsed);

    let mut f = SidebarFold::at(800, false);
    assert!(f.on_resize(700, true), "pinned ignores resize");
    assert!(f.collapsed);
    assert!(!f.on_resize(800, true));
    assert!(f.collapsed);

    let mut f = SidebarFold::at(700, false);
    assert!(
        !f.on_resize(700, false),
        "manual expand while narrow: same-size resize keeps expanded"
    );
    assert!(!f.collapsed);
}

#[test]
fn toggle_expand_while_narrow_does_not_snap_shut() {
    let mut f = SidebarFold::seed(700, false);
    assert!(f.collapsed);
    assert!(!f.toggle_pin(700));
    assert!(!f.collapsed);
    assert!(!f.on_resize(700, false));
    assert!(!f.collapsed);
}

#[test]
fn thresholds_are_a_band_of_twenty_four_pixels() {
    assert_eq!(SIDEBAR_AUTO_COLLAPSE, 720);
    assert_eq!(SIDEBAR_AUTO_EXPAND, 744);
    for last in [600, 719, 720, 743, 744, 900] {
        for now in 720..744 {
            for collapsed in [false, true] {
                let mut f = SidebarFold::at(last, collapsed);
                assert!(!f.on_resize(now, false));
                assert_eq!(f.collapsed, collapsed);
                assert_eq!(f.last_w, now);
            }
        }
    }
}

#[test]
fn toggle_pin_folds_an_open_sidebar_and_keeps_its_width() {
    let mut f = SidebarFold::seed(900, false);
    assert!(f.toggle_pin(650));
    assert!(f.collapsed);
    assert_eq!(f.last_w, 900);
}

#[test]
fn rail_only_when_docs_and_collapsed() {
    let expanded = SidebarFold::seed(800, false);
    assert!(!expanded.shows_rail(true));
    assert!(!expanded.shows_rail(false));
    let collapsed = SidebarFold::seed(700, false);
    assert!(collapsed.shows_rail(true));
    assert!(!collapsed.shows_rail(false));
}

#[test]
fn thumbnails_kept_around_the_visible_rows() {
    assert_eq!(thumb_keep_window(10, 20, 100, 3), (0, 30));
    assert_eq!(thumb_keep_window(40, 50, 100, 3), (30, 60));
    assert_eq!(thumb_keep_window(90, 100, 100, 5), (70, 100));
    assert_eq!(thumb_keep_window(5, 5, 10, 3), (4, 6), "an empty view still counts one row");
    assert_eq!(thumb_keep_window(5, 8, 10, 1), (5, 8));
    assert_eq!(thumb_keep_window(5, 8, 10, 0), (5, 8));
}
