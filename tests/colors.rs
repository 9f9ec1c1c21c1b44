use git_graph_tui::colors::{ColorAssigner, MAIN_BRANCH_COLOR, PALETTE_SIZE};

#[test]
fn first_assignment_avoids_the_default_last_colour() {
    let mut a = ColorAssigner::new();
    // A new lane's last colour counts as 0, so colour 0 carries a penalty.
    assert_eq!(a.assign_color(0), 1);
    assert_eq!(a.get_lane_color_index(0), Some(1));
}

#[test]
fn second_lane_avoids_its_neighbour() {
    let mut a = ColorAssigner::new();
    assert_eq!(a.assign_color(0), 1);
    assert_eq!(a.assign_color(1), 2);
    assert_eq!(a.get_lane_color_index(1), Some(2));
}

#[test]
fn released_lane_gets_a_different_colour() {
    let mut a = ColorAssigner::new();
    assert_eq!(a.assign_color(0), 1);
    a.release_lane(0);
    assert_eq!(a.get_lane_color_index(0), None);
    assert_eq!(a.assign_color(0), 2);
}

#[test]
fn main_lane_keeps_its_colour() {
    let mut a = ColorAssigner::default();
    assert_eq!(a.assign_main_color(0), MAIN_BRANCH_COLOR);
    assert!(a.is_main_lane(0));
    assert!(!a.is_main_lane(1));
    assert_eq!(a.get_main_color(), MAIN_BRANCH_COLOR);
    a.release_lane(0);
    assert_eq!(a.get_lane_color_index(0), Some(MAIN_BRANCH_COLOR));
    for lane in 1..8 {
        assert_ne!(a.assign_color(lane), MAIN_BRANCH_COLOR);
        a.advance_row();
    }
    assert_eq!(a.continue_lane(0), MAIN_BRANCH_COLOR);
    assert_eq!(a.get_lane_color_index(0), Some(MAIN_BRANCH_COLOR));
}

#[test]
fn fork_siblings_get_distinct_colours() {
    let mut a = ColorAssigner::new();
    a.assign_color(0);
    a.advance_row();
    a.begin_fork();
    let c1 = a.assign_fork_sibling_color(1);
    let c2 = a.assign_fork_sibling_color(2);
    let c3 = a.assign_fork_sibling_color(3);
    assert_ne!(c1, c2);
    assert_ne!(c1, c3);
    assert_ne!(c2, c3);
}

#[test]
fn reserved_colours_are_skipped() {
    let mut a = ColorAssigner::new();
    for c in 0..PALETTE_SIZE {
        if c != 4 {
            a.reserve_color(c);
        }
    }
    assert_eq!(a.assign_color(0), 4);
    assert_eq!(a.assign_color(1), 4);
}

#[test]
fn continue_lane_reuses_or_assigns() {
    let mut a = ColorAssigner::new();
    let c = a.assign_color(3);
    assert_eq!(a.continue_lane(3), c);
    assert_eq!(a.get_lane_color_index(5), None);
    let d = a.continue_lane(5);
    assert_eq!(a.get_lane_color_index(5), Some(d));
    assert!(d < PALETTE_SIZE);
}

#[test]
fn colours_stay_in_the_palette() {
    let mut a = ColorAssigner::new();
    for i in 0..100usize {
        let c = a.assign_color(i % 7);
        assert!(c < PALETTE_SIZE);
        if i % 3 == 0 {
            a.release_lane(i % 7);
            a.advance_row();
        }
    }
}

#[test]
fn main_lane_cannot_be_recoloured() {
    let mut a = ColorAssigner::new();
    assert_eq!(a.assign_main_color(0), MAIN_BRANCH_COLOR);
    assert_eq!(a.assign_color(0), MAIN_BRANCH_COLOR);
    assert_eq!(a.assign_fork_sibling_color(0), MAIN_BRANCH_COLOR);
    assert_eq!(a.get_lane_color_index(0), Some(MAIN_BRANCH_COLOR));
    assert!(a.is_main_lane(0));
}

#[test]
fn only_the_first_main_lane_counts() {
    let mut a = ColorAssigner::new();
    a.assign_main_color(2);
    assert_eq!(a.assign_main_color(0), MAIN_BRANCH_COLOR);
    assert!(a.is_main_lane(2));
    assert!(!a.is_main_lane(0));
    assert_eq!(a.get_lane_color_index(0), None);
    assert_ne!(a.assign_color(0), MAIN_BRANCH_COLOR);
}
