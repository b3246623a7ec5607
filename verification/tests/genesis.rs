use kami_engine::genesis::{solver_for_phase, ArticulationView, SOLVERS};
use kami_engine::scene::default_cascade_count;

#[test]
fn r1_1_uses_rigid_solver() {
    assert_eq!(solver_for_phase("R1.1"), Some("rigid"));
}

#[test]
fn solvers_list_includes_all_five() {
    assert_eq!(SOLVERS.len(), 5);
}

#[test]
fn solver_for_other_phases() {
    assert_eq!(solver_for_phase("R1.8"), Some("mpm"));
    assert_eq!(solver_for_phase("R1.2"), None);
    assert_eq!(solver_for_phase(""), None);
}

#[test]
fn dof_names_and_indices_align() {
    let view = ArticulationView::new(Some(vec![
        "slider_to_cart".to_string(),
        "cart_to_pole".to_string(),
    ]));
    assert_eq!(view.num_dof(), 2);
    assert_eq!(view.dof_names(), vec!["slider_to_cart".to_string(), "cart_to_pole".to_string()]);
    assert_eq!(view.get_dof_index("slider_to_cart"), Some(0));
    assert_eq!(view.get_dof_index("cart_to_pole"), Some(1));
    assert_eq!(view.get_dof_index("nonexistent"), None);
}

#[test]
fn invalid_view_has_no_dofs() {
    let view = ArticulationView::new(None);
    assert_eq!(view.num_dof(), 0);
    assert!(view.dof_names().is_empty());
    assert_eq!(view.get_dof_index("anything"), None);
}

#[test]
fn shadow_cascades_default_to_two() {
    assert_eq!(default_cascade_count(), 2);
}

use kami_engine::genesis::{link_order, root_link};

#[test]
fn links_come_breadth_first_from_the_root() {
    // link 1 is nobody's child; 2 and 3 hang off it, 4 off 2, 0 off 3
    let joints: Vec<(usize, usize)> = vec![(1, 2), (1, 3), (2, 4), (3, 0)];
    assert_eq!(root_link(5, &joints), 1);
    assert_eq!(link_order(5, &joints), vec![1, 2, 3, 4, 0]);
}

#[test]
fn a_lone_link_is_its_own_order() {
    let joints: Vec<(usize, usize)> = Vec::new();
    assert_eq!(root_link(1, &joints), 0);
    assert_eq!(link_order(1, &joints), vec![0]);
}

#[test]
fn children_follow_joint_order() {
    let joints: Vec<(usize, usize)> = vec![(0, 3), (0, 1), (1, 2), (0, 4)];
    assert_eq!(link_order(5, &joints), vec![0, 3, 1, 4, 2]);
}
