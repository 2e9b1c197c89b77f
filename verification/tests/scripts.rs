use launch_scripts::combo::Combo;
use launch_scripts::script::{script_path, script_path_ranks_threads, PERMISSIONS};

#[test]
fn script_path_follows_the_pattern() {
    assert_eq!(script_path("/out", &Combo::new(1, 8, 3)), "/out/run_1nodes_8ranks_3threads.sh");
}

#[test]
fn script_path_with_longer_numbers() {
    assert_eq!(
        script_path("/home/user/launch", &Combo::new(16, 24, 1)),
        "/home/user/launch/run_16nodes_24ranks_1threads.sh"
    );
}

#[test]
fn script_path_takes_the_parent_as_it_is() {
    assert_eq!(script_path("", &Combo::new(1, 2, 3)), "/run_1nodes_2ranks_3threads.sh");
    assert_eq!(script_path("out/", &Combo::new(1, 2, 3)), "out//run_1nodes_2ranks_3threads.sh");
    assert_eq!(script_path(".", &Combo::new(0, 0, 0)), "./run_0nodes_0ranks_0threads.sh");
}

#[test]
fn script_path_is_the_same_each_time() {
    let c = Combo::new(1, 8, 3);
    assert_eq!(script_path("/out", &c), script_path("/out", &c));
}

#[test]
fn script_path_agrees_with_format() {
    for c in [Combo::new(1, 1, 24), Combo::new(12, 345, 6789), Combo::new(usize::MAX, 0, 7)] {
        let expected = format!("{}/run_{}nodes_{}ranks_{}threads.sh", "/p", c.nodes, c.ranks, c.threads);
        assert_eq!(script_path("/p", &c), expected);
    }
}

#[test]
fn script_path_ranks_threads_omits_the_nodes() {
    assert_eq!(script_path_ranks_threads("/out", &Combo::new(1, 8, 3)), "/out/run_8ranks_3threads.sh");
}

#[test]
fn permissions_are_rwx_r_r() {
    assert_eq!(PERMISSIONS, 0o744);
    assert_eq!(PERMISSIONS, 484);
}

#[test]
fn different_shapes_have_different_paths() {
    let shapes = [
        Combo::new(1, 1, 11),
        Combo::new(1, 11, 1),
        Combo::new(11, 1, 1),
        Combo::new(1, 1, 1),
        Combo::new(111, 1, 1),
        Combo::new(0, 0, 0),
    ];
    for (i, a) in shapes.iter().enumerate() {
        for (j, b) in shapes.iter().enumerate() {
            assert_eq!(script_path("/out", a) == script_path("/out", b), i == j);
        }
    }
}
