use lightly_rusted::args::{Args, ArgsError};

fn argv(items: &[&str]) -> Vec<String> {
    let mut v = vec!["lightly-rusted".to_string()];
    for s in items {
        v.push(s.to_string());
    }
    v
}

#[test]
fn no_options_gives_defaults() {
    let a = Args::parse(&argv(&[])).unwrap();
    assert_eq!(a.scene_file, "scene01.json");
    assert_eq!(a.width, 400);
    assert_eq!(a.height, 300);
    assert_eq!(a.workers, 0);
}

#[test]
fn empty_command_line_gives_defaults() {
    let a = Args::parse(&Vec::new()).unwrap();
    assert_eq!(a.scene_file, "scene01.json");
    assert_eq!((a.width, a.height, a.workers), (400, 300, 0));
}

#[test]
fn custom_scene_only() {
    let a = Args::parse(&argv(&["--scene", "scene02.json"])).unwrap();
    assert_eq!(a.scene_file, "scene02.json");
    assert_eq!((a.width, a.height), (400, 300));
}

#[test]
fn custom_size_only() {
    let a = Args::parse(&argv(&["--size", "1920x1080"])).unwrap();
    assert_eq!(a.scene_file, "scene01.json");
    assert_eq!((a.width, a.height), (1920, 1080));
}

#[test]
fn scene_and_size() {
    let a = Args::parse(&argv(&["--scene", "examples/primitives.json", "--size", "800x600"])).unwrap();
    assert_eq!(a.scene_file, "examples/primitives.json");
    assert_eq!((a.width, a.height), (800, 600));
}

#[test]
fn workers_option() {
    let a = Args::parse(&argv(&["--scene", "examples/primitives.json", "--workers", "6"])).unwrap();
    assert_eq!(a.scene_file, "examples/primitives.json");
    assert_eq!(a.workers, 6);
}

#[test]
fn later_option_overrides_earlier() {
    let a = Args::parse(&argv(&["--size", "10x20", "--size", "30x40", "--scene", "a", "--scene", "b"])).unwrap();
    assert_eq!((a.width, a.height), (30, 40));
    assert_eq!(a.scene_file, "b");
}

#[test]
fn plus_sign_and_leading_zeros_accepted() {
    let a = Args::parse(&argv(&["--size", "+0800x007"])).unwrap();
    assert_eq!((a.width, a.height), (800, 7));
}

#[test]
fn largest_width_accepted() {
    let a = Args::parse(&argv(&["--size", "4294967295x1"])).unwrap();
    assert_eq!(a.width, u32::MAX);
}

#[test]
fn missing_scene_file() {
    assert!(matches!(Args::parse(&argv(&["--scene"])), Err(ArgsError::MissingSceneFile)));
}

#[test]
fn missing_size() {
    assert!(matches!(Args::parse(&argv(&["--scene", "s.json", "--size"])), Err(ArgsError::MissingSize)));
}

#[test]
fn size_without_x() {
    assert!(matches!(Args::parse(&argv(&["--size", "800"])), Err(ArgsError::SizeFormat)));
    assert!(matches!(Args::parse(&argv(&["--size", ""])), Err(ArgsError::SizeFormat)));
    assert!(matches!(Args::parse(&argv(&["--size", "800X600"])), Err(ArgsError::SizeFormat)));
}

#[test]
fn invalid_width() {
    match Args::parse(&argv(&["--size", "abcx600"])) {
        Err(ArgsError::InvalidWidth(w)) => assert_eq!(w, "abc"),
        _ => panic!("expected an invalid width"),
    }
    match Args::parse(&argv(&["--size", "x600"])) {
        Err(ArgsError::InvalidWidth(w)) => assert_eq!(w, ""),
        _ => panic!("expected an invalid width"),
    }
    match Args::parse(&argv(&["--size", "4294967296x1"])) {
        Err(ArgsError::InvalidWidth(w)) => assert_eq!(w, "4294967296"),
        _ => panic!("expected an invalid width"),
    }
    match Args::parse(&argv(&["--size", "-5x1"])) {
        Err(ArgsError::InvalidWidth(w)) => assert_eq!(w, "-5"),
        _ => panic!("expected an invalid width"),
    }
    match Args::parse(&argv(&["--size", "+x1"])) {
        Err(ArgsError::InvalidWidth(w)) => assert_eq!(w, "+"),
        _ => panic!("expected an invalid width"),
    }
}

#[test]
fn invalid_height() {
    match Args::parse(&argv(&["--size", "800x"])) {
        Err(ArgsError::InvalidHeight(h)) => assert_eq!(h, ""),
        _ => panic!("expected an invalid height"),
    }
    match Args::parse(&argv(&["--size", "800x600x2"])) {
        Err(ArgsError::InvalidHeight(h)) => assert_eq!(h, "600x2"),
        _ => panic!("expected an invalid height"),
    }
    match Args::parse(&argv(&["--size", "800x 600"])) {
        Err(ArgsError::InvalidHeight(h)) => assert_eq!(h, " 600"),
        _ => panic!("expected an invalid height"),
    }
}

#[test]
fn missing_workers() {
    assert!(matches!(Args::parse(&argv(&["--workers"])), Err(ArgsError::MissingWorkers)));
}

#[test]
fn invalid_workers() {
    match Args::parse(&argv(&["--workers", "many"])) {
        Err(ArgsError::InvalidWorkers(w)) => assert_eq!(w, "many"),
        _ => panic!("expected an invalid worker count"),
    }
}

#[test]
fn unknown_argument() {
    match Args::parse(&argv(&["--scene", "a.json", "--fast"])) {
        Err(ArgsError::UnknownArgument(a)) => assert_eq!(a, "--fast"),
        _ => panic!("expected an unknown argument"),
    }
}

#[test]
fn non_ascii_arguments() {
    let a = Args::parse(&argv(&["--scene", "szené×.json"])).unwrap();
    assert_eq!(a.scene_file, "szené×.json");
    match Args::parse(&argv(&["--size", "8é0x600"])) {
        Err(ArgsError::InvalidWidth(w)) => assert_eq!(w, "8é0"),
        _ => panic!("expected an invalid width"),
    }
}
