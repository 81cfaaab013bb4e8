use mimas::project::{enters, is_mim, Ancestor, Project, Walked};

fn anc(path: &str, holds_mim: bool, package: bool, git: bool) -> Ancestor {
    Ancestor { path: path.to_string(), holds_mim, package, git }
}

fn entry(path: &str, is_file: bool) -> Walked {
    Walked {
        path: path.to_string(),
        name: path.rsplit('/').next().unwrap().to_string(),
        is_file,
    }
}

// the tree: a.mim, sub/b.mim, workspace/{Cargo.toml ([workspace]), c.mim},
// pkg/{Cargo.toml ([package]), d.mim}, target/{CACHEDIR.TAG, e.mim}; the walk goes where
// `enters` lets it
#[test]
fn walk_skips_packages_and_target_dirs() {
    let root = "/tmp/w";
    assert!(enters(0, true, false, false));
    assert!(enters(1, true, false, false), "sub");
    assert!(enters(1, true, false, false), "a workspace is no package");
    assert!(!enters(1, true, true, false), "pkg");
    assert!(!enters(1, true, false, true), "target");
    assert!(enters(1, false, false, false), "a file");
    let project = Project::of(root.to_string(), false, &vec![anc(root, true, false, false), anc("/tmp", false, false, false), anc("/", false, false, false)]);
    assert!(project.recursive);
    assert_eq!(project.max_depth(), usize::MAX);
    let walked = vec![
        entry("/tmp/w", false),
        entry("/tmp/w/workspace", false),
        entry("/tmp/w/workspace/c.mim", true),
        entry("/tmp/w/workspace/Cargo.toml", true),
        entry("/tmp/w/sub", false),
        entry("/tmp/w/sub/b.mim", true),
        entry("/tmp/w/a.mim", true),
    ];
    assert_eq!(
        project.files(&walked),
        vec!["/tmp/w/a.mim", "/tmp/w/sub/b.mim", "/tmp/w/workspace/c.mim"]
    );
    // inside the package, its own files
    let pkg = Project::of(
        "/tmp/w/pkg".to_string(),
        false,
        &vec![anc("/tmp/w/pkg", true, true, false), anc(root, true, false, false)],
    );
    assert_eq!(pkg.root, "/tmp/w/pkg");
    assert_eq!(pkg.package, Some("/tmp/w/pkg".to_string()));
    let walked = vec![entry("/tmp/w/pkg", false), entry("/tmp/w/pkg/Cargo.toml", true), entry("/tmp/w/pkg/d.mim", true)];
    assert_eq!(pkg.files(&walked), vec!["/tmp/w/pkg/d.mim"]);
}

// the tree: Cargo.toml ([package]), scripts/a.mim, scripts/enemies/b.mim
#[test]
fn a_folder_is_its_own_root_inside_a_package() {
    let ancestors = vec![
        anc("/r/scripts/enemies", false, false, false),
        anc("/r/scripts", false, false, false),
        anc("/r", false, true, false),
        anc("/", false, false, false),
    ];
    let p = Project::of("/r/scripts/enemies".to_string(), false, &ancestors);
    assert_eq!(p.root, "/r/scripts/enemies");
    assert!(p.recursive);
    assert_eq!(p.package, Some("/r".to_string()));
    // a file's project is the highest folder holding a `.mim` in its package
    let ancestors = vec![
        anc("/r/scripts/enemies", true, false, false),
        anc("/r/scripts", true, false, false),
        anc("/r", false, true, false),
        anc("/", false, false, false),
    ];
    let p = Project::of("/r/scripts/enemies".to_string(), true, &ancestors);
    assert_eq!(p.root, "/r/scripts");
    assert!(p.recursive);
}

#[test]
fn a_lone_file_is_its_folder_alone() {
    let ancestors = vec![anc("/x/y", true, false, false), anc("/x", true, false, false), anc("/", false, false, false)];
    let p = Project::of("/x/y".to_string(), true, &ancestors);
    assert_eq!(p.root, "/x/y");
    assert!(!p.recursive);
    assert_eq!(p.package, None);
    assert_eq!(p.max_depth(), 1);
    // a repository stops the climb too
    let ancestors = vec![anc("/x/y", true, false, false), anc("/x", true, false, true)];
    let p = Project::of("/x/y".to_string(), true, &ancestors);
    assert_eq!(p.root, "/x");
    assert_eq!(p.package, None);
}

#[test]
fn mim_extension() {
    assert!(is_mim("a.mim"));
    assert!(!is_mim(".mim"));
    assert!(!is_mim("a.mimx"));
    assert!(!is_mim("mim"));
    assert!(is_mim("ü.mim"));
}
