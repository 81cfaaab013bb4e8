use mimas::cli::{format_duration, grouped_text, lines_of, massage_args, Unit};
use mimas::project::Project;

fn args(a: &[&str]) -> Vec<String> {
    a.iter().map(|s| s.to_string()).collect()
}

#[test]
fn bare_script_means_run() {
    assert_eq!(massage_args(args(&["mimas", "foo.mim"])), args(&["mimas", "run", "foo.mim"]));
    assert_eq!(
        massage_args(args(&["mimas", "--time", "foo.mim", "x"])),
        args(&["mimas", "--time", "run", "foo.mim", "x"])
    );
    assert_eq!(massage_args(args(&["mimas", "check", "dir"])), args(&["mimas", "check", "dir"]));
    assert_eq!(massage_args(args(&["mimas"])), args(&["mimas"]));
    assert_eq!(massage_args(args(&["mimas", "--help"])), args(&["mimas", "--help"]));
    assert_eq!(massage_args(args(&["mimas", "help"])), args(&["mimas", "help"]));
}

#[test]
fn durations_below_a_second() {
    assert_eq!(format_duration(0), Some("0µs".to_string()));
    assert_eq!(format_duration(999), Some("999µs".to_string()));
    assert_eq!(format_duration(1000), Some("1ms".to_string()));
    assert_eq!(format_duration(999_999), Some("999ms".to_string()));
    assert_eq!(format_duration(1_000_000), None);
}

#[test]
fn lines_count_like_str_lines() {
    for s in ["", "a", "a\n", "a\nb", "\n", "\n\n", "a\r\nb\r\n", "é\nü"] {
        assert_eq!(lines_of(s), s.lines().count(), "{s:?}");
    }
}

fn unit(file: Option<&str>) -> Unit {
    Unit {
        file: file.map(|f| f.to_string()),
        project: Project { root: "p".to_string(), recursive: true, package: None },
        files: vec![
            ("p/a.mim".to_string(), "let a = 1;\nlet b = 2;\n".to_string()),
            ("p/b.mim".to_string(), "print(1)".to_string()),
        ],
        io_errors: vec![],
    }
}

#[test]
fn unit_scripts_and_lines() {
    let u = unit(None);
    assert_eq!(u.lines(), 3);
    assert_eq!(u.scripts(&u.files).len(), 2);
    let u = unit(Some("p/b.mim"));
    let named = u.scripts(&u.files);
    assert_eq!(named, vec![("p/b.mim".to_string(), "print(1)".to_string())]);
}

#[test]
fn counts_group_by_thousands() {
    assert_eq!(grouped_text(0), "0");
    assert_eq!(grouped_text(999), "999");
    assert_eq!(grouped_text(1000), "1,000");
    assert_eq!(grouped_text(1_234_567), "1,234,567");
    assert_eq!(grouped_text(1_000_001), "1,000,001");
    assert_eq!(grouped_text(u64::MAX), "18,446,744,073,709,551,615");
}

#[test]
fn a_file_matches_its_script_component_by_component() {
    let u = unit(Some("p//a.mim"));
    let picked = u.scripts(&u.files);
    assert_eq!(picked.len(), 1);
    assert_eq!(picked[0].0, "p/a.mim");
}

#[test]
fn a_named_file_replaces_its_walked_twin() {
    let walked = vec!["p/a.mim".to_string(), "p/b.mim".to_string(), "p/c.mim".to_string()];
    let with = mimas::cli::unit_paths(&walked, &Some("p/b.mim".to_string()));
    assert_eq!(with, vec!["p/b.mim".to_string(), "p/a.mim".to_string(), "p/c.mim".to_string()]);
    let same = mimas::cli::unit_paths(&walked, &Some("p//b.mim".to_string()));
    assert_eq!(same, vec!["p//b.mim".to_string(), "p/a.mim".to_string(), "p/c.mim".to_string()]);
    let other = mimas::cli::unit_paths(&walked, &Some("q/x.txt".to_string()));
    assert_eq!(other.len(), 4);
    assert_eq!(other[0], "q/x.txt");
    assert_eq!(mimas::cli::unit_paths(&walked, &None), walked);
}
