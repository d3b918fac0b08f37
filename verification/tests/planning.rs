//! Output-sink planning: each destination policy, decided before any
//! entry is touched.

use ziped::cli::OutputOption;
use ziped::errors::ZipedError;
use ziped::sink::{base_name, join_path, parent_dir, plan_output, probe_target, PathProbe, SinkPlan};

fn absent() -> PathProbe {
    PathProbe { exists: false, is_dir: false }
}

#[test]
fn new_file_policy_fails_when_the_target_exists() {
    let option = OutputOption::Path(String::from("out.zip"));
    let probe = PathProbe { exists: true, is_dir: false };

    let err = plan_output(&option, "in.zip", &probe).unwrap_err();
    match err {
        ZipedError::OutputExists(path) => assert_eq!("out.zip", path),
        other => panic!("unexpected error: {}", other.message()),
    }
    assert_eq!("'out.zip' already exists", ZipedError::OutputExists(String::from("out.zip")).message());
}

#[test]
fn new_file_policy_plans_a_fresh_file() {
    let option = OutputOption::Path(String::from("out.zip"));
    match plan_output(&option, "in.zip", &absent()).unwrap() {
        SinkPlan::CreateFile { path } => assert_eq!("out.zip", path),
        _ => panic!("wrong plan"),
    }
}

#[test]
fn directory_policy_refuses_a_non_directory() {
    let option = OutputOption::Dir(String::from("outdir"));
    let probe = PathProbe { exists: true, is_dir: false };

    let err = plan_output(&option, "in.zip", &probe).unwrap_err();
    match err {
        ZipedError::NotADirectory(path) => assert_eq!("outdir", path),
        other => panic!("unexpected error: {}", other.message()),
    }
}

#[test]
fn directory_policy_places_the_base_name_inside() {
    let option = OutputOption::Dir(String::from("outdir"));
    match plan_output(&option, "deep/path/in.zip", &absent()).unwrap() {
        SinkPlan::CreateDirAndFile { dir, path } => {
            assert_eq!("outdir", dir);
            assert_eq!("outdir/in.zip", path);
        },
        _ => panic!("wrong plan"),
    }
}

#[test]
fn overwrite_policy_plans_a_temporary_in_the_same_directory() {
    match plan_output(&OutputOption::Overwrite, "deep/path/in.zip", &absent()).unwrap() {
        SinkPlan::TempThenRename { dir, target } => {
            assert_eq!("deep/path", dir);
            assert_eq!("deep/path/in.zip", target);
        },
        _ => panic!("wrong plan"),
    }
    match plan_output(&OutputOption::Overwrite, "bare.zip", &absent()).unwrap() {
        SinkPlan::TempThenRename { dir, target } => {
            assert_eq!(".", dir);
            assert_eq!("bare.zip", target);
        },
        _ => panic!("wrong plan"),
    }
}

#[test]
fn no_output_option_is_an_error() {
    let err = plan_output(&OutputOption::Unspecified, "in.zip", &absent()).unwrap_err();
    assert_eq!("Output is not specified", err.message());
}

#[test]
fn probing_is_needed_only_for_paths_and_directories() {
    assert_eq!(
        Some(&String::from("p.zip")),
        probe_target(&OutputOption::Path(String::from("p.zip")))
    );
    assert_eq!(Some(&String::from("d")), probe_target(&OutputOption::Dir(String::from("d"))));
    assert_eq!(None, probe_target(&OutputOption::Unspecified));
    assert_eq!(None, probe_target(&OutputOption::Overwrite));
}

#[test]
fn path_helpers_split_on_the_last_slash() {
    assert_eq!("c.zip", base_name("a/b/c.zip"));
    assert_eq!("c.zip", base_name("c.zip"));
    assert_eq!("", base_name("a/b/"));
    assert_eq!("a/b", parent_dir("a/b/c.zip"));
    assert_eq!(".", parent_dir("c.zip"));
    assert_eq!("x/y", join_path("x", "y"));
}
