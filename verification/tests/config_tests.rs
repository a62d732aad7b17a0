use image_drift_tracker::baseline::BaselineKind;
use image_drift_tracker::cli::ScanArgs;
use image_drift_tracker::config::{
    absolutize, default_excludes, default_includes, expand_tilde, normalize_path, normalize_paths,
    ScanConfig,
};
use image_drift_tracker::path::FsPath;

fn home(h: &str) -> Option<String> {
    Some(h.to_string())
}

fn args(no_defaults: bool, include_paths: Vec<&str>, exclude_paths: Vec<&str>) -> ScanArgs {
    ScanArgs {
        baseline: BaselineKind::RpmOstree,
        baseline_dir: None,
        include_paths: include_paths.into_iter().map(String::from).collect(),
        exclude_paths: exclude_paths.into_iter().map(String::from).collect(),
        no_defaults,
        report_path: None,
        no_report: false,
        diff: false,
        json: false,
        max_items: 50,
        no_color: false,
    }
}

fn shown(v: &[FsPath]) -> Vec<String> {
    v.iter().map(|p| p.to_string()).collect()
}

#[test]
fn tilde_expands_to_home() {
    assert_eq!(expand_tilde("~", &home("/home/u")).to_string(), "/home/u");
    assert_eq!(expand_tilde("~/.config", &home("/home/u")).to_string(), "/home/u/.config");
    assert_eq!(expand_tilde("~/", &home("/home/u")).to_string(), "/home/u");
    assert_eq!(expand_tilde("~//etc", &home("/home/u")).to_string(), "/etc");
    assert_eq!(expand_tilde("~user/x", &home("/home/u")).to_string(), "~user/x");
    assert_eq!(expand_tilde("~/x", &None).to_string(), "~/x");
    assert_eq!(expand_tilde("/etc/~", &home("/home/u")).to_string(), "/etc/~");
}

#[test]
fn relative_paths_are_placed_under_root() {
    assert_eq!(absolutize(FsPath::parse("etc/x")).to_string(), "/etc/x");
    assert_eq!(absolutize(FsPath::parse("/etc/x")).to_string(), "/etc/x");
    assert_eq!(absolutize(FsPath::parse("")).to_string(), "/");
    assert_eq!(normalize_path("~/a", &home("rel/home")).to_string(), "/rel/home/a");
    assert_eq!(normalize_path("opt", &None).to_string(), "/opt");
}

#[test]
fn normalize_keeps_first_occurrence_once() {
    let v: Vec<String> = vec!["/etc", "etc", "/usr/", "~/x", "/home/u/x", "/etc/"].into_iter().map(String::from).collect();
    let r = normalize_paths(&v, &home("/home/u"));
    assert_eq!(shown(&r), vec!["/etc", "/usr", "/home/u/x"]);
}

#[test]
fn default_paths_with_and_without_home() {
    assert_eq!(default_includes(&None), vec!["/etc", "/usr", "/boot", "/usr/local", "/opt"]);
    assert_eq!(
        default_includes(&home("/home/u")),
        vec![
            "/etc", "/usr", "/boot", "/usr/local", "/opt", "/home/u/.config", "/home/u/.local/bin",
            "/home/u/.local/share", "/home/u/.bashrc", "/home/u/.zshrc", "/home/u/.profile",
            "/home/u/.ssh/config",
        ]
    );
    assert_eq!(default_includes(&home("/home/u/"))[5], "/home/u/.config");
    assert_eq!(default_includes(&home(""))[5], ".config");
    assert_eq!(
        default_excludes(&home("/root")),
        vec!["/proc", "/sys", "/dev", "/run", "/tmp", "/var/log", "/var/cache", "/var/lib/containers", "/root/.cache"]
    );
    assert_eq!(default_excludes(&None).len(), 8);
}

#[test]
fn config_from_args_merges_defaults_and_extras() {
    let c = ScanConfig::from_args(&args(false, vec!["/srv", "/etc"], vec!["~/tmp"]), &home("/h"));
    let inc = shown(&c.includes);
    assert_eq!(inc.len(), 13);
    assert_eq!(inc[0], "/etc");
    assert_eq!(inc[5], "/h/.config");
    assert_eq!(inc[12], "/srv");
    let exc = shown(&c.excludes);
    assert_eq!(exc.len(), 10);
    assert_eq!(exc[8], "/h/.cache");
    assert_eq!(exc[9], "/h/tmp");
}

#[test]
fn config_without_defaults_uses_only_given_includes() {
    let c = ScanConfig::from_args(&args(true, vec!["etc", "/etc", "~"], vec!["/srv/x"]), &home("/h"));
    assert_eq!(shown(&c.includes), vec!["/etc", "/h"]);
    assert_eq!(
        shown(&c.excludes),
        vec![
            "/proc", "/sys", "/dev", "/run", "/tmp", "/var/log", "/var/cache", "/var/lib/containers",
            "/h/.cache", "/srv/x",
        ]
    );
}
