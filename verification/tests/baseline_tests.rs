use image_drift_tracker::baseline::{
    deploy_root, deployment_target, match_deployment_dir, resolve_baseline,
    resolve_deployment_root, select_deployment, BaselineError, BaselineKind, Deployment,
    DeploymentTarget, DirListing,
};
use image_drift_tracker::path::FsPath;

fn dep(booted: Option<bool>, osname: Option<&str>, checksum: Option<&str>, base: Option<&str>) -> Deployment {
    Deployment {
        booted,
        osname: osname.map(String::from),
        checksum: checksum.map(String::from),
        base_checksum: base.map(String::from),
    }
}

fn listing(items: &[(&str, bool)]) -> Vec<DirListing> {
    items.iter().map(|(n, d)| DirListing { name: n.to_string(), is_dir: *d }).collect()
}

#[test]
fn kind_names() {
    assert_eq!(BaselineKind::RpmOstree.as_str(), "rpm-ostree");
    assert_eq!(BaselineKind::Dir.as_str(), "dir");
}

#[test]
fn dir_baseline_needs_an_existing_dir() {
    assert!(matches!(resolve_baseline(BaselineKind::Dir, None, false, None), Err(BaselineError::MissingBaselineDir)));
    match resolve_baseline(BaselineKind::Dir, Some("./b/".to_string()), false, None) {
        Err(BaselineError::BaselineDirNotFound(p)) => assert_eq!(p, "./b/"),
        _ => panic!("expected a missing directory"),
    }
    let b = resolve_baseline(BaselineKind::Dir, Some("/b/".to_string()), true, None).ok().unwrap();
    assert_eq!(b.kind, BaselineKind::Dir);
    assert_eq!(b.root.to_string(), "/b");
    assert_eq!(b.root_text, "/b/");
}

#[test]
fn ostree_baseline_uses_found_root() {
    let b = resolve_baseline(BaselineKind::RpmOstree, None, false, Some(FsPath::parse("/sysroot/x"))).ok().unwrap();
    assert_eq!(b.kind, BaselineKind::RpmOstree);
    assert_eq!(b.root.to_string(), "/sysroot/x");
    assert_eq!(b.root_text, "/sysroot/x");
    assert!(matches!(resolve_baseline(BaselineKind::RpmOstree, None, false, None), Err(BaselineError::OstreeRootUnavailable)));
}

#[test]
fn booted_deployment_is_preferred() {
    let ds = vec![dep(Some(false), None, None, None), dep(None, None, None, None), dep(Some(true), None, None, None), dep(Some(true), None, None, None)];
    assert_eq!(select_deployment(&ds), Some(2));
    let ds = vec![dep(Some(false), None, None, None), dep(None, None, None, None)];
    assert_eq!(select_deployment(&ds), Some(0));
    assert_eq!(select_deployment(&Vec::new()), None);
}

#[test]
fn deployment_target_checks_fields() {
    assert!(matches!(deployment_target(&Vec::new()), Err(BaselineError::NoDeployments)));
    assert!(matches!(deployment_target(&vec![dep(Some(true), None, Some("c"), None)]), Err(BaselineError::MissingOsname)));
    assert!(matches!(deployment_target(&vec![dep(Some(true), Some("fedora"), None, None)]), Err(BaselineError::MissingChecksum)));
    let t = deployment_target(&vec![dep(Some(false), Some("a"), Some("1"), None), dep(Some(true), Some("fedora"), None, Some("b"))]).ok().unwrap();
    assert_eq!(t.osname, "fedora");
    assert!(t.checksum.is_none());
    assert_eq!(t.base_checksum.as_deref(), Some("b"));
}

#[test]
fn deploy_root_path() {
    assert_eq!(deploy_root("fedora").to_string(), "/sysroot/ostree/deploy/fedora/deploy");
}

#[test]
fn smallest_matching_directory_wins() {
    let l = listing(&[("abc.1", true), ("abc.0", true), ("abd.0", true), ("abc.00", false), ("xyz", true)]);
    assert_eq!(match_deployment_dir(&l, "abc"), Some(1));
    assert_eq!(match_deployment_dir(&l, "zzz"), None);
    assert_eq!(match_deployment_dir(&l, ""), Some(1));
    assert_eq!(match_deployment_dir(&l, "abd"), Some(2));
}

#[test]
fn base_checksum_is_the_fallback() {
    let root = FsPath::parse("/sysroot/ostree/deploy/os/deploy");
    let l = listing(&[("base1.0", true), ("other.0", true)]);
    let t = DeploymentTarget { osname: "os".to_string(), checksum: Some("main".to_string()), base_checksum: Some("base1".to_string()) };
    let c = resolve_deployment_root(&t, &root, &l).ok().unwrap();
    assert!(c.via_base);
    assert_eq!(c.root.to_string(), "/sysroot/ostree/deploy/os/deploy/base1.0");

    let t = DeploymentTarget { osname: "os".to_string(), checksum: Some("other".to_string()), base_checksum: Some("base1".to_string()) };
    let c = resolve_deployment_root(&t, &root, &l).ok().unwrap();
    assert!(!c.via_base);
    assert_eq!(c.root.to_string(), "/sysroot/ostree/deploy/os/deploy/other.0");

    let t = DeploymentTarget { osname: "os".to_string(), checksum: Some("nope".to_string()), base_checksum: Some("nope".to_string()) };
    match resolve_deployment_root(&t, &root, &l) {
        Err(BaselineError::NoDeploymentDir { checksum, deploy_root }) => {
            assert_eq!(checksum, "nope");
            assert_eq!(deploy_root.to_string(), "/sysroot/ostree/deploy/os/deploy");
        },
        _ => panic!("expected no match"),
    }

    let t = DeploymentTarget { osname: "os".to_string(), checksum: None, base_checksum: Some("base1".to_string()) };
    let c = resolve_deployment_root(&t, &root, &l).ok().unwrap();
    assert!(!c.via_base);
    assert_eq!(c.root.to_string(), "/sysroot/ostree/deploy/os/deploy/base1.0");

    let t = DeploymentTarget { osname: "os".to_string(), checksum: None, base_checksum: None };
    assert!(matches!(resolve_deployment_root(&t, &root, &l), Err(BaselineError::MissingChecksum)));
}
