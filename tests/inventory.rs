use hybrid_mount::inventory::{scan, scan_order, Candidate};
use hybrid_mount::policy::{ModuleSettings, MountMode};

fn cand(name: &str, marker: bool, parts: &[&str]) -> Candidate {
    Candidate {
        name: name.to_string(),
        path: format!("/data/adb/modules/{}", name),
        is_dir: true,
        has_marker: marker,
        partitions: parts.iter().map(|p| p.to_string()).collect(),
    }
}

#[test]
fn marked_module_is_never_scanned() {
    let s = ModuleSettings::default();
    let cs = vec![cand("b", true, &["system", "vendor"]), cand("a", false, &["system"])];
    let ms = scan(&cs, &s);
    assert_eq!(ms.len(), 1);
    assert_eq!(ms[0].id, "a");
    assert_eq!(ms[0].source_path, "/data/adb/modules/a");
    assert_eq!(ms[0].partitions, vec!["system".to_string()]);
}

#[test]
fn reserved_files_and_empty_modules_are_dropped() {
    let mut s = ModuleSettings::default();
    s.set_mode("keep".to_string(), None, MountMode::Magic);
    let mut file = cand("file", false, &["system"]);
    file.is_dir = false;
    let cs = vec![
        cand("meta-hybrid", false, &["system"]),
        cand("lost+found", false, &["system"]),
        cand(".git", false, &["system"]),
        file,
        cand("empty", false, &[]),
        cand("keep", false, &["vendor"]),
    ];
    let ms = scan(&cs, &s);
    assert_eq!(ms.len(), 1);
    assert_eq!(ms[0].id, "keep");
    assert_eq!(ms[0].mode, "magic");
}

#[test]
fn scan_order_is_descending() {
    let names = vec!["10-alpha".to_string(), "30-gamma".to_string(), "20-beta".to_string()];
    assert_eq!(
        scan_order(names),
        vec!["30-gamma".to_string(), "20-beta".to_string(), "10-alpha".to_string()]
    );
    assert!(scan_order(Vec::new()).is_empty());
}
