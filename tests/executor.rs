use hybrid_mount::executor::{
    finish, hymo_attempts, magic_queue, magic_roots, merge_fallbacks, route_hymo, satisfied_layers,
    settle_overlay,
};
use hybrid_mount::inventory::Module;
use hybrid_mount::planner::generate;
use hybrid_mount::policy::{ModuleSettings, MountMode};

fn module(id: &str, parts: &[&str]) -> Module {
    Module {
        id: id.to_string(),
        source_path: format!("/m/{}", id),
        partitions: parts.iter().map(|p| p.to_string()).collect(),
        mode: "auto".to_string(),
    }
}

#[test]
fn unavailable_hymo_falls_back_to_overlay() {
    let mut s = ModuleSettings::default();
    s.set_mode("hy1".to_string(), Some("system".to_string()), MountMode::Hymo);
    let ms = vec![module("hy1", &["system"])];
    let plan = generate(&ms, &s, &vec![vec![true]]);
    assert_eq!(plan.hymo_targets.len(), 1);
    assert!(hymo_attempts(&plan, false).is_empty());
    let hymo = route_hymo(&plan, false, &Vec::new(), &vec![true]);
    assert!(hymo.injected.is_empty());
    assert_eq!(hymo.to_overlay.len(), 1);
    let groups = merge_fallbacks(plan.overlay_targets, &hymo.to_overlay);
    assert_eq!(groups.len(), 1);
    assert_eq!(groups[0].partition, "system");
    let ov = settle_overlay(&groups, &vec![true], &vec![true]);
    let queue = magic_queue(&generate(&ms, &s, &vec![vec![true]]), &hymo, &ov);
    assert!(queue.is_empty());
    let r = finish(&queue, &hymo, &ov, true);
    assert_eq!(r.overlay_module_ids, vec!["hy1".to_string()]);
    assert!(r.hymo_module_ids.is_empty());
    assert!(r.magic_module_ids.is_empty());
}

#[test]
fn failed_partition_retracts_module_overlay_credit() {
    let ms = vec![module("m", &["system", "product"]), module("k", &["system"])];
    let s = ModuleSettings::default();
    let plan = generate(&ms, &s, &vec![vec![true, true], vec![true]]);
    let hymo = route_hymo(&plan, true, &Vec::new(), &Vec::new());
    let groups = merge_fallbacks(plan.overlay_targets, &hymo.to_overlay);
    assert_eq!(groups[0].partition, "system");
    assert_eq!(groups[1].partition, "product");
    let ov = settle_overlay(&groups, &vec![true, true], &vec![true, false]);
    assert_eq!(ov.mounted.len(), 2);
    assert_eq!(ov.failed.len(), 1);
    let queue = magic_queue(&generate(&ms, &s, &vec![vec![true, true], vec![true]]), &hymo, &ov);
    assert_eq!(queue.len(), 1);
    let r = finish(&queue, &hymo, &ov, true);
    assert_eq!(r.overlay_module_ids, vec!["k".to_string()]);
    assert_eq!(r.magic_module_ids, vec!["m".to_string()]);
    assert_eq!(magic_roots(&queue), vec!["/m/m".to_string()]);
    let done = satisfied_layers(&hymo, &ov);
    let pairs: Vec<(String, String)> = done.iter().map(|l| (l.root.clone(), l.partition.clone())).collect();
    assert_eq!(pairs, vec![("/m/m".to_string(), "system".to_string()), ("/m/k".to_string(), "system".to_string())]);
}

#[test]
fn injection_outcomes_route_each_target() {
    let mut s = ModuleSettings::default();
    for id in ["a", "b", "c"] {
        s.set_mode(id.to_string(), None, MountMode::Hymo);
    }
    let ms = vec![module("c", &["system"]), module("b", &["system"]), module("a", &["system"])];
    let plan = generate(&ms, &s, &vec![vec![true], vec![true], vec![true]]);
    assert_eq!(hymo_attempts(&plan, true).len(), 3);
    let hymo = route_hymo(&plan, true, &vec![true, false, false], &vec![true, true, false]);
    let ids = |v: &Vec<hybrid_mount::planner::Layer>| -> Vec<String> { v.iter().map(|l| l.module_id.clone()).collect() };
    assert_eq!(ids(&hymo.injected), vec!["a".to_string()]);
    assert_eq!(ids(&hymo.to_overlay), vec!["b".to_string()]);
    assert_eq!(ids(&hymo.to_magic), vec!["c".to_string()]);
    let groups = merge_fallbacks(Vec::new(), &hymo.to_overlay);
    let ov = settle_overlay(&groups, &vec![false], &vec![false]);
    assert!(ov.mounted.is_empty());
    assert!(ov.failed.is_empty());
    assert_eq!(ids(&ov.to_magic), vec!["b".to_string()]);
    let queue = magic_queue(&plan, &hymo, &ov);
    assert_eq!(magic_roots(&queue), vec!["/m/b".to_string(), "/m/c".to_string()]);
    let r = finish(&queue, &hymo, &ov, false);
    assert!(r.magic_module_ids.is_empty());
    assert_eq!(r.hymo_module_ids, vec!["a".to_string()]);
    assert!(r.overlay_module_ids.is_empty());
    let r2 = finish(&queue, &hymo, &ov, true);
    assert_eq!(r2.magic_module_ids, vec!["b".to_string(), "c".to_string()]);
}

#[test]
fn empty_plan_reports_nothing() {
    let plan = generate(&Vec::new(), &ModuleSettings::default(), &Vec::new());
    let hymo = route_hymo(&plan, false, &Vec::new(), &Vec::new());
    let ov = settle_overlay(&plan.overlay_targets, &Vec::new(), &Vec::new());
    let queue = magic_queue(&plan, &hymo, &ov);
    assert!(queue.is_empty());
    assert!(magic_roots(&queue).is_empty());
    let r = finish(&queue, &hymo, &ov, true);
    assert!(r.overlay_module_ids.is_empty());
    assert!(r.magic_module_ids.is_empty());
    assert!(r.hymo_module_ids.is_empty());
}
