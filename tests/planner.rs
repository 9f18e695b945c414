use hybrid_mount::inventory::Module;
use hybrid_mount::planner::{generate, Layer};
use hybrid_mount::policy::{ModuleSettings, MountMode};

fn module(id: &str, parts: &[&str]) -> Module {
    Module {
        id: id.to_string(),
        source_path: format!("/m/{}", id),
        partitions: parts.iter().map(|p| p.to_string()).collect(),
        mode: "auto".to_string(),
    }
}

fn dirs_all(ms: &[Module]) -> Vec<Vec<bool>> {
    ms.iter().map(|m| vec![true; m.partitions.len()]).collect()
}

#[test]
fn higher_id_layer_comes_first() {
    let ms = vec![module("20-beta", &["system"]), module("10-alpha", &["system"])];
    let plan = generate(&ms, &ModuleSettings::default(), &dirs_all(&ms));
    assert_eq!(plan.overlay_targets.len(), 1);
    let g = &plan.overlay_targets[0];
    assert_eq!(g.partition, "system");
    let srcs: Vec<String> = g.lowerdirs.iter().map(|l| l.source()).collect();
    assert_eq!(srcs, vec!["/m/20-beta/system".to_string(), "/m/10-alpha/system".to_string()]);
    assert!(plan.magic_targets.is_empty());
    assert!(plan.hymo_targets.is_empty());
}

#[test]
fn magic_override_stays_out_of_overlay() {
    let mut s = ModuleSettings::default();
    s.set_mode("zzz".to_string(), Some("vendor".to_string()), MountMode::Magic);
    let ms = vec![module("zzz", &["system", "vendor"])];
    let plan = generate(&ms, &s, &dirs_all(&ms));
    assert_eq!(plan.magic_targets.len(), 1);
    assert_eq!(plan.magic_targets[0].source(), "/m/zzz/vendor");
    assert_eq!(plan.magic_targets[0].target(), "/vendor");
    assert_eq!(plan.overlay_targets.len(), 1);
    assert_eq!(plan.overlay_targets[0].partition, "system");
    assert!(plan.overlay_targets.iter().all(|g| g.partition != "vendor"));
}

#[test]
fn magic_and_hymo_lists_ascend() {
    let mut s = ModuleSettings::default();
    for id in ["c", "b", "a"] {
        s.set_mode(id.to_string(), None, MountMode::Hymo);
    }
    s.set_mode("c".to_string(), Some("odm".to_string()), MountMode::Magic);
    s.set_mode("a".to_string(), Some("odm".to_string()), MountMode::Magic);
    let ms = vec![module("c", &["system", "odm"]), module("b", &["system"]), module("a", &["system", "odm"])];
    let plan = generate(&ms, &s, &dirs_all(&ms));
    let hymo: Vec<&str> = plan.hymo_targets.iter().map(|l| l.module_id.as_str()).collect();
    assert_eq!(hymo, vec!["a", "b", "c"]);
    let magic: Vec<&str> = plan.magic_targets.iter().map(|l| l.module_id.as_str()).collect();
    assert_eq!(magic, vec!["a", "c"]);
    assert!(plan.overlay_targets.is_empty());
}

#[test]
fn non_directory_source_goes_to_magic() {
    let ms = vec![module("x", &["system", "product"])];
    let plan = generate(&ms, &ModuleSettings::default(), &vec![vec![true, false]]);
    assert_eq!(plan.overlay_targets.len(), 1);
    assert_eq!(plan.overlay_targets[0].partition, "system");
    assert_eq!(plan.magic_targets.len(), 1);
    assert_eq!(plan.magic_targets[0].partition, "product");
}

#[test]
fn generate_twice_gives_same_plan() {
    let ms = vec![module("b", &["system", "vendor"]), module("a", &["vendor"])];
    let s = ModuleSettings::default();
    let first = generate(&ms, &s, &dirs_all(&ms));
    let second = generate(&ms, &s, &dirs_all(&ms));
    let view = |p: &hybrid_mount::planner::MountPlan| -> Vec<(String, Vec<String>)> {
        p.overlay_targets
            .iter()
            .map(|g| (g.partition.clone(), g.lowerdirs.iter().map(Layer::source).collect()))
            .collect()
    };
    assert_eq!(view(&first), view(&second));
    assert_eq!(
        view(&first),
        vec![
            ("system".to_string(), vec!["/m/b/system".to_string()]),
            ("vendor".to_string(), vec!["/m/b/vendor".to_string(), "/m/a/vendor".to_string()]),
        ]
    );
}
