use hybrid_mount::policy::{ModuleDTO, ModuleSettings, MountMode, PartitionConfig};

#[test]
fn unknown_module_resolves_to_auto() {
    let s = ModuleSettings::default();
    assert_eq!(s.get_mode("nope", None), MountMode::Auto);
    assert_eq!(s.get_mode("nope", Some("system")), MountMode::Auto);
}

#[test]
fn override_beats_module_default() {
    let mut s = ModuleSettings::default();
    s.set_mode("m".to_string(), None, MountMode::Hymo);
    s.set_mode("m".to_string(), Some("vendor".to_string()), MountMode::Magic);
    assert_eq!(s.get_mode("m", Some("vendor")), MountMode::Magic);
    assert_eq!(s.get_mode("m", Some("system")), MountMode::Hymo);
    assert_eq!(s.get_mode("m", None), MountMode::Hymo);
    assert_eq!(s.get_mode("other", Some("vendor")), MountMode::Auto);
}

#[test]
fn set_mode_upserts_in_place() {
    let mut s = ModuleSettings::default();
    s.set_mode("m".to_string(), Some("system".to_string()), MountMode::Magic);
    s.set_mode("m".to_string(), Some("system".to_string()), MountMode::Overlay);
    assert_eq!(s.modules.len(), 1);
    assert_eq!(s.modules[0].1.partitions.len(), 1);
    assert_eq!(s.get_mode("m", Some("system")), MountMode::Overlay);
    assert_eq!(s.get_mode("m", None), MountMode::Auto);
}

#[test]
fn import_last_write_wins() {
    let mut s = ModuleSettings::default();
    s.set_mode("a".to_string(), Some("odm".to_string()), MountMode::Hymo);
    let first = ModuleDTO {
        id: "a".to_string(),
        config: PartitionConfig {
            default_mode: MountMode::Magic,
            partitions: vec![("system".to_string(), MountMode::Overlay)],
        },
    };
    let second = ModuleDTO {
        id: "a".to_string(),
        config: PartitionConfig {
            default_mode: MountMode::Hymo,
            partitions: vec![("system".to_string(), MountMode::Magic)],
        },
    };
    let third = ModuleDTO { id: "b".to_string(), config: PartitionConfig::default() };
    s.import_from_list(vec![first, second, third]);
    assert_eq!(s.get_mode("a", None), MountMode::Hymo);
    assert_eq!(s.get_mode("a", Some("system")), MountMode::Magic);
    assert_eq!(s.get_mode("a", Some("odm")), MountMode::Hymo);
    assert_eq!(s.get_mode("b", Some("system")), MountMode::Auto);
    assert_eq!(s.modules.len(), 2);
}

#[test]
fn mode_names() {
    assert_eq!(MountMode::Auto.name(), "auto");
    assert_eq!(MountMode::Overlay.name(), "overlay");
    assert_eq!(MountMode::Magic.name(), "magic");
    assert_eq!(MountMode::Hymo.name(), "hymo");
    assert_eq!(MountMode::default(), MountMode::Auto);
}
