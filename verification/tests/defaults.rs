use logic_sim::project::{
    default_chip_collections_for, default_starred_list, new_project_description, stamp_for_save, with_directory_name,
    ProjectDescription,
};

/// Fresh projects list the dev-only builtins only when asked to (debug
/// builds), while the regular chips are there either way.
#[test]
fn dev_builtins_are_palette_entries_in_debug_builds_only() {
    for include_dev in [false, true] {
        let names: Vec<String> = default_chip_collections_for(include_dev).iter().flat_map(|c| c.chips.iter().cloned()).collect();
        let listed = |name: &str| names.iter().any(|n| n.eq_ignore_ascii_case(name));

        assert_eq!(listed("dev.RAM-8"), include_dev);
        assert_eq!(listed("BUS-TERMINUS-1"), include_dev);
        assert_eq!(listed("BUS-TERMINUS-4"), include_dev);
        assert_eq!(listed("BUS-TERMINUS-8"), include_dev);
        assert!(listed("BUS-1") && listed("BUS-4") && listed("BUS-8"));
        assert!(listed("ROM 256\u{d7}16"));
    }
}

#[test]
fn default_palette_has_its_six_collections_in_order() {
    let collections = default_chip_collections_for(false);
    let names: Vec<&str> = collections.iter().map(|c| c.name.as_str()).collect();
    assert_eq!(names, ["BASIC", "IN/OUT", "MERGE/SPLIT", "BUS", "DISPLAY", "MEMORY"]);
    assert_eq!(collections[0].chips.len(), 7);
    assert_eq!(collections[0].chips[0], "NAND");
    assert_eq!(collections[1].chips, ["IN-1", "IN-4", "IN-8", "OUT-1", "OUT-4", "OUT-8"]);
    assert!(collections.iter().all(|c| !c.is_toggled_open));
}

#[test]
fn default_starred_items_are_the_in_out_collection_and_nand() {
    let starred = default_starred_list();
    assert_eq!(starred.len(), 2);
    assert_eq!(starred[0].name, "IN/OUT");
    assert!(starred[0].is_collection);
    assert_eq!(starred[1].name, "NAND");
    assert!(!starred[1].is_collection);
}

#[test]
fn a_new_project_carries_the_defaults() {
    let d = new_project_description("GOL", "2024-01-01T00:00:00.000Z".to_string(), false);
    assert_eq!(d.project_name, "GOL");
    assert_eq!(d.dls_version_last_saved, "2.1.6");
    assert_eq!(d.dls_version_earliest_compatible, "2.0.0");
    assert_eq!(d.creation_time, "2024-01-01T00:00:00.000Z");
    assert_eq!(d.prefs_chip_pin_names_display_mode, 1);
    assert_eq!(d.prefs_main_pin_names_display_mode, 1);
    assert_eq!(d.prefs_sim_target_steps_per_second, 1000);
    assert_eq!(d.prefs_sim_steps_per_clock_tick, 250);
    assert!(!d.prefs_sim_paused);
    assert!(d.prefs_use_caching);
    assert!(d.all_custom_chip_names.is_empty());
    assert_eq!(d.starred_list.len(), 2);
    assert_eq!(d.chip_collections.len(), 6);
}

#[test]
fn saving_stamps_time_and_version_but_not_the_earliest_compatible_version() {
    let mut d = ProjectDescription::default();
    d.dls_version_earliest_compatible = "2.0.0".to_string();
    d.dls_version_last_saved = "2.1.4".to_string();
    stamp_for_save(&mut d, "2025-05-10T19:41:18.761Z".to_string());
    assert_eq!(d.last_save_time, "2025-05-10T19:41:18.761Z");
    assert_eq!(d.dls_version_last_saved, "2.1.6");
    assert_eq!(d.dls_version_earliest_compatible, "2.0.0");
    with_directory_name(&mut d, "Renamed Folder");
    assert_eq!(d.project_name, "Renamed Folder");
}
