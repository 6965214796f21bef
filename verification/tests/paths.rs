use logic_sim::paths::{Platform, SavePaths};

#[test]
fn save_paths_hang_off_the_root() {
    let p = SavePaths::new("/data");
    assert_eq!(p.root(), "/data");
    assert_eq!(p.projects_path(), ["/data", "Projects"]);
    assert_eq!(p.deleted_projects_path(), ["/data", "Deleted Projects"]);
    assert_eq!(p.app_settings_path(), ["/data", "AppSettings.json"]);
    assert_eq!(p.project_path("GOL"), ["/data", "Projects", "GOL"]);
    assert_eq!(p.deleted_project_path("GOL"), ["/data", "Deleted Projects", "GOL"]);
    assert_eq!(p.chips_path("GOL"), ["/data", "Projects", "GOL", "Chips"]);
    assert_eq!(p.deleted_chips_path("GOL"), ["/data", "Projects", "GOL", "Deleted Chips"]);
    assert_eq!(p.project_description_path("GOL"), ["/data", "Projects", "GOL", "ProjectDescription.json"]);
    assert_eq!(p.chip_file_path("GOL", "AND"), ["/data", "Projects", "GOL", "Chips", "AND.json"]);
}

#[test]
fn the_data_directory_falls_back_to_the_working_directory() {
    assert_eq!(SavePaths::data_dir_for(Some("/home/u/.local/share")), ["/home/u/.local/share", "DigitalLogicSim"]);
    assert_eq!(SavePaths::data_dir_for(None), [".", "DigitalLogicSimData"]);
    let d = SavePaths::default_data_dir();
    assert_eq!(d.len(), 2);
}

#[test]
fn the_persistent_data_directory_follows_the_platform() {
    assert_eq!(
        SavePaths::persistent_data_dir_for(Platform::Other, Some("/home/ada")),
        vec!["/home/ada", ".config", "unity3d", "SebastianLague", "Digital-Logic-Sim"]
    );
    assert_eq!(
        SavePaths::persistent_data_dir_for(Platform::Windows, Some("C:/Users/ada")),
        vec!["C:/Users/ada", "AppData", "LocalLow", "SebastianLague", "Digital-Logic-Sim"]
    );
    assert_eq!(
        SavePaths::persistent_data_dir_for(Platform::MacOs, Some("/Users/ada")),
        vec!["/Users/ada", "Library", "Application Support", "SebastianLague", "Digital-Logic-Sim"]
    );
    assert_eq!(SavePaths::persistent_data_dir_for(Platform::Other, None), vec!["Digital-Logic-Sim"]);
    let here = SavePaths::unity_persistent_data_dir(Platform::Other);
    assert_eq!(here.last().map(|s| s.as_str()), Some("Digital-Logic-Sim"));
}
