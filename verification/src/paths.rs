//! Where saved data lives: a `Projects/` directory of named project
//! folders (each with `ProjectDescription.json` and a `Chips/` folder),
//! their `Deleted ...` counterparts, and `AppSettings.json`, all under one
//! root directory. A path is given as its components, root first, each
//! joined onto the previous one by the host.
use vstd::prelude::*;
use crate::project::texts;

verus! {

/// Layout of the saved data under `root`.
#[derive(Debug, Clone, PartialEq, Eq)]
pub struct SavePaths {
    pub root: String,
}

/// The path made of `root` then `parts`.
pub open spec fn path_of(root: Seq<char>, parts: Seq<Seq<char>>) -> Seq<Seq<char>> {
    seq![root] + parts
}

/// The platform's data directory (`dirs::data_dir`), if it can be
/// determined (the current user's environment decides it). Paths are held
/// as text here: a directory whose path is not valid UTF-8 comes back with
/// its invalid parts replaced by U+FFFD (`to_string_lossy`).
#[verifier::external_body]
fn platform_data_dir() -> (r: Option<String>) {
    dirs::data_dir().map(|d| d.to_string_lossy().into_owned())
}

/// The current user's home directory (`dirs::home_dir`), if it can be
/// determined (the user's environment decides it). Paths are held as text
/// here: a home directory whose path is not valid UTF-8 comes back with its
/// invalid parts replaced by U+FFFD (`to_string_lossy`).
#[verifier::external_body]
fn home_dir() -> (r: Option<String>) {
    dirs::home_dir().map(|d| d.to_string_lossy().into_owned())
}

/// The operating systems whose per-user persistent-data locations differ.
#[derive(Debug, Clone, Copy, PartialEq, Eq, Structural)]
pub enum Platform {
    Windows,
    MacOs,
    /// Linux and every other system.
    Other,
}

/// Where, under the home directory, the game keeps its persistent data on
/// `platform`.
pub open spec fn persistent_data_subpath(platform: Platform) -> Seq<Seq<char>> {
    match platform {
        Platform::Windows => seq!["AppData"@, "LocalLow"@, "SebastianLague"@, "Digital-Logic-Sim"@],
        Platform::MacOs => seq!["Library"@, "Application Support"@, "SebastianLague"@, "Digital-Logic-Sim"@],
        Platform::Other => seq![".config"@, "unity3d"@, "SebastianLague"@, "Digital-Logic-Sim"@],
    }
}

/// The persistent-data directory for the home directory `home`:
/// the platform's location under it, or `Digital-Logic-Sim` (relative to
/// the working directory) when there is no home directory.
pub open spec fn persistent_data_dir_in(platform: Platform, home: Option<Seq<char>>) -> Seq<Seq<char>> {
    match home {
        Some(h) => seq![h] + persistent_data_subpath(platform),
        None => seq!["Digital-Logic-Sim"@],
    }
}

fn path(parts: &[&str]) -> (r: Vec<String>)
    ensures
        texts(r@) == parts@.map_values(|p: &str| p@),
{
    let mut v: Vec<String> = Vec::new();
    let mut i: usize = 0;
    while i < parts.len()
        invariant
            i <= parts@.len(),
            texts(v@) =~= parts@.subrange(0, i as int).map_values(|p: &str| p@),
        decreases parts.len() - i,
    {
        let ghost before = v@;
        v.push(parts[i].to_string());
        assert(texts(v@) =~= texts(before).push(parts@[i as int]@));
        assert(parts@.subrange(0, i + 1).map_values(|p: &str| p@) =~= parts@.subrange(0, i as int).map_values(
            |p: &str| p@,
        ).push(parts@[i as int]@));
        i = i + 1;
    }
    assert(parts@.subrange(0, i as int) =~= parts@);
    v
}

impl SavePaths {
    pub fn new(root: &str) -> (p: Self)
        ensures
            p.root@ == root@,
    {
        Self { root: root.to_string() }
    }

    /// The data directory given the platform's data directory, if any:
    /// `DigitalLogicSim` inside it, or `./DigitalLogicSimData` when there is
    /// none.
    pub fn data_dir_for(platform_dir: Option<&str>) -> (r: Vec<String>)
        ensures
            match platform_dir {
                Some(d) => texts(r@) == seq![d@, "DigitalLogicSim"@],
                None => texts(r@) == seq!["."@, "DigitalLogicSimData"@],
            },
    {
        match platform_dir {
            Some(d) => {
                let r = path(&[d, "DigitalLogicSim"]);
                assert(texts(r@) =~= seq![d@, "DigitalLogicSim"@]);
                r
            },
            None => {
                let r = path(&[".", "DigitalLogicSimData"]);
                assert(texts(r@) =~= seq!["."@, "DigitalLogicSimData"@]);
                r
            },
        }
    }

    /// A default data directory: `DigitalLogicSim` in the platform data
    /// directory, or `./DigitalLogicSimData` when there is none.
    pub fn default_data_dir() -> (r: Vec<String>)
        ensures
            texts(r@) == seq!["."@, "DigitalLogicSimData"@] || (r@.len() == 2 && r@[1]@ == "DigitalLogicSim"@),
    {
        match platform_data_dir() {
            Some(d) => Self::data_dir_for(Some(d.as_str())),
            None => Self::data_dir_for(None),
        }
    }

    /// The persistent-data directory of the game on `platform` for the
    /// home directory `home`, where its saved projects live.
    pub fn persistent_data_dir_for(platform: Platform, home: Option<&str>) -> (r: Vec<String>)
        ensures
            texts(r@) == persistent_data_dir_in(
                platform,
                match home {
                    Some(h) => Some(h@),
                    None => None,
                },
            ),
    {
        match home {
            Some(h) => {
                let r = match platform {
                    Platform::Windows => path(&[h, "AppData", "LocalLow", "SebastianLague", "Digital-Logic-Sim"]),
                    Platform::MacOs => path(&[h, "Library", "Application Support", "SebastianLague", "Digital-Logic-Sim"]),
                    Platform::Other => path(&[h, ".config", "unity3d", "SebastianLague", "Digital-Logic-Sim"]),
                };
                assert(texts(r@) =~= seq![h@] + persistent_data_subpath(platform));
                r
            },
            None => {
                let r = path(&["Digital-Logic-Sim"]);
                assert(texts(r@) =~= seq!["Digital-Logic-Sim"@]);
                r
            },
        }
    }

    /// The persistent-data directory of the game on `platform`, for the
    /// current user's home directory (the user's environment decides which
    /// it is).
    pub fn unity_persistent_data_dir(platform: Platform) -> (r: Vec<String>)
        ensures
            texts(r@) == persistent_data_dir_in(platform, None) || exists|h: Seq<char>|
                texts(r@) == #[trigger] persistent_data_dir_in(platform, Some(h)),
    {
        match home_dir() {
            Some(h) => {
                let r = Self::persistent_data_dir_for(platform, Some(h.as_str()));
                assert(texts(r@) == persistent_data_dir_in(platform, Some(h@)));
                r
            },
            None => Self::persistent_data_dir_for(platform, None),
        }
    }

    pub fn root(&self) -> (r: &str)
        ensures
            r@ == self.root@,
    {
        self.root.as_str()
    }

    /// `<root>/Projects`.
    pub fn projects_path(&self) -> (r: Vec<String>)
        ensures
            texts(r@) == path_of(self.root@, seq!["Projects"@]),
    {
        let r = path(&[self.root.as_str(), "Projects"]);
        assert(texts(r@) =~= path_of(self.root@, seq!["Projects"@]));
        r
    }

    /// `<root>/Deleted Projects`.
    pub fn deleted_projects_path(&self) -> (r: Vec<String>)
        ensures
            texts(r@) == path_of(self.root@, seq!["Deleted Projects"@]),
    {
        let r = path(&[self.root.as_str(), "Deleted Projects"]);
        assert(texts(r@) =~= path_of(self.root@, seq!["Deleted Projects"@]));
        r
    }

    /// `<root>/AppSettings.json`.
    pub fn app_settings_path(&self) -> (r: Vec<String>)
        ensures
            texts(r@) == path_of(self.root@, seq!["AppSettings.json"@]),
    {
        let r = path(&[self.root.as_str(), "AppSettings.json"]);
        assert(texts(r@) =~= path_of(self.root@, seq!["AppSettings.json"@]));
        r
    }

    /// `<root>/Projects/<project_name>`.
    pub fn project_path(&self, project_name: &str) -> (r: Vec<String>)
        ensures
            texts(r@) == path_of(self.root@, seq!["Projects"@, project_name@]),
    {
        let r = path(&[self.root.as_str(), "Projects", project_name]);
        assert(texts(r@) =~= path_of(self.root@, seq!["Projects"@, project_name@]));
        r
    }

    /// `<root>/Deleted Projects/<project_name>`.
    pub fn deleted_project_path(&self, project_name: &str) -> (r: Vec<String>)
        ensures
            texts(r@) == path_of(self.root@, seq!["Deleted Projects"@, project_name@]),
    {
        let r = path(&[self.root.as_str(), "Deleted Projects", project_name]);
        assert(texts(r@) =~= path_of(self.root@, seq!["Deleted Projects"@, project_name@]));
        r
    }

    /// `<root>/Projects/<project_name>/Chips`.
    pub fn chips_path(&self, project_name: &str) -> (r: Vec<String>)
        ensures
            texts(r@) == path_of(self.root@, seq!["Projects"@, project_name@, "Chips"@]),
    {
        let r = path(&[self.root.as_str(), "Projects", project_name, "Chips"]);
        assert(texts(r@) =~= path_of(self.root@, seq!["Projects"@, project_name@, "Chips"@]));
        r
    }

    /// `<root>/Projects/<project_name>/Deleted Chips`.
    pub fn deleted_chips_path(&self, project_name: &str) -> (r: Vec<String>)
        ensures
            texts(r@) == path_of(self.root@, seq!["Projects"@, project_name@, "Deleted Chips"@]),
    {
        let r = path(&[self.root.as_str(), "Projects", project_name, "Deleted Chips"]);
        assert(texts(r@) =~= path_of(self.root@, seq!["Projects"@, project_name@, "Deleted Chips"@]));
        r
    }

    /// `<root>/Projects/<project_name>/ProjectDescription.json`.
    pub fn project_description_path(&self, project_name: &str) -> (r: Vec<String>)
        ensures
            texts(r@) == path_of(self.root@, seq!["Projects"@, project_name@, "ProjectDescription.json"@]),
    {
        let r = path(&[self.root.as_str(), "Projects", project_name, "ProjectDescription.json"]);
        assert(texts(r@) =~= path_of(self.root@, seq!["Projects"@, project_name@, "ProjectDescription.json"@]));
        r
    }

    /// `<root>/Projects/<project_name>/Chips/<chip_name>.json`.
    pub fn chip_file_path(&self, project_name: &str, chip_name: &str) -> (r: Vec<String>)
        ensures
            texts(r@) == path_of(self.root@, seq!["Projects"@, project_name@, "Chips"@, chip_name@ + ".json"@]),
    {
        let mut file = chip_name.to_string();
        file.append(".json");
        let r = path(&[self.root.as_str(), "Projects", project_name, "Chips", file.as_str()]);
        assert(texts(r@) =~= path_of(self.root@, seq!["Projects"@, project_name@, "Chips"@, chip_name@ + ".json"@]));
        r
    }
}

} // verus!
