//! Where the persisted state lives: a directory of its own under the machine-wide
//! one.

use vstd::prelude::*;
use vstd::string::*;

verus! {

/// What of the platform decides where machine-wide data goes.
#[derive(Debug, PartialEq, Eq)]
pub enum Platform {
    Unix,
    /// `program_data` is the value of the `ProgramData` variable, where it is set.
    Windows { program_data: Option<String> },
}

pub ghost enum PlatformModel {
    Unix,
    Windows { program_data: Option<Seq<char>> },
}

impl DeepView for Platform {
    type V = PlatformModel;

    open spec fn deep_view(&self) -> PlatformModel {
        match *self {
            Platform::Unix => PlatformModel::Unix,
            Platform::Windows { program_data } => PlatformModel::Windows {
                program_data: program_data.deep_view(),
            },
        }
    }
}

/// A path, as a root and the components to join to it in order.
#[derive(Debug, PartialEq, Eq)]
pub struct StoragePath {
    pub root: String,
    pub components: Vec<String>,
}

#[verifier::ext_equal]
pub ghost struct PathModel {
    pub root: Seq<char>,
    pub components: Seq<Seq<char>>,
}

impl DeepView for StoragePath {
    type V = PathModel;

    open spec fn deep_view(&self) -> PathModel {
        PathModel { root: self.root@, components: self.components.deep_view() }
    }
}

/// `p` with one component more.
pub open spec fn below(p: PathModel, component: Seq<char>) -> PathModel {
    PathModel { components: p.components.push(component), ..p }
}

impl StoragePath {
    /// The path of `component` under this one.
    pub fn join(self, component: &str) -> (r: StoragePath)
        ensures
            r.deep_view() == below(self.deep_view(), component@),
    {
        let mut components = self.components;
        let ghost before = components.deep_view();
        components.push(component.to_string());
        assert(components.deep_view() =~= before.push(component@));
        StoragePath { root: self.root, components }
    }
}

/// The `ProgramData` variable is not set.
#[derive(Debug, PartialEq, Eq)]
pub struct ProgramDataUnset;

impl ProgramDataUnset {
    pub fn message(&self) -> (r: String)
        ensures
            r@ == "ProgramData environment variable is not set"@,
    {
        "ProgramData environment variable is not set".to_string()
    }
}

/// The machine-wide directory: none is known on Windows without `ProgramData`.
pub open spec fn machine_dir(platform: PlatformModel) -> Option<PathModel> {
    match platform {
        PlatformModel::Unix => Some(
            PathModel { root: "/var/lib/embarch"@, components: Seq::empty() },
        ),
        PlatformModel::Windows { program_data: Some(root) } => Some(
            PathModel { root, components: seq!["embarch"@] },
        ),
        PlatformModel::Windows { program_data: None } => None,
    }
}

/// The directory that holds every file of this library.
pub open spec fn topology_dir(platform: PlatformModel) -> Option<PathModel> {
    match machine_dir(platform) {
        Some(d) => Some(below(d, "topology"@)),
        None => None,
    }
}

/// The file called `name` in that directory.
pub open spec fn topology_file(platform: PlatformModel, name: Seq<char>) -> Option<PathModel> {
    match topology_dir(platform) {
        Some(d) => Some(below(d, name)),
        None => None,
    }
}

pub open spec fn path_view(r: Result<StoragePath, ProgramDataUnset>) -> Option<PathModel> {
    match r {
        Ok(p) => Some(p.deep_view()),
        Err(_) => None,
    }
}

fn machine_data_dir(platform: &Platform) -> (r: Result<StoragePath, ProgramDataUnset>)
    ensures
        path_view(r) == machine_dir(platform.deep_view()),
{
    match platform {
        Platform::Unix => {
            let components: Vec<String> = Vec::new();
            assert(components.deep_view() =~= Seq::<Seq<char>>::empty());
            Ok(StoragePath { root: "/var/lib/embarch".to_string(), components })
        },
        Platform::Windows { program_data } => match program_data {
            Some(root) => {
                let p = StoragePath { root: root.clone(), components: Vec::new() };
                assert(below(p.deep_view(), "embarch"@).components =~= seq!["embarch"@]);
                Ok(p.join("embarch"))
            },
            None => Err(ProgramDataUnset),
        },
    }
}

/// The directory that every file of this library is in.
pub fn data_dir(platform: &Platform) -> (r: Result<StoragePath, ProgramDataUnset>)
    ensures
        path_view(r) == topology_dir(platform.deep_view()),
{
    match machine_data_dir(platform) {
        Ok(d) => Ok(d.join("topology")),
        Err(e) => Err(e),
    }
}

/// The file that the enrollment table is kept in.
pub fn enrollment_path(platform: &Platform) -> (r: Result<StoragePath, ProgramDataUnset>)
    ensures
        path_view(r) == topology_file(platform.deep_view(), "enrollment.toml"@),
{
    match data_dir(platform) {
        Ok(d) => Ok(d.join("enrollment.toml")),
        Err(e) => Err(e),
    }
}

/// The file that alerts are appended to.
pub fn alert_log_path(platform: &Platform) -> (r: Result<StoragePath, ProgramDataUnset>)
    ensures
        path_view(r) == topology_file(platform.deep_view(), "alerts.jsonl"@),
{
    match data_dir(platform) {
        Ok(d) => Ok(d.join("alerts.jsonl")),
        Err(e) => Err(e),
    }
}

/// Every file is directly in the one directory, on every platform on which that is
/// known, and the two files are not the same.
pub proof fn law_files_are_in_the_directory(platform: PlatformModel, name: Seq<char>)
    ensures
        topology_file(platform, name) is Some <==> topology_dir(platform) is Some,
        topology_file(platform, name) matches Some(p) ==> p.root == topology_dir(platform)->0.root
            && p.components.drop_last() == topology_dir(platform)->0.components
            && p.components.last() == name,
        topology_dir(platform) is None <==> platform == (PlatformModel::Windows {
            program_data: None,
        }),
        "enrollment.toml"@ != "alerts.jsonl"@,
{
    reveal_strlit("enrollment.toml");
    reveal_strlit("alerts.jsonl");
    assert("enrollment.toml"@.len() != "alerts.jsonl"@.len());
    if let Some(p) = topology_file(platform, name) {
        assert(p.components.drop_last() =~= topology_dir(platform)->0.components);
    }
}

/// The directory is `/var/lib/embarch/topology` where there is no `ProgramData`, and
/// `embarch` and `topology` under it on Windows.
pub proof fn law_directory_is_the_documented_one(program_data: Seq<char>)
    ensures
        topology_dir(PlatformModel::Unix) == Some(
            PathModel { root: "/var/lib/embarch"@, components: seq!["topology"@] },
        ),
        topology_dir(PlatformModel::Windows { program_data: Some(program_data) }) == Some(
            PathModel { root: program_data, components: seq!["embarch"@, "topology"@] },
        ),
{
    assert(topology_dir(PlatformModel::Unix)->0.components =~= seq!["topology"@]);
    assert(topology_dir(
        PlatformModel::Windows { program_data: Some(program_data) },
    )->0.components =~= seq!["embarch"@, "topology"@]);
}

} // verus!
