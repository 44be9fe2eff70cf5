//! Decisions around updates and fingerprint libraries: what to update, which
//! file to download, which library to load, and what each download reports.
use vstd::prelude::*;
use crate::messages::MessageLog;
use crate::text::{chars_of, concat2, concat3, decimal, decimal_string, ends_with, ends_with_text, same_text};

verus! {

broadcast use vstd::string::group_string_axioms;

/// One update that can be asked for.
#[derive(Debug, Clone, Copy, PartialEq, Eq)]
pub enum UpdateAction {
    /// Download the web fingerprint library and the plugin tags.
    Fingerprint,
    /// Download the newest release of this program.
    SelfUpdate,
    /// Download and unpack the plugin templates.
    Plugins,
}

/// The updates asked for, in the order they run.
pub open spec fn update_actions_spec(fingerprint: bool, self_update: bool, plugins: bool) -> Seq<
    UpdateAction,
> {
    (if fingerprint {
        seq![UpdateAction::Fingerprint]
    } else {
        Seq::empty()
    }) + (if self_update {
        seq![UpdateAction::SelfUpdate]
    } else {
        Seq::empty()
    }) + (if plugins {
        seq![UpdateAction::Plugins]
    } else {
        Seq::empty()
    })
}

/// The updates to run: the fingerprint library, then this program, then the
/// plugins, each only where asked for.
pub fn update_actions(fingerprint: bool, self_update: bool, plugins: bool) -> (res: Vec<
    UpdateAction,
>)
    ensures
        res@ == update_actions_spec(fingerprint, self_update, plugins),
{
    let mut v: Vec<UpdateAction> = Vec::new();
    if fingerprint {
        v.push(UpdateAction::Fingerprint);
    }
    if self_update {
        v.push(UpdateAction::SelfUpdate);
    }
    if plugins {
        v.push(UpdateAction::Plugins);
    }
    assert(v@ == update_actions_spec(fingerprint, self_update, plugins));
    v
}

/// The release file of this program for an operating system and CPU
/// architecture, named as Rust names them (`std::env::consts`).
pub open spec fn release_name(os: Seq<char>, arch: Seq<char>) -> Seq<char> {
    if os == "windows"@ {
        "observer_ward.exe"@
    } else if os == "linux"@ {
        "observer_ward_amd64"@
    } else if os == "macos"@ && arch == "x86_64"@ {
        "observer_ward_darwin"@
    } else if os == "macos"@ && arch == "aarch64"@ {
        "observer_ward_aarch64_darwin"@
    } else {
        "observer_ward_amd64"@
    }
}

/// Where releases of this program are downloaded from.
pub open spec fn release_base() -> Seq<char> {
    "https://github.com/0x727/ObserverWard/releases/download/default/"@
}

/// A download of this program's newest release.
#[derive(Debug, Clone, PartialEq, Eq)]
pub struct SelfUpdate {
    /// The address of the release file.
    pub url: String,
    /// The name of the release file.
    pub download_name: String,
    /// The file the release is saved to.
    pub save_filename: String,
}

/// The release name for an operating system and architecture.
fn release_name_of(os: &str, arch: &str) -> (res: String)
    ensures
        res@ == release_name(os@, arch@),
{
    if same_text(os, "windows") {
        "observer_ward.exe".to_string()
    } else if same_text(os, "linux") {
        "observer_ward_amd64".to_string()
    } else if same_text(os, "macos") && same_text(arch, "x86_64") {
        "observer_ward_darwin".to_string()
    } else if same_text(os, "macos") && same_text(arch, "aarch64") {
        "observer_ward_aarch64_darwin".to_string()
    } else {
        "observer_ward_amd64".to_string()
    }
}

/// What a self update downloads on `os` and `arch`: the release file for
/// them under the release address, saved under its name with `update_`
/// before it.
pub fn self_update_target(os: &str, arch: &str) -> (res: SelfUpdate)
    ensures
        res.download_name@ == release_name(os@, arch@),
        res.url@ == release_base() + release_name(os@, arch@),
        res.save_filename@ == "update_"@ + release_name(os@, arch@),
{
    let name = release_name_of(os, arch);
    let url = concat2(
        "https://github.com/0x727/ObserverWard/releases/download/default/",
        name.as_str(),
    );
    let save = concat2("update_", name.as_str());
    SelfUpdate { url, download_name: name, save_filename: save }
}

/// The message a download leaves: under its address, the file it was saved
/// to and that file's size in bytes; or, where it failed, under `err`, a
/// request to download it by hand.
pub open spec fn download_message_spec(url: Seq<char>, filename: Seq<char>, saved_size: Option<
    u64,
>) -> (Seq<char>, Seq<char>) {
    match saved_size {
        Some(size) => (url, "=> "@ + filename + "' file size => "@ + decimal(size as nat)),
        None => (
            "err"@,
            "Update failed, please download "@ + url + " to local directory manually."@,
        ),
    }
}

/// Records the outcome of a download in `log`: `saved_size` is the size of
/// the saved file, or `None` where the download failed.
pub fn record_download(log: &mut MessageLog, url: &str, filename: &str, saved_size: Option<u64>)
    ensures
        final(log)@ == old(log)@.insert(
            download_message_spec(url@, filename@, saved_size).0,
            download_message_spec(url@, filename@, saved_size).1,
        ),
{
    match saved_size {
        Some(size) => {
            let head = concat3("=> ", filename, "' file size => ");
            let text = concat2(head.as_str(), decimal_string(size).as_str());
            log.insert(url.to_string(), text);
        },
        None => {
            let text = concat3("Update failed, please download ", url, " to local directory manually.");
            log.insert("err".to_string(), text);
        },
    }
}

/// Whether a directory entry named `name` is loaded as a fingerprint file:
/// it is not hidden (does not start with a dot) and has the extension
/// `yaml`.
pub open spec fn is_fingerprint_yaml_spec(name: Seq<char>) -> bool {
    !(name.len() > 0 && name[0] == '.') && ends_with(name, ".yaml"@)
}

/// Whether a directory entry is loaded as a fingerprint file.
pub fn is_fingerprint_yaml(name: &str) -> (res: bool)
    ensures
        res == is_fingerprint_yaml_spec(name@),
{
    let cs = chars_of(name);
    let hidden = cs.len() > 0 && cs[0] == '.';
    !hidden && ends_with_text(name, ".yaml")
}

/// What is known, before loading, about the places a web fingerprint
/// library can come from.
#[derive(Debug, Clone, PartialEq, Eq)]
pub struct FingerprintPaths {
    /// A single fingerprint file to check, if given.
    pub verify: Option<String>,
    /// Whether that file exists.
    pub verify_exists: bool,
    /// A directory of fingerprint files, if given.
    pub yaml_dir: Option<String>,
    /// A fingerprint library file, if given.
    pub fpath: Option<String>,
    /// Whether that library file exists.
    pub fpath_exists: bool,
    /// Whether the library exists in the working directory.
    pub local_exists: bool,
    /// The library file in the configuration directory.
    pub config_file: String,
    /// Whether that file exists.
    pub config_exists: bool,
}

/// Where a web fingerprint library is loaded from.
#[derive(Debug, Clone, PartialEq, Eq)]
pub enum FingerprintSource {
    /// One fingerprint file, in YAML.
    VerifyFile(String),
    /// Every fingerprint file of a directory, in YAML.
    YamlDir(String),
    /// A library file, in JSON, possibly downloaded first.
    JsonFile { path: String, download_first: bool },
    /// The given library file does not exist; the program stops.
    MissingLibrary,
}

/// The name of the library file in the working directory.
pub open spec fn local_library() -> Seq<char> {
    "web_fingerprint_v3.json"@
}

/// The view of a fingerprint source.
pub open spec fn source_view(s: FingerprintSource) -> (int, Seq<char>, bool) {
    match s {
        FingerprintSource::VerifyFile(p) => (0, p@, false),
        FingerprintSource::YamlDir(p) => (1, p@, false),
        FingerprintSource::JsonFile { path, download_first } => (2, path@, download_first),
        FingerprintSource::MissingLibrary => (3, Seq::empty(), false),
    }
}

/// Where the library comes from: a given fingerprint file that exists; else
/// a given directory; else a given library file, which must exist; else the
/// library in the working directory, or failing that the one in the
/// configuration directory, downloaded first where neither exists.
pub open spec fn fingerprint_source_spec(p: FingerprintPaths) -> (int, Seq<char>, bool) {
    if p.verify is Some && p.verify_exists {
        (0, p.verify->0@, false)
    } else if p.yaml_dir is Some {
        (1, p.yaml_dir->0@, false)
    } else if p.fpath is Some {
        if p.fpath_exists {
            (2, p.fpath->0@, false)
        } else {
            (3, Seq::empty(), false)
        }
    } else if p.local_exists {
        (2, local_library(), false)
    } else {
        (2, p.config_file@, !p.config_exists)
    }
}

/// Decides where the web fingerprint library is loaded from, as
/// [`fingerprint_source_spec`] states.
pub fn fingerprint_source(p: &FingerprintPaths) -> (res: FingerprintSource)
    ensures
        source_view(res) == fingerprint_source_spec(*p),
{
    match &p.verify {
        Some(v) => {
            if p.verify_exists {
                return FingerprintSource::VerifyFile(v.clone());
            }
        },
        None => {},
    }
    match &p.yaml_dir {
        Some(d) => {
            return FingerprintSource::YamlDir(d.clone());
        },
        None => {},
    }
    match &p.fpath {
        Some(f) => {
            if p.fpath_exists {
                FingerprintSource::JsonFile { path: f.clone(), download_first: false }
            } else {
                FingerprintSource::MissingLibrary
            }
        },
        None => {
            if p.local_exists {
                FingerprintSource::JsonFile {
                    path: "web_fingerprint_v3.json".to_string(),
                    download_first: false,
                }
            } else {
                FingerprintSource::JsonFile {
                    path: p.config_file.clone(),
                    download_first: !p.config_exists,
                }
            }
        },
    }
}

/// One rule of the web fingerprint library.
#[derive(Debug, Clone, PartialEq, Eq)]
pub struct WebFingerPrint {
    /// The technology the rule recognises.
    pub name: String,
    /// The priority of a match.
    pub priority: u32,
    /// The path requested.
    pub path: String,
    /// The request method.
    pub request_method: String,
    /// The request headers.
    pub request_headers: Vec<(String, String)>,
    /// The request body.
    pub request_data: String,
    /// The status code a match needs, or 0 for any.
    pub status_code: u16,
    /// The response headers a match needs.
    pub headers: Vec<(String, String)>,
    /// The words the response body must hold.
    pub keyword: Vec<String>,
    /// The icon hashes that match.
    pub favicon_hash: Vec<String>,
}

/// A fingerprint file: the rules of one technology under its name and
/// priority.
#[derive(Debug, Clone, PartialEq, Eq)]
pub struct VerifyWebFingerPrint {
    /// The technology's name.
    pub name: String,
    /// The priority of a match.
    pub priority: u32,
    /// The rules.
    pub fingerprint: Vec<WebFingerPrint>,
}

/// A rule under a file's name and priority.
pub open spec fn stamped(f: WebFingerPrint, name: String, priority: u32) -> WebFingerPrint {
    WebFingerPrint { name: name, priority: priority, ..f }
}

impl VerifyWebFingerPrint {
    /// The rules of the file, in order, each under the file's name and
    /// priority.
    pub fn into_fingerprints(self) -> (res: Vec<WebFingerPrint>)
        ensures
            res@.len() == self.fingerprint@.len(),
            forall|i: int|
                0 <= i < res@.len() ==> res@[i] == stamped(
                    #[trigger] self.fingerprint@[i],
                    self.name,
                    self.priority,
                ),
    {
        let VerifyWebFingerPrint { name, priority, fingerprint } = self;
        let ghost orig = fingerprint@;
        let mut rest = fingerprint;
        let mut out: Vec<WebFingerPrint> = Vec::new();
        let ghost mut n: int = 0;
        while rest.len() > 0
            invariant
                0 <= n <= orig.len(),
                rest@ == orig.skip(n),
                out@.len() == n,
                forall|i: int| 0 <= i < n ==> out@[i] == stamped(#[trigger] orig[i], name, priority),
            decreases rest.len(),
        {
            let mut f = rest.remove(0);
            assert(orig.skip(n)[0] == orig[n]);
            assert(orig.skip(n).remove(0) == orig.skip(n + 1));
            f.name = name.clone();
            f.priority = priority;
            out.push(f);
            proof {
                n = n + 1;
            }
        }
        out
    }
}


/// Failed downloads all report under `err`: after two failures only the
/// later one's message is kept there, while a saved download reports under
/// its own address.
pub proof fn law_failed_downloads_share_err(
    log: Map<Seq<char>, Seq<char>>,
    url1: Seq<char>,
    file1: Seq<char>,
    url2: Seq<char>,
    file2: Seq<char>,
    size: u64,
)
    ensures
        ({
            let m1 = download_message_spec(url1, file1, None);
            let m2 = download_message_spec(url2, file2, None);
            log.insert(m1.0, m1.1).insert(m2.0, m2.1) == log.insert("err"@, m2.1)
        }),
        download_message_spec(url1, file1, Some(size)).0 == url1,
{
    let m1 = download_message_spec(url1, file1, None);
    let m2 = download_message_spec(url2, file2, None);
    assert(log.insert(m1.0, m1.1).insert(m2.0, m2.1) =~= log.insert("err"@, m2.1));
}


/// Each update runs exactly when it is asked for, whatever else is asked
/// for; none runs twice; the fingerprint library comes before the program,
/// and both before the plugins.
pub proof fn law_update_actions_follow_flags(fingerprint: bool, self_update: bool, plugins: bool)
    ensures
        update_actions_spec(fingerprint, self_update, plugins).contains(UpdateAction::Fingerprint)
            <==> fingerprint,
        update_actions_spec(fingerprint, self_update, plugins).contains(UpdateAction::SelfUpdate)
            <==> self_update,
        update_actions_spec(fingerprint, self_update, plugins).contains(UpdateAction::Plugins)
            <==> plugins,
        update_actions_spec(fingerprint, self_update, plugins).no_duplicates(),
        update_actions_spec(fingerprint, self_update, plugins).len() == (if fingerprint {
            1int
        } else {
            0
        }) + (if self_update {
            1int
        } else {
            0
        }) + (if plugins {
            1int
        } else {
            0
        }),
        forall|i: int, j: int|
            0 <= i < j < update_actions_spec(fingerprint, self_update, plugins).len() ==> rank(
                #[trigger] update_actions_spec(fingerprint, self_update, plugins)[i],
            ) < rank(#[trigger] update_actions_spec(fingerprint, self_update, plugins)[j]),
{
    let a = update_actions_spec(fingerprint, self_update, plugins);
    let f: Seq<UpdateAction> = if fingerprint { seq![UpdateAction::Fingerprint] } else { Seq::empty() };
    let m: Seq<UpdateAction> = if self_update { seq![UpdateAction::SelfUpdate] } else { Seq::empty() };
    let g: Seq<UpdateAction> = if plugins { seq![UpdateAction::Plugins] } else { Seq::empty() };
    assert(a == f + m + g);
    assert forall|i: int| 0 <= i < a.len() implies (#[trigger] a[i] == UpdateAction::Fingerprint
        ==> i < f.len()) && (a[i] == UpdateAction::SelfUpdate ==> f.len() <= i < f.len() + m.len())
        && (a[i] == UpdateAction::Plugins ==> f.len() + m.len() <= i) && (i < f.len() ==> a[i]
        == UpdateAction::Fingerprint) && (f.len() <= i < f.len() + m.len() ==> a[i]
        == UpdateAction::SelfUpdate) && (f.len() + m.len() <= i ==> a[i] == UpdateAction::Plugins) by {
        if i < f.len() {
            assert(a[i] == f[i]);
        } else if i < f.len() + m.len() {
            assert(a[i] == m[i - f.len()]);
        } else {
            assert(a[i] == g[i - f.len() - m.len()]);
        }
    }
    if fingerprint {
        assert(a[0] == UpdateAction::Fingerprint);
    }
    if self_update {
        assert(a[f.len() as int] == UpdateAction::SelfUpdate);
    }
    if plugins {
        assert(a[(f.len() + m.len()) as int] == UpdateAction::Plugins);
    }
}

/// The position of an update in the run order.
pub open spec fn rank(a: UpdateAction) -> int {
    match a {
        UpdateAction::Fingerprint => 0,
        UpdateAction::SelfUpdate => 1,
        UpdateAction::Plugins => 2,
    }
}

/// A given library file is loaded whenever no existing fingerprint file and
/// no directory is given: as it is where it exists, else the program stops;
/// whether a library exists in the working or configuration directory does
/// not matter then.
pub proof fn law_given_library_file_wins(p: FingerprintPaths, q: FingerprintPaths)
    requires
        !(p.verify is Some && p.verify_exists),
        p.yaml_dir is None,
        p.fpath is Some,
        q.verify == p.verify,
        q.verify_exists == p.verify_exists,
        q.yaml_dir == p.yaml_dir,
        q.fpath == p.fpath,
        q.fpath_exists == p.fpath_exists,
    ensures
        fingerprint_source_spec(p) == if p.fpath_exists {
            (2int, p.fpath->0@, false)
        } else {
            (3int, Seq::<char>::empty(), false)
        },
        fingerprint_source_spec(q) == fingerprint_source_spec(p),
{
}

/// An existing fingerprint file wins over everything else, and a given
/// directory over every library file; without any of those given, the
/// library of the working directory is used where it exists, and otherwise
/// the configuration directory's one, downloaded first exactly when it is
/// missing.
pub proof fn law_fingerprint_source_precedence(p: FingerprintPaths)
    ensures
        p.verify is Some && p.verify_exists ==> fingerprint_source_spec(p) == (
            0int,
            p.verify->0@,
            false,
        ),
        !(p.verify is Some && p.verify_exists) && p.yaml_dir is Some ==> fingerprint_source_spec(p)
            == (1int, p.yaml_dir->0@, false),
        !(p.verify is Some && p.verify_exists) && p.yaml_dir is None && p.fpath is None
            ==> fingerprint_source_spec(p) == if p.local_exists {
            (2int, "web_fingerprint_v3.json"@, false)
        } else {
            (2int, p.config_file@, !p.config_exists)
        },
{
}

} // verus!
