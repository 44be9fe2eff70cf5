use observer_ward::helper::{
    fingerprint_source, is_fingerprint_yaml, record_download, self_update_target,
    update_actions, FingerprintPaths, FingerprintSource, UpdateAction, VerifyWebFingerPrint,
    WebFingerPrint,
};
use observer_ward::messages::MessageLog;

fn s(x: &str) -> String {
    x.to_string()
}

#[test]
fn update_actions_in_order() {
    assert_eq!(
        update_actions(true, true, true),
        vec![UpdateAction::Fingerprint, UpdateAction::SelfUpdate, UpdateAction::Plugins]
    );
    assert_eq!(update_actions(false, true, false), vec![UpdateAction::SelfUpdate]);
    assert_eq!(update_actions(false, false, false), vec![]);
}

#[test]
fn self_update_targets_per_platform() {
    let w = self_update_target("windows", "x86_64");
    assert_eq!(w.download_name, "observer_ward.exe");
    assert_eq!(
        w.url,
        "https://github.com/0x727/ObserverWard/releases/download/default/observer_ward.exe"
    );
    assert_eq!(w.save_filename, "update_observer_ward.exe");
    assert_eq!(self_update_target("linux", "aarch64").download_name, "observer_ward_amd64");
    assert_eq!(self_update_target("macos", "x86_64").download_name, "observer_ward_darwin");
    assert_eq!(
        self_update_target("macos", "aarch64").download_name,
        "observer_ward_aarch64_darwin"
    );
    assert_eq!(self_update_target("freebsd", "x86_64").download_name, "observer_ward_amd64");
    assert_eq!(self_update_target("macos", "powerpc").download_name, "observer_ward_amd64");
}

#[test]
fn download_messages() {
    let mut log = MessageLog::new();
    record_download(&mut log, "https://x/f.json", "f.json", Some(1234));
    assert_eq!(log.get(&s("https://x/f.json")), Some(s("=> f.json' file size => 1234")));
    record_download(&mut log, "https://x/a", "a", None);
    record_download(&mut log, "https://x/b", "b", None);
    assert_eq!(
        log.get(&s("err")),
        Some(s("Update failed, please download https://x/b to local directory manually."))
    );
    assert_eq!(log.entries().len(), 2);
}

#[test]
fn yaml_fingerprint_files() {
    assert!(is_fingerprint_yaml("tomcat.yaml"));
    assert!(is_fingerprint_yaml("a.b.yaml"));
    assert!(!is_fingerprint_yaml(".hidden.yaml"));
    assert!(!is_fingerprint_yaml("tomcat.yml"));
    assert!(!is_fingerprint_yaml("yaml"));
    assert!(!is_fingerprint_yaml(".yaml"));
    assert!(!is_fingerprint_yaml("tomcat.yaml.bak"));
}

fn paths() -> FingerprintPaths {
    FingerprintPaths {
        verify: None,
        verify_exists: false,
        yaml_dir: None,
        fpath: None,
        fpath_exists: false,
        local_exists: false,
        config_file: s("/cfg/web_fingerprint_v3.json"),
        config_exists: true,
    }
}

#[test]
fn fingerprint_source_choices() {
    let mut p = paths();
    p.verify = Some(s("v.yaml"));
    p.verify_exists = true;
    p.yaml_dir = Some(s("dir"));
    assert_eq!(fingerprint_source(&p), FingerprintSource::VerifyFile(s("v.yaml")));
    p.verify_exists = false;
    assert_eq!(fingerprint_source(&p), FingerprintSource::YamlDir(s("dir")));
    let mut p = paths();
    p.fpath = Some(s("lib.json"));
    assert_eq!(fingerprint_source(&p), FingerprintSource::MissingLibrary);
    p.fpath_exists = true;
    assert_eq!(
        fingerprint_source(&p),
        FingerprintSource::JsonFile { path: s("lib.json"), download_first: false }
    );
    let mut p = paths();
    p.local_exists = true;
    assert_eq!(
        fingerprint_source(&p),
        FingerprintSource::JsonFile { path: s("web_fingerprint_v3.json"), download_first: false }
    );
    let mut p = paths();
    assert_eq!(
        fingerprint_source(&p),
        FingerprintSource::JsonFile { path: s("/cfg/web_fingerprint_v3.json"), download_first: false }
    );
    p.config_exists = false;
    assert_eq!(
        fingerprint_source(&p),
        FingerprintSource::JsonFile { path: s("/cfg/web_fingerprint_v3.json"), download_first: true }
    );
}

fn rule(path: &str) -> WebFingerPrint {
    WebFingerPrint {
        name: String::new(),
        priority: 0,
        path: s(path),
        request_method: s("get"),
        request_headers: vec![],
        request_data: String::new(),
        status_code: 0,
        headers: vec![(s("server"), s("tomcat"))],
        keyword: vec![s("Apache Tomcat")],
        favicon_hash: vec![],
    }
}

#[test]
fn fingerprint_file_rules_take_its_name_and_priority() {
    let file = VerifyWebFingerPrint { name: s("tomcat"), priority: 3, fingerprint: vec![rule("/"), rule("/manager")] };
    let rules = file.into_fingerprints();
    assert_eq!(rules.len(), 2);
    for (r, p) in rules.iter().zip(["/", "/manager"]) {
        assert_eq!(r.name, "tomcat");
        assert_eq!(r.priority, 3);
        assert_eq!(r.path, p);
        assert_eq!(r.keyword, vec![s("Apache Tomcat")]);
    }
}
