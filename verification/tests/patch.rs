use game_translator::content::{DetectedProject, EngineKind};
use game_translator::patch::{
    hash_bytes, EngineFiles, PatchError, PatchPlan, QaSeverity, SourceBytes,
};
use game_translator::rpgmaker::{extract_project, DataFile};
use game_translator::translations::TranslationTable;

const MAP001: &str = r#"{"events":[null,{"id":1,"pages":[{"list":[
{"code":101,"parameters":["Actor1",0,0,2,"アリス"]},
{"code":401,"parameters":["やっと着いた。 \\V[1]"]},
{"code":401,"parameters":["ここが月の神殿ね。"]}]}]}]}"#;

const ITEMS: &str = r#"[null,{"id":1,"name":"回復薬","description":"HPを50回復する。"}]"#;

fn data_files() -> Vec<DataFile> {
    vec![
        DataFile { name: "Map001.json".to_string(), content: Ok(MAP001.to_string()) },
        DataFile { name: "Items.json".to_string(), content: Ok(ITEMS.to_string()) },
    ]
}

fn project() -> DetectedProject {
    DetectedProject {
        root: "game".to_string(),
        data_dir: "game/data".to_string(),
        engine: EngineKind::RpgMakerMz,
    }
}

fn reads(map: &str) -> Vec<SourceBytes> {
    vec![
        SourceBytes { path: "game/data/Map001.json".to_string(), bytes: Ok(map.as_bytes().to_vec()) },
        SourceBytes { path: "game/data/Items.json".to_string(), bytes: Ok(ITEMS.as_bytes().to_vec()) },
    ]
}

fn translation() -> TranslationTable {
    TranslationTable {
        pairs: vec![(
            "Map001.json:events[1].pages[0].list[1]".to_string(),
            "终于到了。 \\V[1]".to_string(),
        )],
    }
}

fn plan() -> PatchPlan {
    let segments = extract_project(&project(), Ok(data_files()));
    PatchPlan::capture(project(), segments, &reads(MAP001)).unwrap()
}

#[test]
fn exports_hash_manifest_for_verified_files() {
    let plan = plan();

    let patch = plan
        .export(&translation(), &Vec::new(), "out", &reads(MAP001), EngineFiles::RpgMaker(Ok(data_files())))
        .unwrap();
    let manifest = patch.manifest;

    assert_eq!(manifest.files.len(), 1);
    assert_eq!(manifest.files[0].relative_path, "data/Map001.json");
    assert_ne!(manifest.files[0].source_sha256, manifest.files[0].target_sha256);
    assert_eq!(manifest.format_version, 1);
    assert_eq!(manifest.files[0].source_sha256, hash_bytes(MAP001.as_bytes()));
    assert_eq!(patch.files[0].path, "out/data/Map001.json");
    assert_eq!(manifest.files[0].target_sha256, hash_bytes(patch.files[0].content.as_bytes()));
}

#[test]
fn blocks_export_when_qa_has_a_blocking_finding() {
    let plan = plan();
    let findings = vec![QaSeverity::Warning, QaSeverity::Blocking];

    assert_eq!(
        plan.export(&translation(), &findings, "out", &reads(MAP001), EngineFiles::RpgMaker(Ok(data_files())))
            .err()
            .unwrap(),
        PatchError::BlockingQualityFindings
    );
}

#[test]
fn rejects_export_when_a_source_file_changed_after_capture() {
    let plan = plan();

    assert_eq!(
        plan.export(&translation(), &Vec::new(), "out", &reads("{}"), EngineFiles::RpgMaker(Ok(data_files())))
            .err()
            .unwrap(),
        PatchError::SourceChanged("game/data/Map001.json".to_string())
    );
}

#[test]
fn capture_reports_unreadable_sources() {
    let segments = extract_project(&project(), Ok(data_files()));
    let only_items = vec![SourceBytes {
        path: "game/data/Items.json".to_string(),
        bytes: Err("denied".to_string()),
    }];
    assert_eq!(
        PatchPlan::capture(project(), segments, &only_items).err().unwrap(),
        PatchError::Io { path: "game/data/Items.json".to_string(), message: "denied".to_string() }
    );
}

#[test]
fn hashes_are_lower_case_sha256() {
    assert_eq!(
        hash_bytes(b"abc"),
        "ba7816bf8f01cfea414140de5dae2223b00361a396177a9cb410ff61f20015ad"
    );
    assert_eq!(
        hash_bytes(b""),
        "e3b0c44298fc1c149afbf4c8996fb92427ae41e4649b934ca495991b7852b855"
    );
}

#[test]
fn rejects_export_when_any_captured_source_changed() {
    let plan = plan();
    let changed_items = vec![
        SourceBytes { path: "game/data/Map001.json".to_string(), bytes: Ok(MAP001.as_bytes().to_vec()) },
        SourceBytes { path: "game/data/Items.json".to_string(), bytes: Ok(b"[]".to_vec()) },
    ];
    assert_eq!(
        plan.export(&translation(), &Vec::new(), "out", &changed_items, EngineFiles::RpgMaker(Ok(data_files())))
            .err()
            .unwrap(),
        PatchError::SourceChanged("game/data/Items.json".to_string())
    );
    let both_changed = vec![
        SourceBytes { path: "game/data/Map001.json".to_string(), bytes: Ok(b"{}".to_vec()) },
        SourceBytes { path: "game/data/Items.json".to_string(), bytes: Ok(b"[]".to_vec()) },
    ];
    let error = plan
        .export(&translation(), &Vec::new(), "out", &both_changed, EngineFiles::RpgMaker(Ok(data_files())))
        .err()
        .unwrap();
    assert!(
        error == PatchError::SourceChanged("game/data/Items.json".to_string())
            || error == PatchError::SourceChanged("game/data/Map001.json".to_string())
    );
}
