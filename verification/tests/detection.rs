use game_translator::adapters::{
    detect_game, extract_game, ContentProbes, GameFiles, RenPyProbe, RenPyTemplates, RpgMakerProbe,
};
use game_translator::content::DetectedProject;
use game_translator::renpy::TemplateFile;
use game_translator::rpgmaker::DataFile;
use game_translator::content::{
    EngineError, EngineKind, FileRead, Segment, SegmentContext, SegmentKind,
};
use game_translator::patch::{source_paths, PatchError};

fn probes(rpgmaker: RpgMakerProbe, renpy: RenPyProbe) -> ContentProbes {
    ContentProbes { rpgmaker, renpy, rimworld: FileRead::Missing }
}

fn no_rpg() -> RpgMakerProbe {
    RpgMakerProbe { www_data_is_dir: false, data_is_dir: false, system: FileRead::Missing }
}

fn renpy_dist() -> RenPyProbe {
    RenPyProbe {
        renpy_is_dir: true,
        game_is_dir: true,
        listing: Ok(vec!["game".to_string(), "renpy".to_string(), "Demo.exe".to_string()]),
    }
}

fn no_renpy() -> RenPyProbe {
    RenPyProbe { renpy_is_dir: false, game_is_dir: false, listing: Ok(Vec::new()) }
}

#[test]
fn detect_game_prefers_rpgmaker_projects() {
    let mv = RpgMakerProbe {
        www_data_is_dir: true,
        data_is_dir: false,
        system: FileRead::Text("{}".to_string()),
    };
    let project = detect_game("games/mv", &probes(mv, renpy_dist())).unwrap();
    assert_eq!(project.engine, EngineKind::RpgMakerMv);
    assert_eq!(project.root, "games/mv");
    assert_eq!(project.data_dir, "games/mv/www/data");
}

#[test]
fn detect_game_falls_back_to_renpy() {
    let project = detect_game("games/vn", &probes(no_rpg(), renpy_dist())).unwrap();
    assert_eq!(project.engine, EngineKind::RenPy);
    assert_eq!(project.data_dir, "games/vn/game");
}

#[test]
fn detect_game_falls_back_to_renpy_when_rpgmaker_data_is_broken() {
    let broken = RpgMakerProbe {
        www_data_is_dir: false,
        data_is_dir: true,
        system: FileRead::Text("not json".to_string()),
    };
    let project = detect_game("games/vn", &probes(broken, renpy_dist())).unwrap();
    assert_eq!(project.engine, EngineKind::RenPy);
}

#[test]
fn detect_game_reports_unsupported_folders() {
    let error = detect_game("games/other", &probes(no_rpg(), no_renpy())).unwrap_err();
    assert_eq!(error, EngineError::UnsupportedProject);
    let no_launcher = RenPyProbe {
        renpy_is_dir: true,
        game_is_dir: true,
        listing: Ok(vec!["README.txt".to_string()]),
    };
    let error = detect_game("games/other", &probes(no_rpg(), no_launcher)).unwrap_err();
    assert_eq!(error, EngineError::UnsupportedProject);
}

#[test]
fn patch_errors_describe_themselves() {
    assert_eq!(
        PatchError::BlockingQualityFindings.describe(),
        "blocking quality findings prevent export"
    );
    assert_eq!(
        PatchError::SourceChanged("data/Map001.json".to_string()).describe(),
        "source file changed: data/Map001.json"
    );
    assert_eq!(PatchError::Engine("bad template".to_string()).describe(), "bad template");
    assert_eq!(
        PatchError::Io { path: "out/a.rpy".to_string(), message: "denied".to_string() }.describe(),
        "failed to access out/a.rpy: denied"
    );
}

fn segment(id: &str, file: &str) -> Segment {
    Segment {
        id: id.to_string(),
        source: "text".to_string(),
        source_file: file.to_string(),
        location: id.to_string(),
        kind: SegmentKind::Dialogue,
        context: SegmentContext { speaker: None, previous_text: None, next_text: None },
    }
}

#[test]
fn source_paths_lists_each_file_once_in_first_seen_order() {
    let segments = vec![
        segment("a", "data/Map001.json"),
        segment("b", "data/Items.json"),
        segment("c", "data/Map001.json"),
        segment("d", "data/System.json"),
    ];
    assert_eq!(
        source_paths(&segments),
        vec![
            "data/Map001.json".to_string(),
            "data/Items.json".to_string(),
            "data/System.json".to_string(),
        ]
    );
    assert!(source_paths(&Vec::new()).is_empty());
}

#[test]
fn extracts_a_game_with_the_adapter_of_its_engine() {
    let mz = DetectedProject {
        root: "games/mz".to_string(),
        data_dir: "games/mz/data".to_string(),
        engine: EngineKind::RpgMakerMz,
    };
    let items = r#"[null,{"id":1,"name":"回復薬","description":"HPを50回復する。"}]"#;
    let segments = extract_game(
        &mz,
        GameFiles::RpgMaker(Ok(vec![DataFile { name: "Items.json".to_string(), content: Ok(items.to_string()) }])),
    )
    .unwrap();
    assert_eq!(segments.len(), 2);
    assert_eq!(segments[0].source, "回復薬");
    assert_eq!(segments[1].kind, SegmentKind::DatabaseDescription);
    assert_eq!(
        extract_game(&mz, GameFiles::RpgMaker(Err("denied".to_string()))).unwrap_err(),
        EngineError::Io { path: "games/mz/data".to_string(), message: "denied".to_string() }
    );

    let vn = DetectedProject {
        root: "games/vn".to_string(),
        data_dir: "games/vn/game".to_string(),
        engine: EngineKind::RenPy,
    };
    let template = "translate zh start_1:\n\n    # e \"Hello\"\n    e \"Hello\"\n";
    let segments = extract_game(
        &vn,
        GameFiles::RenPy(RenPyTemplates {
            template_root: "tmp/tl".to_string(),
            source_file: "games/vn/game".to_string(),
            templates: Ok(vec![TemplateFile {
                relative_path: "script.rpy".to_string(),
                content: Ok(template.to_string()),
            }]),
        }),
    )
    .unwrap();
    assert_eq!(segments.len(), 1);
    assert_eq!(segments[0].source, "Hello");
}
