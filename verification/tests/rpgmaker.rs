use game_translator::adapters::{RpgMakerContentAdapter, RpgMakerFiles, RpgMakerProbe};
use game_translator::content::{
    ContentCategory, ContentSourceAdapter, DetectedProject, EngineError, EngineKind, FileRead,
    OutputCapability, SegmentKind,
};
use game_translator::rpgmaker::{
    apply_replacements, detect_project, extract_command_list, extract_project, is_json_name,
    is_translatable, json_path_steps, read_json, write_translations, DataFile, JsonStep,
    ReplaceFailure,
};
use game_translator::translations::TranslationTable;

const ROOT: &str = "fixtures/rpgmaker-mz-dialogue";

const MAP001: &str = r#"{"events":[null,{"id":1,"name":"EV001","pages":[{"list":[
{"code":101,"indent":0,"parameters":["Actor1",0,0,2,"アリス"]},
{"code":401,"indent":0,"parameters":["やっと着いた。 \\V[1]"]},
{"code":401,"indent":0,"parameters":["ここが月の神殿ね。"]},
{"code":102,"indent":0,"parameters":[["中に入る","引き返す"],1,0,2,0]},
{"code":405,"indent":0,"parameters":["月の光が神殿を照らしている。"]},
{"code":401,"indent":0,"parameters":["12345"]},
{"code":355,"indent":0,"parameters":["$gameVariables.setValue(1, 12345);"]},
{"code":0,"indent":0,"parameters":[]}]}]}]}"#;

const COMMON_EVENTS: &str = r#"[null,{"id":1,"name":"共通","list":[
{"code":401,"indent":0,"parameters":["共通イベントの台詞"]},
{"code":355,"indent":0,"parameters":["$gameSwitches.setValue(1, true);"]},
{"code":0,"indent":0,"parameters":[]}]}]"#;

const ITEMS: &str = r#"[null,{"id":1,"name":"回復薬","description":"HPを50回復する。","iconPath":"img/icons/potion.png"},{"id":2,"name":"12345","description":"   "}]"#;

const SKILLS: &str = r#"[null,{"id":1,"name":"月光斬","description":"月の力で斬る。"}]"#;

fn file(name: &str, content: &str) -> DataFile {
    DataFile { name: name.to_string(), content: Ok(content.to_string()) }
}

fn data_files() -> Vec<DataFile> {
    vec![
        file("Skills.json", SKILLS),
        file("System.json", r#"{"gameTitle":"月の神殿"}"#),
        file("Map001.json", MAP001),
        file("MapInfos.json", r#"[null,{"id":1,"name":"MAP001"}]"#),
        file("CommonEvents.json", COMMON_EVENTS),
        file("Items.json", ITEMS),
    ]
}

fn project() -> DetectedProject {
    detect_project(ROOT, false, true, &FileRead::Text(r#"{"gameTitle":"月の神殿"}"#.to_string()))
        .unwrap()
}

#[test]
fn detects_rpg_maker_mv_by_its_www_data_directory() {
    let project =
        detect_project("fixtures/rpgmaker-mv-minimal", true, false, &FileRead::Text("{}".to_string()))
            .unwrap();

    assert_eq!(project.engine, EngineKind::RpgMakerMv);
    assert_eq!(project.data_dir, "fixtures/rpgmaker-mv-minimal/www/data");
}

#[test]
fn detects_rpg_maker_mz_by_its_root_data_directory() {
    let project =
        detect_project("fixtures/rpgmaker-mz-minimal", false, true, &FileRead::Text("{}".to_string()))
            .unwrap();

    assert_eq!(project.engine, EngineKind::RpgMakerMz);
    assert_eq!(project.data_dir, "fixtures/rpgmaker-mz-minimal/data");
}

#[test]
fn rejects_a_directory_without_rpg_maker_markers() {
    let error = detect_project("fixtures/unsupported", false, false, &FileRead::Missing).unwrap_err();

    assert_eq!(error, EngineError::UnsupportedProject);
}

#[test]
fn reports_a_missing_system_database() {
    let error =
        detect_project("fixtures/rpgmaker-mz-missing-system", false, true, &FileRead::Missing)
            .unwrap_err();

    assert_eq!(
        error,
        EngineError::MissingRequiredFile(
            "fixtures/rpgmaker-mz-missing-system/data/System.json".to_string()
        )
    );
}

#[test]
fn reports_an_unreadable_or_malformed_system_database() {
    let error = detect_project("g", false, true, &FileRead::Failed("denied".to_string())).unwrap_err();
    assert_eq!(
        error,
        EngineError::Io { path: "g/data/System.json".to_string(), message: "denied".to_string() }
    );
    let error = detect_project("g", false, true, &FileRead::Text("{".to_string())).unwrap_err();
    assert!(matches!(error, EngineError::InvalidData { path, .. } if path == "g/data/System.json"));
}

#[test]
fn extracts_database_names_and_descriptions() {
    let segments = extract_project(&project(), Ok(data_files())).unwrap();

    let potion = segments.iter().find(|segment| segment.source == "回復薬").unwrap();
    assert_eq!(potion.kind, SegmentKind::DatabaseName);
    assert_eq!(potion.id, "Items.json:records[1].name");

    let description = segments
        .iter()
        .find(|segment| segment.source == "HPを50回復する。")
        .unwrap();
    assert_eq!(description.kind, SegmentKind::DatabaseDescription);

    assert!(segments.iter().any(|segment| segment.source == "月光斬"));
}

#[test]
fn skips_blank_numeric_and_asset_path_values() {
    let segments = extract_project(&project(), Ok(data_files())).unwrap();

    assert!(!segments.iter().any(|segment| segment.source.trim().is_empty()));
    assert!(!segments.iter().any(|segment| segment.source == "12345"));
    assert!(!segments.iter().any(|segment| segment.source == "img/icons/potion.png"));
}

#[test]
fn extracts_map_dialogue_choices_and_scrolling_text_with_context() {
    let segments = extract_project(&project(), Ok(data_files())).unwrap();
    let map_segments: Vec<_> = segments
        .iter()
        .filter(|segment| segment.source_file.ends_with("Map001.json"))
        .collect();

    assert_eq!(map_segments.len(), 5);
    assert_eq!(map_segments[0].source, "やっと着いた。 \\V[1]");
    assert_eq!(map_segments[0].kind, SegmentKind::Dialogue);
    assert_eq!(map_segments[0].context.speaker.as_deref(), Some("アリス"));
    assert_eq!(
        map_segments[0].context.next_text.as_deref(),
        Some("ここが月の神殿ね。")
    );
    assert_eq!(map_segments[0].id, "Map001.json:events[1].pages[0].list[1]");
    assert_eq!(map_segments[0].location, "events[1].pages[0].list[1].parameters[0]");
    assert_eq!(map_segments[2].kind, SegmentKind::Choice);
    assert_eq!(map_segments[2].source, "中に入る");
    assert_eq!(map_segments[4].kind, SegmentKind::ScrollingText);
}

#[test]
fn extracts_common_event_dialogue_and_skips_scripts() {
    let segments = extract_project(&project(), Ok(data_files())).unwrap();
    let common: Vec<_> = segments
        .iter()
        .filter(|segment| segment.source_file.ends_with("CommonEvents.json"))
        .collect();

    assert_eq!(common.len(), 1);
    assert_eq!(common[0].source, "共通イベントの台詞");
    assert!(!segments.iter().any(|segment| segment.source.contains("$game")));
}

#[test]
fn extracts_files_in_name_order() {
    let segments = extract_project(&project(), Ok(data_files())).unwrap();
    assert_eq!(segments.len(), 10);
    assert!(segments[0].source_file.ends_with("CommonEvents.json"));
    assert!(segments[1].source_file.ends_with("Items.json"));
    assert!(segments[9].source_file.ends_with("Skills.json"));
    assert_eq!(segments[3].context.previous_text, None);
    assert_eq!(segments[4].context.previous_text.as_deref(), Some("やっと着いた。 \\V[1]"));
    assert_eq!(segments[5].id, "Map001.json:events[1].pages[0].list[3].parameters[0][0]");
    assert_eq!(segments[5].location, "events[1].pages[0].list[3].parameters[0][0]");
    assert_eq!(segments[0].id, "CommonEvents.json:records[1].list[0]");
    assert_eq!(segments[0].location, "[1].list[0].parameters[0]");
}

#[test]
fn reports_unreadable_or_malformed_data_files() {
    let error = extract_project(&project(), Err("denied".to_string())).unwrap_err();
    assert_eq!(
        error,
        EngineError::Io {
            path: "fixtures/rpgmaker-mz-dialogue/data".to_string(),
            message: "denied".to_string()
        }
    );
    let broken = vec![DataFile { name: "Map002.json".to_string(), content: Ok("[".to_string()) }];
    let error = extract_project(&project(), Ok(broken)).unwrap_err();
    assert!(matches!(error, EngineError::InvalidData { path, .. }
        if path == "fixtures/rpgmaker-mz-dialogue/data/Map002.json"));
    let unread = vec![DataFile { name: "Items.json".to_string(), content: Err("locked".to_string()) }];
    let error = extract_project(&project(), Ok(unread)).unwrap_err();
    assert_eq!(
        error,
        EngineError::Io {
            path: "fixtures/rpgmaker-mz-dialogue/data/Items.json".to_string(),
            message: "locked".to_string()
        }
    );
    let ignored = vec![DataFile { name: "Tilesets.json".to_string(), content: Err("x".to_string()) }];
    assert!(extract_project(&project(), Ok(ignored)).unwrap().is_empty());
}

#[test]
fn classifies_translatable_text() {
    assert!(is_translatable("こんにちは"));
    assert!(is_translatable(" 12a "));
    assert!(!is_translatable("  "));
    assert!(!is_translatable(" 0042 "));
    assert!(is_json_name("Map001.json"));
    assert!(!is_json_name(".json"));
    assert!(!is_json_name("Map001.JSON"));
}

#[test]
fn speaker_is_cleared_by_a_blank_name() {
    let commands = match read_json(
        "data/Map009.json",
        &Ok(r#"[{"code":101,"parameters":["",0,0,2,"Bob"]},{"code":401,"parameters":["Hi"]},
            {"code":101,"parameters":["",0,0,2,"  "]},{"code":401,"parameters":["Bye"]}]"#
            .to_string()),
    )
    .unwrap()
    {
        game_translator::json::JsonValue::Array(items) => items,
        _ => panic!("an array"),
    };
    let segments = extract_command_list(&commands, "Map009.json", "data/Map009.json", "p", "q");
    assert_eq!(segments.len(), 2);
    assert_eq!(segments[0].context.speaker.as_deref(), Some("Bob"));
    assert_eq!(segments[1].context.speaker, None);
    assert_eq!(segments[1].id, "Map009.json:p.list[3]");
    assert_eq!(segments[1].location, "q.list[3].parameters[0]");
}

#[test]
fn reads_locations_into_steps() {
    let steps = json_path_steps("events[1].pages[0].list[+2].parameters[0]").unwrap();
    assert_eq!(steps.len(), 8);
    assert!(matches!(&steps[0], JsonStep::Key(k) if k == "events"));
    assert!(matches!(&steps[1], JsonStep::Index(1)));
    assert!(matches!(&steps[5], JsonStep::Index(2)));
    assert!(json_path_steps("events[x]").is_none());
    assert!(json_path_steps("events[1]x").is_none());
    assert!(json_path_steps("events[1").is_none());
}

#[test]
fn replacements_fail_on_missing_or_non_text_locations() {
    let doc = read_json("data/A.json", &Ok(r#"{"a":[{"b":"x"},{"b":3}]}"#.to_string())).unwrap();
    let reps = vec![("a[1].b".to_string(), "y".to_string())];
    let Err((location, failure)) = apply_replacements(doc, &reps) else {
        panic!("a number is not text");
    };
    assert_eq!(location, "a[1].b");
    assert_eq!(failure, ReplaceFailure::NotText);
    let doc = read_json("data/A.json", &Ok(r#"{"a":[{"b":"x"}]}"#.to_string())).unwrap();
    let reps = vec![("a[5].b".to_string(), "y".to_string())];
    assert!(matches!(apply_replacements(doc, &reps), Err((_, ReplaceFailure::Missing))));
}

#[test]
fn writes_only_targeted_strings_to_a_separate_directory() {
    let translations = TranslationTable {
        pairs: vec![(
            "Map001.json:events[1].pages[0].list[1]".to_string(),
            "终于到了。 \\V[1]".to_string(),
        )],
    };

    let written = write_translations(&project(), &translations, "out", Ok(data_files())).unwrap();

    assert_eq!(written.len(), 1);
    assert_eq!(written[0].path, "out/data/Map001.json");
    let rendered: serde_json::Value = serde_json::from_str(&written[0].content).unwrap();
    assert_eq!(
        rendered["events"][1]["pages"][0]["list"][1]["parameters"][0],
        "终于到了。 \\V[1]"
    );
    assert_eq!(
        rendered["events"][1]["pages"][0]["list"][6]["parameters"][0],
        "$gameVariables.setValue(1, 12345);"
    );
    assert_eq!(rendered["events"][1]["pages"][0]["list"][2]["parameters"][0], "ここが月の神殿ね。");
}

#[test]
fn rpg_maker_content_adapter_preserves_existing_extraction_results() {
    let adapter = RpgMakerContentAdapter;
    let probe = RpgMakerProbe {
        www_data_is_dir: false,
        data_is_dir: true,
        system: FileRead::Text(r#"{"gameTitle":"月の神殿"}"#.to_string()),
    };
    let source = adapter.detect(ROOT, &probe).expect("fixture should be detected");
    let segments = adapter
        .extract(&source, RpgMakerFiles { probe, listing: Ok(data_files()) })
        .expect("fixture should extract");

    assert_eq!(source.format_id, "game.rpgmaker.mz");
    assert_eq!(adapter.category(), ContentCategory::Game);
    assert_eq!(adapter.output_capabilities(), vec![OutputCapability::Export]);
    let map_segment = segments
        .iter()
        .find(|segment| segment.source_file.ends_with("Map001.json"))
        .expect("fixture should include a map dialogue");
    assert_eq!(map_segment.source, "やっと着いた。 \\V[1]");
    assert_eq!(map_segment.kind, SegmentKind::Dialogue);
}

#[test]
fn reading_a_data_file_reports_its_path() {
    assert!(matches!(
        read_json("data/X.json", &Err("denied".to_string())),
        Err(EngineError::Io { path, message }) if path == "data/X.json" && message == "denied"
    ));
    assert!(matches!(
        read_json("data/X.json", &Ok("{".to_string())),
        Err(EngineError::InvalidData { path, .. }) if path == "data/X.json"
    ));
    assert!(read_json("data/X.json", &Ok("[1, 2]".to_string())).is_ok());
}
