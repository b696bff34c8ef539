use game_translator::adapters::{RenPyContentAdapter, RenPyFiles, RenPyProbe, RenPyTemplates};
use game_translator::content::{
    ContentCategory, ContentError, ContentSourceAdapter, EngineError, EngineKind,
    OutputCapability, SegmentKind,
};
use game_translator::renpy::{
    choose_launcher, detect_project, extract_templates, language_identifier, parse_template, primary_source_file,
    rewrite_file, write_translations, TemplateFile,
};
use game_translator::translations::TranslationTable;

const ROOT: &str = "fixtures/renpy-template";

const TEMPLATE: &str = "# TODO: Translation updated at 2024-01-01 00:00\n\n# game/script.rpy:10\ntranslate _gametranslator_template start_a170b500:\n\n    # ji \"欢迎光临~\"\n    ji \"欢迎光临~\"\n\ntranslate _gametranslator_template strings:\n\n    # game/screens.rpy:20\n    old \"Start\"\n    new \"Start\"\n";

fn probe() -> RenPyProbe {
    RenPyProbe {
        renpy_is_dir: true,
        game_is_dir: true,
        listing: Ok(vec![
            "game".to_string(),
            "renpy".to_string(),
            "Mayfly.exe".to_string(),
            "Mayfly.py".to_string(),
        ]),
    }
}

fn templates() -> Vec<TemplateFile> {
    vec![TemplateFile { relative_path: "script.rpy".to_string(), content: Ok(TEMPLATE.to_string()) }]
}

#[test]
fn detects_a_renpy_distribution() {
    let probe = probe();
    let project = detect_project(ROOT, true, true, &probe.listing).unwrap();

    assert_eq!(project.engine, EngineKind::RenPy);
    assert_eq!(project.data_dir, "fixtures/renpy-template/game");
}

#[test]
fn requires_a_launcher() {
    let listing = Ok(vec!["game".to_string(), "renpy".to_string(), "notes.txt".to_string()]);
    assert_eq!(
        detect_project(ROOT, true, true, &listing).unwrap_err(),
        EngineError::MissingRequiredFile("fixtures/renpy-template/<game launcher>".to_string())
    );
    let upper = Ok(vec!["GAME.EXE".to_string()]);
    assert!(detect_project(ROOT, true, true, &upper).is_ok());
    assert_eq!(
        detect_project(ROOT, false, true, &upper).unwrap_err(),
        EngineError::UnsupportedProject
    );
}

#[test]
fn extracts_dialogue_and_string_translation_blocks() {
    let probe = probe();
    let project = detect_project(ROOT, true, true, &probe.listing).unwrap();
    let source_file = primary_source_file(&project.data_dir, &vec!["script.rpy".to_string()]);

    let segments = extract_templates(&project, &source_file, Ok(templates())).unwrap();

    assert_eq!(segments.len(), 2);
    assert_eq!(segments[0].source, "欢迎光临~");
    assert_eq!(segments[0].context.speaker.as_deref(), Some("ji"));
    assert_eq!(segments[0].kind, SegmentKind::Dialogue);
    assert_eq!(segments[1].source, "Start");
    assert_eq!(segments[1].kind, SegmentKind::Choice);
    assert_eq!(segments[0].id, "renpy:script.rpy::start_a170b500::6");
    assert_eq!(segments[1].location, "script.rpy::strings::12");
    assert_eq!(segments[0].source_file, "fixtures/renpy-template/game");
}

#[test]
fn points_segments_at_the_first_archive() {
    let names = vec!["script.rpy".to_string(), "archive.RPA".to_string(), "b.rpa".to_string()];
    assert_eq!(primary_source_file("g", &names), "g/archive.RPA");
}

#[test]
fn unescapes_quotes_and_line_breaks() {
    let text = "translate x b:\n    # e \"He said \\\"hi\\\"\\nthen left\"\n";
    let segments = parse_template("g", "a.rpy", text);
    assert_eq!(segments.len(), 1);
    assert_eq!(segments[0].source, "He said \"hi\"\nthen left");
    assert_eq!(segments[0].context.speaker.as_deref(), Some("e"));
}

#[test]
fn converts_bcp47_codes_to_valid_renpy_identifiers() {
    assert_eq!(language_identifier("ja-JP"), "ja_JP");
    assert_eq!(language_identifier("zh-Hans-CN"), "zh_Hans_CN");
    assert_eq!(language_identifier("123"), "_123");
}

#[test]
fn rewrites_templates_for_the_target_language() {
    let translations = TranslationTable {
        pairs: vec![
            ("renpy:script.rpy::start_a170b500::6".to_string(), "Welcome \"in\"".to_string()),
            ("renpy:script.rpy::strings::12".to_string(), "开始".to_string()),
        ],
    };
    let rendered = rewrite_file("script.rpy", TEMPLATE, &translations, "ja_JP");
    assert!(rendered.contains("translate ja_JP start_a170b500:"));
    assert!(rendered.contains("    ji \"Welcome \\\"in\\\"\""));
    assert!(rendered.contains("    new \"开始\""));
    assert!(rendered.contains("    # ji \"欢迎光临~\""));
    assert!(rendered.ends_with("new \"开始\"\n"));
}

#[test]
fn writes_an_activation_script_for_the_normalized_language() {
    let translations = TranslationTable { pairs: Vec::new() };
    let written = write_translations(&translations, "out", "ja-JP", "tmp/templates", Ok(templates()))
        .unwrap();
    assert_eq!(written.len(), 2);
    assert_eq!(written[0].path, "out/game/tl/ja_JP/script.rpy");
    assert!(written[0].content.contains("translate ja_JP"));
    assert_eq!(written[1].path, "out/game/game_translator_language.rpy");
    assert!(written[1].content.contains("define config.language = \"ja_JP\""));
}

#[test]
fn renpy_content_adapter_keeps_runtime_template_generation_as_a_requirement() {
    let adapter = RenPyContentAdapter;
    let source = adapter.detect(ROOT, &probe()).expect("fixture should be detected");
    let generation = Err(EngineError::Io {
        path: "fixtures/renpy-template/Mayfly.exe".to_string(),
        message: "the launcher could not be started".to_string(),
    });
    let files = RenPyFiles {
        probe: probe(),
        templates: RenPyTemplates {
            template_root: "tmp/templates".to_string(),
            source_file: "fixtures/renpy-template/game".to_string(),
            templates: generation,
        },
    };
    let error = adapter.extract(&source, files).expect_err("fixture has no runnable Ren'Py runtime");

    assert_eq!(source.format_id, "game.renpy");
    assert_eq!(adapter.category(), ContentCategory::Game);
    assert_eq!(
        adapter.output_capabilities(),
        vec![OutputCapability::Export, OutputCapability::Install, OutputCapability::Uninstall]
    );
    assert!(matches!(error, ContentError::Io { path, .. } if path.ends_with("Mayfly.exe")));
}

#[test]
fn runs_the_first_launcher_in_name_order() {
    let names = vec![
        "game".to_string(),
        "Zeta.EXE".to_string(),
        "Alpha.exe".to_string(),
        "Alpha.py".to_string(),
        ".exe".to_string(),
    ];
    assert_eq!(choose_launcher("D:/vn", &names).unwrap(), "D:/vn/Alpha.exe");
    assert_eq!(
        choose_launcher("D:/vn", &vec!["game".to_string(), "run.py".to_string()]).unwrap_err(),
        EngineError::MissingRequiredFile("D:/vn/<game.exe>".to_string())
    );
}

#[test]
fn every_language_code_becomes_a_valid_identifier() {
    for code in ["", "zh-CN", "9x", "日本語", "de_DE", "a b.c"] {
        let id = language_identifier(code);
        assert!(!id.is_empty());
        assert!(!id.starts_with(|c: char| c.is_ascii_digit()));
        assert!(id.chars().all(|c| c.is_ascii_alphanumeric() || c == '_'));
    }
    assert_eq!(language_identifier(""), "_");
    assert_eq!(language_identifier("日本語"), "___");
    assert_eq!(language_identifier("de_DE"), "de_DE");
}
