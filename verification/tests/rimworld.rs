use game_translator::content::{
    ContentCategory, ContentError, ContentOutputAdapter, ContentSource, ContentSourceAdapter,
    ExportRequest, FileRead, OutputCapability, SegmentKind,
};
use game_translator::language_pack::{language_directory, xml_escape};
use game_translator::rimworld::{
    read_language_entries, LanguageFile, RimWorldLanguagePackOutputAdapter, RimWorldListing,
    RimWorldModContentAdapter,
};
use game_translator::desktop::validate_rimworld_language_manifest;
use game_translator::patch_ops::{content_patch_manifest, ExportedFile};
use game_translator::translations::TranslationTable;

const ROOT: &str = "fixtures/rimworld-mod-minimal";

const ABOUT: &str = "<?xml version=\"1.0\" encoding=\"utf-8\"?>\n<ModMetaData>\n  <name>Minimal Example</name>\n  <packageId>example.author.minimal</packageId>\n  <description>A minimal mod.</description>\n</ModMetaData>\n";

const KEYED: &str = "<?xml version=\"1.0\" encoding=\"utf-8\"?>\n<LanguageData>\n  <ExampleGreeting>Hello, {0}!</ExampleGreeting>\n  <ExampleFarewell>Goodbye &amp; good luck</ExampleFarewell>\n  <ExampleBlank>   </ExampleBlank>\n</LanguageData>\n";

const DEFINJECTED: &str = "<?xml version=\"1.0\" encoding=\"utf-8\"?>\n<LanguageData>\n  <ExampleThing.label>Example thing</ExampleThing.label>\n</LanguageData>\n";

fn listing() -> RimWorldListing {
    RimWorldListing {
        english_exists: true,
        files: vec![
            LanguageFile {
                category: "definjected".to_string(),
                relative_path: "DefInjected/ThingDef/Example.xml".to_string(),
                content: Ok(DEFINJECTED.to_string()),
            },
            LanguageFile {
                category: "keyed".to_string(),
                relative_path: "Keyed/Example.xml".to_string(),
                content: Ok(KEYED.to_string()),
            },
        ],
        error: None,
    }
}

fn source() -> ContentSource {
    RimWorldModContentAdapter
        .detect(ROOT, &FileRead::Text(ABOUT.to_string()))
        .expect("fixture should be detected")
}

#[test]
fn detects_and_extracts_documented_rimworld_language_files() {
    let adapter = RimWorldModContentAdapter;
    let source = adapter
        .detect(ROOT, &FileRead::Text(ABOUT.to_string()))
        .expect("fixture should be detected");
    let segments = adapter.extract(&source, listing()).expect("fixture should extract");

    assert_eq!(source.format_id, "game.rimworld.mod");
    assert_eq!(source.source_id, "example.author.minimal");
    assert_eq!(adapter.category(), ContentCategory::GameMod);
    assert_eq!(adapter.output_capabilities(), vec![OutputCapability::Export]);
    assert_eq!(segments.len(), 3);

    let keyed = segments
        .iter()
        .find(|segment| segment.id == "rimworld:keyed:Keyed/Example.xml:ExampleGreeting")
        .expect("keyed entry should be extracted");
    assert_eq!(keyed.source, "Hello, {0}!");
    assert_eq!(keyed.kind, SegmentKind::LocalizedKey);
    assert_eq!(keyed.location, "ExampleGreeting");

    let definition = segments
        .iter()
        .find(|segment| {
            segment.id == "rimworld:definjected:DefInjected/ThingDef/Example.xml:ExampleThing.label"
        })
        .expect("DefInjected entry should be extracted");
    assert_eq!(definition.source, "Example thing");
}

#[test]
fn names_the_mod_and_orders_files_by_path() {
    let source = source();
    assert_eq!(source.display_name, "Minimal Example");
    assert_eq!(source.root, ROOT);
    let segments = RimWorldModContentAdapter.extract(&source, listing()).unwrap();
    assert!(segments[0].id.starts_with("rimworld:definjected:"));
    assert_eq!(segments[1].source, "Hello, {0}!");
    assert_eq!(segments[2].source, "Goodbyegood luck");
    assert_eq!(
        segments[1].source_file,
        "fixtures/rimworld-mod-minimal/Languages/English/Keyed/Example.xml"
    );
}

#[test]
fn rejects_mods_without_metadata_or_language_files() {
    assert_eq!(
        RimWorldModContentAdapter.detect(ROOT, &FileRead::Missing).unwrap_err(),
        ContentError::UnsupportedSource
    );
    let no_package = "<ModMetaData><name>X</name><packageId>  </packageId></ModMetaData>";
    assert_eq!(
        RimWorldModContentAdapter
            .detect(ROOT, &FileRead::Text(no_package.to_string()))
            .unwrap_err(),
        ContentError::InvalidData {
            path: "fixtures/rimworld-mod-minimal/About/About.xml".to_string(),
            message: "ModMetaData must contain a non-empty packageId".to_string(),
        }
    );
    let wrong_root = "<Other><packageId>a</packageId></Other>";
    assert_eq!(
        RimWorldModContentAdapter
            .detect(ROOT, &FileRead::Text(wrong_root.to_string()))
            .unwrap_err(),
        ContentError::InvalidData {
            path: "fixtures/rimworld-mod-minimal/About/About.xml".to_string(),
            message: "expected <ModMetaData> root element".to_string(),
        }
    );
    let missing = RimWorldListing { english_exists: false, files: Vec::new(), error: None };
    assert_eq!(
        RimWorldModContentAdapter.extract(&source(), missing).unwrap_err(),
        ContentError::MissingRequiredFile(
            "fixtures/rimworld-mod-minimal/Languages/English".to_string()
        )
    );
}

#[test]
fn refuses_nested_values_and_cdata() {
    let nested = "<LanguageData><A><B>x</B></A></LanguageData>";
    assert_eq!(
        read_language_entries("p", nested, "LanguageData").unwrap_err(),
        ContentError::InvalidData {
            path: "p".to_string(),
            message: "nested localization values are not supported".to_string(),
        }
    );
    let cdata = "<LanguageData><A><![CDATA[x]]></A></LanguageData>";
    assert_eq!(
        read_language_entries("p", cdata, "LanguageData").unwrap_err(),
        ContentError::InvalidData {
            path: "p".to_string(),
            message: "CDATA localization values are not supported".to_string(),
        }
    );
    let entries = read_language_entries("p", KEYED, "LanguageData").unwrap();
    assert_eq!(entries.len(), 2);
    assert_eq!(entries[0].key, "ExampleGreeting");
}

#[test]
fn exports_translations_to_a_separate_rimworld_language_pack() {
    let source = source();
    let translations = TranslationTable {
        pairs: vec![(
            "rimworld:keyed:Keyed/Example.xml:ExampleGreeting".to_owned(),
            "你好，{0}！<&>".to_owned(),
        )],
    };
    let adapter = RimWorldLanguagePackOutputAdapter;
    let request = ExportRequest {
        source: &source,
        translations: &translations,
        output_root: "out",
        target_language: "zh-CN",
    };

    let result = adapter.export(&request, listing()).expect("language pack should export");

    assert_eq!(adapter.capabilities(), vec![OutputCapability::Export]);
    assert_eq!(result.output_root, "out");
    assert_eq!(
        result.files,
        vec![
            "out/Languages/ChineseSimplified/Keyed/Example.xml".to_string(),
            "out/Languages/ChineseSimplified/LanguageInfo.xml".to_string(),
        ]
    );
    assert_eq!(
        result.contents[0],
        "<?xml version=\"1.0\" encoding=\"utf-8\"?>\n<LanguageData>\n  <ExampleGreeting>你好，{0}！&lt;&amp;&gt;</ExampleGreeting>\n</LanguageData>\n"
    );
    assert!(result.contents[1].contains("<friendlyNameNative>ChineseSimplified</friendlyNameNative>"));
}

#[test]
fn language_packs_support_only_simplified_chinese() {
    assert_eq!(language_directory("zh-CN", "r").unwrap(), "ChineseSimplified");
    assert_eq!(language_directory("ChineseSimplified", "r").unwrap(), "ChineseSimplified");
    assert_eq!(
        language_directory("ja-JP", "r").unwrap_err(),
        ContentError::InvalidData {
            path: "r".to_string(),
            message: "RimWorld language pack export currently supports only zh-CN".to_string(),
        }
    );
    assert_eq!(xml_escape("a<b>&c"), "a&lt;b&gt;&amp;c");
}

#[test]
fn an_exported_language_pack_passes_the_pack_check() {
    let source = source();
    let translations = TranslationTable {
        pairs: vec![
            ("rimworld:keyed:Keyed/Example.xml:ExampleGreeting".to_owned(), "你好".to_owned()),
            (
                "rimworld:definjected:DefInjected/ThingDef/Example.xml:ExampleThing.label".to_owned(),
                "示例物品".to_owned(),
            ),
        ],
    };
    let request = ExportRequest {
        source: &source,
        translations: &translations,
        output_root: "out/pack",
        target_language: "zh-CN",
    };
    let result = RimWorldLanguagePackOutputAdapter.export(&request, listing()).unwrap();
    assert_eq!(result.files.len(), 3);
    let exported: Vec<ExportedFile> = result
        .files
        .iter()
        .zip(result.contents.iter())
        .map(|(path, content)| ExportedFile {
            target_path: path.clone(),
            source: None,
            target: Ok(content.as_bytes().to_vec()),
        })
        .collect();
    let manifest = content_patch_manifest(ROOT, "out/pack", &exported).unwrap();
    assert_eq!(
        manifest.files.iter().map(|f| f.relative_path.as_str()).collect::<Vec<_>>(),
        vec![
            "Languages/ChineseSimplified/DefInjected/ThingDef/Example.xml",
            "Languages/ChineseSimplified/Keyed/Example.xml",
            "Languages/ChineseSimplified/LanguageInfo.xml",
        ]
    );
    assert!(validate_rimworld_language_manifest(&manifest).is_ok());
}
