use game_translator::adapters::{
    detect_content, engine_name, export_content, extract_content, AdapterRegistry, ContentFiles,
    ContentProbes, RenPyProbe, RpgMakerFiles, RpgMakerProbe,
};
use game_translator::content::{ContentError, EngineKind, FileRead};
use game_translator::rimworld::{LanguageFile, RimWorldListing};
use game_translator::rpgmaker::DataFile;
use game_translator::patch_ops::scan_summary;
use game_translator::translations::TranslationTable;

const ABOUT: &str = "<ModMetaData><packageId>example.author.minimal</packageId></ModMetaData>";

const KEYED: &str = "<LanguageData><ExampleGreeting>Hello, {0}!</ExampleGreeting><ExampleFarewell>Bye</ExampleFarewell></LanguageData>";

const DEFINJECTED: &str = "<LanguageData><ExampleThing.label>Example thing</ExampleThing.label></LanguageData>";

fn no_rpg() -> RpgMakerProbe {
    RpgMakerProbe { www_data_is_dir: false, data_is_dir: false, system: FileRead::Missing }
}

fn no_renpy() -> RenPyProbe {
    RenPyProbe { renpy_is_dir: false, game_is_dir: false, listing: Ok(Vec::new()) }
}

fn rpg_mz() -> RpgMakerProbe {
    RpgMakerProbe { www_data_is_dir: false, data_is_dir: true, system: FileRead::Text("{}".to_string()) }
}

fn rimworld_listing() -> RimWorldListing {
    RimWorldListing {
        english_exists: true,
        files: vec![
            LanguageFile {
                category: "keyed".to_string(),
                relative_path: "Keyed/Example.xml".to_string(),
                content: Ok(KEYED.to_string()),
            },
            LanguageFile {
                category: "definjected".to_string(),
                relative_path: "DefInjected/ThingDef/Example.xml".to_string(),
                content: Ok(DEFINJECTED.to_string()),
            },
        ],
        error: None,
    }
}

#[test]
fn one_registry_owns_all_supported_content_formats() {
    let registry = AdapterRegistry::default();
    assert_eq!(
        registry.format_ids(),
        ["game.rpgmaker.mv", "game.rpgmaker.mz", "game.renpy", "game.rimworld.mod"]
    );
    let rpg = ContentProbes { rpgmaker: rpg_mz(), renpy: no_renpy(), rimworld: FileRead::Missing };
    assert_eq!(
        registry.detect("fixtures/rpgmaker-mz-minimal", &rpg).unwrap().format_id,
        "game.rpgmaker.mz"
    );
    let renpy = ContentProbes {
        rpgmaker: no_rpg(),
        renpy: RenPyProbe {
            renpy_is_dir: true,
            game_is_dir: true,
            listing: Ok(vec!["Mayfly.exe".to_string()]),
        },
        rimworld: FileRead::Missing,
    };
    assert_eq!(
        registry.detect("fixtures/renpy-template", &renpy).unwrap().format_id,
        "game.renpy"
    );
    let rimworld = ContentProbes {
        rpgmaker: no_rpg(),
        renpy: no_renpy(),
        rimworld: FileRead::Text(ABOUT.to_string()),
    };
    assert_eq!(
        registry.detect("fixtures/rimworld-mod-minimal", &rimworld).unwrap().format_id,
        "game.rimworld.mod"
    );
    let nothing = ContentProbes { rpgmaker: no_rpg(), renpy: no_renpy(), rimworld: FileRead::Missing };
    assert_eq!(
        registry.detect("elsewhere", &nothing).unwrap_err(),
        ContentError::UnsupportedSource
    );
}

#[test]
fn detects_and_extracts_a_registered_content_source() {
    let probes = ContentProbes { rpgmaker: rpg_mz(), renpy: no_renpy(), rimworld: FileRead::Missing };
    let source = detect_content("fixtures/rpgmaker-mz-dialogue", &probes)
        .expect("registered RPG Maker adapter should detect the fixture");
    let files = ContentFiles::RpgMaker(RpgMakerFiles {
        probe: rpg_mz(),
        listing: Ok(vec![DataFile {
            name: "Map001.json".to_string(),
            content: Ok(r#"{"events":[null,{"pages":[{"list":[{"code":401,"parameters":["やっと着いた。"]}]}]}]}"#.to_string()),
        }]),
    });
    let segments = extract_content(&source, files).expect("registered adapter should extract the fixture");

    assert_eq!(source.format_id, "game.rpgmaker.mz");
    assert!(!segments.is_empty());
}

#[test]
fn detects_and_extracts_a_registered_rimworld_mod_source() {
    let probes = ContentProbes {
        rpgmaker: no_rpg(),
        renpy: no_renpy(),
        rimworld: FileRead::Text(ABOUT.to_string()),
    };
    let source = detect_content("fixtures/rimworld-mod-minimal", &probes)
        .expect("registered RimWorld adapter should detect the fixture");
    let segments = extract_content(&source, ContentFiles::RimWorld(rimworld_listing()))
        .expect("registered adapter should extract the fixture");

    assert_eq!(source.format_id, "game.rimworld.mod");
    assert_eq!(source.source_id, "example.author.minimal");
    assert_eq!(segments.len(), 3);
}

#[test]
fn only_rimworld_sources_export_standalone_packs() {
    let probes = ContentProbes { rpgmaker: rpg_mz(), renpy: no_renpy(), rimworld: FileRead::Missing };
    let source = detect_content("game", &probes).unwrap();
    let table = TranslationTable { pairs: Vec::new() };
    assert_eq!(
        export_content(&source, &table, "out", "zh-CN", rimworld_listing()).unwrap_err(),
        ContentError::UnsupportedSource
    );
    let mismatched = extract_content(&source, ContentFiles::RimWorld(rimworld_listing()));
    assert_eq!(mismatched.unwrap_err(), ContentError::UnsupportedSource);
}

#[test]
fn names_engines() {
    assert_eq!(engine_name(EngineKind::RpgMakerMv), "RPG Maker MV");
    assert_eq!(engine_name(EngineKind::RpgMakerMz), "RPG Maker MZ");
    assert_eq!(engine_name(EngineKind::RenPy), "Ren'Py");
}

#[test]
fn scan_returns_source_text_for_review_before_translation() {
    let root = "fixtures/rpgmaker-mz-dialogue";
    let probes = ContentProbes { rpgmaker: rpg_mz(), renpy: no_renpy(), rimworld: FileRead::Missing };
    let source = detect_content(root, &probes).unwrap();
    let files = ContentFiles::RpgMaker(RpgMakerFiles {
        probe: rpg_mz(),
        listing: Ok(vec![DataFile {
            name: "Map001.json".to_string(),
            content: Ok(r#"{"events":[null,{"pages":[{"list":[{"code":101,"parameters":["",0,0,2,"アリス"]},{"code":401,"parameters":["やっと着いた。 \\V[1]"]},{"code":401,"parameters":["ここが月の神殿ね。"]}]}]}]}"#.to_string()),
        }]),
    });
    let segments = extract_content(&source, files).unwrap();

    let result = scan_summary(root, source.format_id, &segments);

    assert!(!result.preview_items.is_empty());
    assert!(result.preview_items.iter().all(|item| item.target.is_empty()));
    assert_eq!(result.engine, "RPG Maker MZ");
    assert_eq!(result.project_path, root);
}
