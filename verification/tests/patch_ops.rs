use game_translator::content::{Segment, SegmentContext, SegmentKind};
use game_translator::desktop::{provider_key_action, require_stored_key, DesktopPreferences, KeyAction};
use game_translator::patch::{hash_bytes, PatchFile, PatchManifest, QaSeverity};
use game_translator::patch_ops::{
    check_installable, check_manifest_version, check_patch_file, check_uninstallable,
    content_patch_manifest, install_steps, installed_path, patch_output_name, plan_uninstall,
    refuse_blocking_findings, scan_summary, uninstall_counts, ExportedFile, InstalledFile,
};
use game_translator::translation_run::{
    restore_and_check, table_from_items, translation_fingerprint, SegmentCheck, TranslationItem,
};
use game_translator::translations::TranslationTable;

fn segment(id: &str, source: &str) -> Segment {
    Segment {
        id: id.to_owned(),
        source: source.to_owned(),
        source_file: "data/Map001.json".to_owned(),
        location: "0".to_owned(),
        kind: SegmentKind::Dialogue,
        context: SegmentContext {
            speaker: Some("Alice".to_owned()),
            previous_text: None,
            next_text: None,
        },
    }
}

fn manifest(files: &[(&str, &[u8])]) -> PatchManifest {
    PatchManifest {
        format_version: 1,
        files: files
            .iter()
            .map(|(path, bytes)| PatchFile {
                relative_path: (*path).to_owned(),
                source_sha256: String::new(),
                target_sha256: hash_bytes(bytes),
            })
            .collect(),
    }
}

#[test]
fn only_renpy_and_rimworld_patches_install() {
    assert!(check_installable("game.renpy").is_ok());
    assert!(check_installable("game.rimworld.mod").is_ok());
    assert_eq!(
        check_installable("game.rpgmaker.mv").unwrap_err(),
        "当前内容类型仅支持导出独立补丁目录"
    );
    assert_eq!(
        check_uninstallable("game.rpgmaker.mz").unwrap_err(),
        "当前内容类型不支持自动卸载"
    );
    assert_eq!(
        installed_path("game.rimworld.mod", "/mods/Foo", "zh-CN"),
        "/mods/Foo/Languages/ChineseSimplified"
    );
    assert_eq!(installed_path("game.renpy", "/games/vn", "zh-CN"), "/games/vn/game/tl/zh_CN");
}

#[test]
fn install_copies_each_file_with_a_backup_place() {
    let steps = install_steps("/game", "/patch", &manifest(&[("game/tl/a.rpy", b"x")]));
    assert_eq!(steps.len(), 1);
    assert_eq!(steps[0].source, "/patch/game/tl/a.rpy");
    assert_eq!(steps[0].destination, "/game/game/tl/a.rpy");
    assert_eq!(steps[0].backup, "/patch/backup/game/tl/a.rpy");
}

#[test]
fn checks_manifest_version_and_file_hashes() {
    let mut m = manifest(&[("a.txt", b"hello")]);
    assert!(check_manifest_version(&m).is_ok());
    assert!(check_patch_file("/patch", &m.files[0], &Ok(b"hello".to_vec())).is_ok());
    assert_eq!(
        check_patch_file("/patch", &m.files[0], &Ok(b"changed".to_vec())).unwrap_err(),
        "补丁文件校验失败: a.txt"
    );
    assert_eq!(
        check_patch_file("/patch", &m.files[0], &Err("gone".to_owned())).unwrap_err(),
        "读取 /patch/a.txt 失败: gone"
    );
    m.format_version = 2;
    assert_eq!(check_manifest_version(&m).unwrap_err(), "不支持的补丁格式版本: 2");
}

#[test]
fn uninstall_restores_backups_and_removes_unchanged_files() {
    let m = manifest(&[("a.txt", b"one"), ("b.txt", b"two"), ("c.txt", b"three")]);
    let states = vec![
        InstalledFile { backup_is_file: true, destination: Some(Ok(b"other".to_vec())) },
        InstalledFile { backup_is_file: false, destination: Some(Ok(b"two".to_vec())) },
        InstalledFile { backup_is_file: false, destination: None },
    ];
    let actions = plan_uninstall("/game", "/patch", &m, &states).unwrap();
    assert_eq!(actions.len(), 2);
    assert_eq!(actions[0].destination, "/game/a.txt");
    assert_eq!(actions[0].backup.as_deref(), Some("/patch/backup/a.txt"));
    assert_eq!(actions[1].destination, "/game/b.txt");
    assert_eq!(actions[1].backup, None);
    assert_eq!(uninstall_counts(&actions), (1, 1));
}

#[test]
fn uninstall_refuses_modified_files() {
    let m = manifest(&[("a.txt", b"one")]);
    let states = vec![InstalledFile { backup_is_file: false, destination: Some(Ok(b"edited".to_vec())) }];
    assert_eq!(
        plan_uninstall("/game", "/patch", &m, &states).unwrap_err(),
        "拒绝卸载：安装文件已被修改: a.txt"
    );
}

#[test]
fn content_manifests_hash_sources_and_targets() {
    let files = vec![
        ExportedFile {
            target_path: "/out/Languages/ChineseSimplified/Keyed/A.xml".to_owned(),
            source: Some(Ok(b"old".to_vec())),
            target: Ok(b"new".to_vec()),
        },
        ExportedFile {
            target_path: "/out/LoadFolders.xml".to_owned(),
            source: None,
            target: Ok(b"x".to_vec()),
        },
    ];
    let m = content_patch_manifest("/mod", "/out", &files).unwrap();
    assert_eq!(m.format_version, 1);
    assert_eq!(m.files[0].relative_path, "Languages/ChineseSimplified/Keyed/A.xml");
    assert_eq!(m.files[0].source_sha256, hash_bytes(b"old"));
    assert_eq!(m.files[0].target_sha256, hash_bytes(b"new"));
    assert_eq!(m.files[1].source_sha256, "");
    let outside = vec![ExportedFile {
        target_path: "/elsewhere/x".to_owned(),
        source: None,
        target: Ok(Vec::new()),
    }];
    assert_eq!(content_patch_manifest("/mod", "/out", &outside).unwrap_err(), "prefix not found");
}

#[test]
fn names_patch_folders_after_the_game_and_language() {
    assert_eq!(patch_output_name("/games/My Game", "zh-CN"), "My Game-zh-CN");
    assert_eq!(patch_output_name("/games/vn/", "pt_BR!"), "vn-ptBR");
    assert_eq!(patch_output_name("", "ja"), "game-ja");
}

#[test]
fn scans_summarise_segments_as_untranslated_items() {
    let segments = vec![segment("a", "Hello"), segment("b", "Bye")];
    let scan = scan_summary("/games/Quest", "game.rpgmaker.mv", &segments);
    assert_eq!(scan.project_name, "Quest");
    assert_eq!(scan.engine, "RPG Maker MV");
    assert_eq!(scan.segment_count, 2);
    assert_eq!(scan.preview_items[1].source, "Bye");
    assert_eq!(scan.preview_items[1].target, "");
    assert_eq!(scan.preview_items[1].qa, "passed");
    assert_eq!(scan.preview_items[0].speaker.as_deref(), Some("Alice"));
    assert_eq!(scan_summary("", "x", &segments).project_name, "未命名项目");
}

#[test]
fn restores_and_checks_translations() {
    let segments = vec![segment("a", "Hello"), segment("b", "Bye"), segment("c", "Skip"), segment("d", "Odd")];
    let table = TranslationTable {
        pairs: vec![
            ("a".to_owned(), "你好".to_owned()),
            ("b".to_owned(), "再见".to_owned()),
            ("d".to_owned(), "怪".to_owned()),
        ],
    };
    let checks = vec![
        SegmentCheck {
            restored: Some(Ok("你好".to_owned())),
            severities: vec![QaSeverity::Warning],
            cached: false,
            fingerprint: Some("fa".to_owned()),
        },
        SegmentCheck {
            restored: Some(Ok("再见".to_owned())),
            severities: vec![QaSeverity::Warning, QaSeverity::Blocking],
            cached: false,
            fingerprint: Some("fb".to_owned()),
        },
        SegmentCheck { restored: None, severities: Vec::new(), cached: false, fingerprint: None },
        SegmentCheck { restored: Some(Err(())), severities: Vec::new(), cached: false, fingerprint: None },
    ];

    let run = restore_and_check(&segments, &table, &checks).unwrap();

    assert_eq!(run.items.len(), 3);
    assert_eq!(run.items[0].qa, "warning");
    assert_eq!(run.items[1].qa, "blocking");
    assert_eq!(run.items[2].qa, "blocking");
    assert_eq!(run.items[2].target, "Odd");
    assert_eq!(run.warning_findings, 2);
    assert_eq!(run.blocking_findings, 2);
    assert_eq!(run.placeholder_failed_ids, vec!["d".to_owned()]);
    assert_eq!(run.cache_writes, vec![("fa".to_owned(), "你好".to_owned())]);
    assert_eq!(run.progress, Vec::<u64>::new());
}

#[test]
fn a_translated_segment_needs_its_placeholder_map() {
    let segments = vec![segment("a", "Hello")];
    let table = TranslationTable { pairs: vec![("a".to_owned(), "你好".to_owned())] };
    let checks = vec![SegmentCheck { restored: None, severities: Vec::new(), cached: false, fingerprint: None }];
    assert_eq!(
        restore_and_check(&segments, &table, &checks).unwrap_err(),
        "缺少占位符映射: a"
    );
}

#[test]
fn reports_quality_progress_at_the_last_segment() {
    let segments = vec![segment("a", "Hello")];
    let table = TranslationTable { pairs: vec![("a".to_owned(), "你好".to_owned())] };
    let checks = vec![SegmentCheck {
        restored: Some(Ok("你好".to_owned())),
        severities: Vec::new(),
        cached: true,
        fingerprint: Some("f".to_owned()),
    }];
    let run = restore_and_check(&segments, &table, &checks).unwrap();
    assert_eq!(run.items[0].qa, "passed");
    assert_eq!(run.progress, vec![1]);
    assert!(run.cache_writes.is_empty());
}

#[test]
fn fingerprints_depend_on_every_input() {
    let a = translation_fingerprint("scope", "model", "en", "zh", &segment("a", "Hello"));
    let b = translation_fingerprint("scope", "model", "en", "zh", &segment("a", "Hello!"));
    let c = translation_fingerprint("scope2", "model", "en", "zh", &segment("a", "Hello"));
    assert_eq!(a.len(), 64);
    assert_ne!(a, b);
    assert_ne!(a, c);
    let mut bytes = Vec::new();
    for part in ["game-translator-prompt-v2", "scope", "model", "en", "zh", "a", "Hello", "Alice", "", ""] {
        bytes.extend_from_slice(part.as_bytes());
        bytes.push(0);
    }
    assert_eq!(a, hash_bytes(&bytes));
}

#[test]
fn provider_keys_are_stored_or_required() {
    assert_eq!(provider_key_action("mock", None), KeyAction::NotNeeded);
    assert_eq!(provider_key_action("openai", Some("sk")), KeyAction::Store("sk".to_owned()));
    assert_eq!(provider_key_action("openai", Some("")), KeyAction::RequireStored);
    assert_eq!(provider_key_action("openai", None), KeyAction::RequireStored);
    assert!(require_stored_key(&Some("sk".to_owned())).is_ok());
    assert_eq!(
        require_stored_key(&None).unwrap_err(),
        "OpenAI-compatible Provider 需要 API Key"
    );
}

#[test]
fn default_preferences_detect_the_source_and_target_chinese() {
    let preferences = DesktopPreferences::default();
    assert_eq!(preferences.recent_project_path, None);
    assert_eq!(preferences.source_language.code, "auto");
    assert_eq!(preferences.target_language.name, "简体中文");
}

#[test]
fn uninstalls_patch_by_restoring_backups_or_removing_unmodified_files() {
    let original = "translate ja_JP start:\n    \"original\"\n";
    let translated = "translate ja_JP start:\n    \"translated\"\n";
    assert!(check_uninstallable("game.renpy").is_ok());
    let m = manifest(&[("game/tl/ja_JP/script.rpy", translated.as_bytes())]);
    assert_ne!(hash_bytes(original.as_bytes()), m.files[0].target_sha256);
    let states = vec![InstalledFile {
        backup_is_file: true,
        destination: Some(Ok(translated.as_bytes().to_vec())),
    }];
    let actions = plan_uninstall("root", "patch", &m, &states).unwrap();
    assert_eq!(actions.len(), 1);
    assert_eq!(actions[0].destination, "root/game/tl/ja_JP/script.rpy");
    assert_eq!(actions[0].backup.as_deref(), Some("patch/backup/game/tl/ja_JP/script.rpy"));
    let (restored_file_count, removed_file_count) = uninstall_counts(&actions);
    assert_eq!(restored_file_count, 1);
    assert_eq!(removed_file_count, 0);
}

#[test]
fn refuses_to_remove_a_patch_file_changed_after_installation() {
    let translated = "translate ja_JP start:\n    \"translated\"\n";
    let m = manifest(&[("game/tl/ja_JP/script.rpy", translated.as_bytes())]);
    let states = vec![InstalledFile {
        backup_is_file: false,
        destination: Some(Ok(b"changed by user".to_vec())),
    }];
    let error = plan_uninstall("root", "patch", &m, &states).unwrap_err();
    assert!(error.contains("已被修改"));
}

#[test]
fn uninstalling_right_after_installing_undoes_each_copy() {
    let m = manifest(&[("game/tl/zh_CN/a.rpy", b"A"), ("game/tl/zh_CN/b.rpy", b"B")]);
    let steps = install_steps("/g", "/p", &m);
    let states = vec![
        InstalledFile { backup_is_file: true, destination: Some(Ok(b"A".to_vec())) },
        InstalledFile { backup_is_file: false, destination: Some(Ok(b"B".to_vec())) },
    ];
    let actions = plan_uninstall("/g", "/p", &m, &states).unwrap();
    assert_eq!(actions.len(), 2);
    assert_eq!(actions[0].destination, steps[0].destination);
    assert_eq!(actions[0].backup.as_deref(), Some(steps[0].backup.as_str()));
    assert_eq!(actions[1].destination, steps[1].destination);
    assert_eq!(actions[1].backup, None);
    assert_eq!(uninstall_counts(&actions), (1, 1));
}

fn item(id: &str, target: &str) -> TranslationItem {
    TranslationItem {
        id: id.to_owned(),
        source: "source".to_owned(),
        target: target.to_owned(),
        speaker: None,
        source_file: "data/Map001.json".to_owned(),
        qa: "passed".to_owned(),
    }
}

#[test]
fn translated_lines_become_a_translation_table_where_the_last_item_counts() {
    let table = table_from_items(&vec![item("a", "一"), item("b", "二"), item("a", "三")]);
    assert_eq!(table.get("a").map(String::as_str), Some("三"));
    assert_eq!(table.get("b").map(String::as_str), Some("二"));
    assert_eq!(table.get("c"), None);
}

#[test]
fn blocking_findings_refuse_an_export() {
    assert!(refuse_blocking_findings(&vec![]).is_ok());
    assert!(refuse_blocking_findings(&vec![QaSeverity::Warning]).is_ok());
    assert_eq!(
        refuse_blocking_findings(&vec![QaSeverity::Warning, QaSeverity::Blocking]).unwrap_err(),
        "存在阻断性质量问题，无法导出"
    );
}
