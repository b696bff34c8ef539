use game_translator::desktop::{
    content_label, eta_seconds, language_prompt, safe_file_stem, translation_progress_message,
    validate_patch_relative_path, validate_rimworld_language_manifest,
};
use game_translator::history::{
    all_patch_history, clear_patch_installation, patch_history_for_project, patch_history_id, patch_to_uninstall, record_patch_export, record_patch_installation, remove_patch_history_entry,
};
use game_translator::patch::{PatchFile, PatchManifest};

#[test]
fn sanitizes_windows_export_file_names() {
    assert_eq!(safe_file_stem("书名：测试/终稿?"), "书名：测试_终稿_");
}

#[test]
fn sanitizes_every_reserved_character_and_trims() {
    assert_eq!(safe_file_stem("  a<b>c:d\"e\\f|g*h  "), "a_b_c_d_e_f_g_h");
}

#[test]
fn labels_content_formats() {
    assert_eq!(content_label("game.rpgmaker.mz"), "RPG Maker MZ");
    assert_eq!(content_label("game.rimworld.mod"), "RimWorld 模组");
    assert_eq!(content_label("other"), "内容来源");
}

#[test]
fn names_languages_for_the_model() {
    assert_eq!(language_prompt("auto", "自动检测"), "Auto-detect the source language");
    assert_eq!(language_prompt("zh-CN", "简体中文"), "简体中文 (zh-CN)");
}

#[test]
fn refuses_unsafe_patch_paths() {
    assert!(validate_patch_relative_path("game/tl/ja_JP/script.rpy").is_ok());
    assert!(validate_patch_relative_path("./data/Map001.json").is_ok());
    assert_eq!(
        validate_patch_relative_path("../outside.rpy").unwrap_err(),
        "补丁包含不安全路径: ../outside.rpy"
    );
    assert!(validate_patch_relative_path("/etc/passwd").is_err());
    assert!(validate_patch_relative_path("a/../../b").is_err());
}

#[test]
fn refuses_windows_forms_of_unsafe_patch_paths() {
    assert!(validate_patch_relative_path("game\\tl\\ja_JP\\script.rpy").is_ok());
    assert!(validate_patch_relative_path(".\\a.txt").is_ok());
    assert!(validate_patch_relative_path("..\\x").is_err());
    assert!(validate_patch_relative_path("a\\..\\..\\b").is_err());
    assert!(validate_patch_relative_path("C:\\x").is_err());
    assert!(validate_patch_relative_path("c:x").is_err());
    assert!(validate_patch_relative_path("\\x").is_err());
    assert!(validate_patch_relative_path("\\\\server\\share\\x").is_err());
}

#[test]
fn rimworld_language_packs_stay_in_their_directory() {
    let file = |p: &str| PatchFile {
        relative_path: p.to_string(),
        source_sha256: String::new(),
        target_sha256: String::new(),
    };
    let good = PatchManifest {
        format_version: 1,
        files: vec![file("Languages/ChineseSimplified/Keyed/Example.xml")],
    };
    assert!(validate_rimworld_language_manifest(&good).is_ok());
    let bad = PatchManifest {
        format_version: 1,
        files: vec![file("Languages/ChineseSimplified/Keyed/A.xml"), file("About/About.xml")],
    };
    assert_eq!(
        validate_rimworld_language_manifest(&bad).unwrap_err(),
        "RimWorld 语言包包含无效路径: About/About.xml"
    );
    let prefix_only = PatchManifest {
        format_version: 1,
        files: vec![file("Languages/ChineseSimplifiedX/A.xml")],
    };
    assert!(validate_rimworld_language_manifest(&prefix_only).is_err());
}

#[test]
fn reports_translation_progress() {
    assert_eq!(translation_progress_message(0, 12, 4, 0), "已启动 4 路并发请求 · 共 12 个批次");
    assert_eq!(
        translation_progress_message(3, 12, 4, 2345),
        "批次 3/12 · 活动请求 4 · 最近耗时 2.3 秒"
    );
}

#[test]
fn estimates_remaining_time_from_model_throughput() {
    assert_eq!(eta_seconds(0, 0, 0, 0, 10, 5000), 0);
    assert_eq!(eta_seconds(4, 0, 1, 5, 10, 5000), 5);
    assert_eq!(eta_seconds(6, 2, 0, 6, 10, 3001), 4);
    assert_eq!(eta_seconds(3, 5, 0, 3, 10, 1000), 0);
}

#[test]
fn patch_history_tracks_exports_and_installations_per_project() {
    let first_project = "D:/Games/First";
    let second_project = "D:/Games/Second";
    let first_patch = "D:/Patches/First-zh-CN";
    let second_patch = "D:/Patches/Second-zh-CN";

    let history = record_patch_export(Vec::new(), first_project, first_patch, "zh-CN", 2, 10);
    let history = record_patch_export(history, second_project, second_patch, "zh-CN", 1, 20);
    let history = record_patch_installation(history, first_project, first_patch, "zh-CN", 2, 30);

    let entries = patch_history_for_project(history, first_project);

    assert_eq!(entries.len(), 1);
    assert_eq!(entries[0].patch_path, first_patch);
    assert_eq!(entries[0].file_count, 2);
    assert_eq!(entries[0].installed_at_unix_ms, Some(30));
    assert_eq!(entries[0].exported_at_unix_ms, 10);
}

#[test]
fn clearing_an_installation_keeps_its_export_in_history() {
    let project = "D:/Games/First";
    let patch = "D:/Patches/First-zh-CN";
    let history = record_patch_export(Vec::new(), project, patch, "zh-CN", 2, 10);
    let history = record_patch_installation(history, project, patch, "zh-CN", 2, 20);

    let history = clear_patch_installation(history, project, patch).unwrap();

    let entries = patch_history_for_project(history, project);
    assert_eq!(entries.len(), 1);
    assert_eq!(entries[0].installed_at_unix_ms, None);
    assert_eq!(
        clear_patch_installation(Vec::new(), project, patch).unwrap_err(),
        "未找到补丁历史记录"
    );
}

#[test]
fn deletes_only_an_uninstalled_patch_history_entry() {
    let project = "D:/Games/First";
    let patch = "D:/Patches/First-zh-CN";
    let history = record_patch_export(Vec::new(), project, patch, "zh-CN", 2, 10);
    let installed = record_patch_installation(history.clone(), project, patch, "zh-CN", 2, 20);
    let id = patch_history_id(project, patch);

    assert_eq!(
        remove_patch_history_entry(installed, project, &id).unwrap_err(),
        "请先卸载补丁，再删除历史记录"
    );
    let history = remove_patch_history_entry(history, project, &id).unwrap();

    assert!(patch_history_for_project(history.clone(), project).is_empty());
    assert_eq!(
        remove_patch_history_entry(history, project, &id).unwrap_err(),
        "未找到该项目的补丁历史记录"
    );
}

#[test]
fn lists_patch_history_across_all_projects_newest_first() {
    let history = record_patch_export(Vec::new(), "dir/first", "dir/one", "zh-CN", 1, 10);
    let history = record_patch_export(history, "dir/second", "dir/two", "zh-CN", 1, 20);

    let entries = all_patch_history(history);
    assert_eq!(entries.len(), 2);
    assert_eq!(entries[0].project_path, "dir/second");
    assert_eq!(entries[1].project_path, "dir/first");
}

#[test]
fn history_ids_hash_both_paths() {
    let id = patch_history_id("a", "b");
    assert_eq!(id.len(), 64);
    assert_ne!(id, patch_history_id("b", "a"));
    assert_ne!(id, patch_history_id("a", "c"));
}

#[test]
fn recording_again_updates_the_entry() {
    let history = record_patch_export(Vec::new(), "p", "q", "zh-CN", 1, 10);
    let history = record_patch_export(history, "p", "q", "ja-JP", 3, 40);
    assert_eq!(history.len(), 1);
    assert_eq!(history[0].target_language, "ja-JP");
    assert_eq!(history[0].file_count, 3);
    assert_eq!(history[0].exported_at_unix_ms, 40);
    let installed = record_patch_installation(Vec::new(), "p", "q", "zh-CN", 1, 50);
    assert_eq!(installed[0].exported_at_unix_ms, 50);
    assert_eq!(installed[0].installed_at_unix_ms, Some(50));
}

#[test]
fn only_an_installed_patch_of_the_project_is_uninstalled() {
    let project = "D:/Games/First";
    let patch = "D:/Patches/First-zh-CN";
    let history = record_patch_export(Vec::new(), project, patch, "zh-CN", 2, 10);
    let id = history[0].id.clone();
    assert_eq!(
        patch_to_uninstall(&history, project, &id).unwrap_err(),
        "该补丁没有安装记录，无法卸载"
    );
    assert_eq!(
        patch_to_uninstall(&history, "D:/Games/Other", &id).unwrap_err(),
        "未找到该项目的补丁历史记录"
    );
    let history = record_patch_installation(history, project, patch, "zh-CN", 2, 20);
    assert_eq!(patch_to_uninstall(&history, project, &id).unwrap(), patch);
}

#[test]
fn patch_history_entries_of_the_same_time_keep_their_order() {
    let history = record_patch_export(Vec::new(), "D:/Games/B", "D:/Patches/B", "zh-CN", 1, 10);
    let history = record_patch_export(history, "D:/Games/A", "D:/Patches/A", "zh-CN", 1, 10);
    let history = record_patch_export(history, "D:/Games/C", "D:/Patches/C", "zh-CN", 1, 20);
    let paths: Vec<String> =
        all_patch_history(history).into_iter().map(|entry| entry.project_path).collect();
    assert_eq!(paths, vec!["D:/Games/C", "D:/Games/B", "D:/Games/A"]);
}
