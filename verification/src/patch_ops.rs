use crate::book::{file_name, file_name_exec};
use crate::content::{join, join_path, segment_models, Segment, SegmentModel};
use crate::desktop::{content_label, format_label};
use crate::patch::{file_hash, hash_bytes, patch_file_models, PatchFile, PatchManifest, QaSeverity};
use crate::renpy::{language_identifier, renpy_identifier};
use crate::rpgmaker::{strip_root, strip_root_exec};
use crate::text::{chars_of, decimal, owned, push_chars, push_decimal, push_str, str_equal, string_from};
use crate::translation_run::{item_models, ItemModel, TranslationItem};
use vstd::prelude::*;

verus! {

// ---------------------------------------------------------------------------
// Which content can be installed
// ---------------------------------------------------------------------------
/// Whether patches of a content format can be installed into the game and
/// taken out again.
pub open spec fn installable(format_id: Seq<char>) -> bool {
    format_id == "game.renpy"@ || format_id == "game.rimworld.mod"@
}

fn is_installable(format_id: &str) -> (r: bool)
    ensures
        r == installable(format_id@),
{
    str_equal(format_id, "game.renpy") || str_equal(format_id, "game.rimworld.mod")
}

/// Refuses to install a patch into content other than Ren'Py games and
/// RimWorld mods.
pub fn check_installable(format_id: &str) -> (r: Result<(), String>)
    ensures
        r is Ok <==> installable(format_id@),
        r matches Err(m) ==> m@ == "当前内容类型仅支持导出独立补丁目录"@,
{
    if is_installable(format_id) {
        Ok(())
    } else {
        Err(owned("当前内容类型仅支持导出独立补丁目录"))
    }
}

/// Refuses to uninstall a patch from content other than Ren'Py games and
/// RimWorld mods.
pub fn check_uninstallable(format_id: &str) -> (r: Result<(), String>)
    ensures
        r is Ok <==> installable(format_id@),
        r matches Err(m) ==> m@ == "当前内容类型不支持自动卸载"@,
{
    if is_installable(format_id) {
        Ok(())
    } else {
        Err(owned("当前内容类型不支持自动卸载"))
    }
}

/// Where an installed patch lives: the RimWorld language folder, or the Ren'Py
/// translation folder of the language.
pub open spec fn installed_location(format_id: Seq<char>, project_path: Seq<char>, language: Seq<char>) -> Seq<char> {
    if format_id == "game.rimworld.mod"@ {
        join_path(project_path, "Languages/ChineseSimplified"@)
    } else {
        join_path(join_path(project_path, "game/tl"@), renpy_identifier(language))
    }
}

/// Where an installed patch lives.
pub fn installed_path(format_id: &str, project_path: &str, language: &str) -> (r: String)
    ensures
        r@ == installed_location(format_id@, project_path@, language@),
{
    if str_equal(format_id, "game.rimworld.mod") {
        join(project_path, "Languages/ChineseSimplified")
    } else {
        let tl = join(project_path, "game/tl");
        let id = language_identifier(language);
        join(tl.as_str(), id.as_str())
    }
}

/// One file copy of an installation: the patch file, where it goes, and where
/// the game's own file is backed up first when there is one.
#[derive(Clone, Debug, PartialEq, Eq)]
pub struct InstallStep {
    pub source: String,
    pub destination: String,
    pub backup: String,
}

/// The copies that install a patch, one per manifest file, in order.
pub open spec fn install_plan(project_path: Seq<char>, patch_path: Seq<char>, files: Seq<(Seq<char>, Seq<char>, Seq<char>)>) -> Seq<
    (Seq<char>, Seq<char>, Seq<char>),
> {
    Seq::new(
        files.len(),
        |i: int|
            (
                join_path(patch_path, files[i].0),
                join_path(project_path, files[i].0),
                join_path(join_path(patch_path, "backup"@), files[i].0),
            ),
    )
}

/// The models of install steps.
pub open spec fn step_models(v: Seq<InstallStep>) -> Seq<(Seq<char>, Seq<char>, Seq<char>)> {
    v.map_values(|s: InstallStep| (s.source@, s.destination@, s.backup@))
}

/// The copies that install a patch.
pub fn install_steps(project_path: &str, patch_path: &str, manifest: &PatchManifest) -> (r: Vec<InstallStep>)
    ensures
        step_models(r@) == install_plan(project_path@, patch_path@, patch_file_models(manifest.files@)),
{
    let ghost files = patch_file_models(manifest.files@);
    let backup_root = join(patch_path, "backup");
    let mut steps: Vec<InstallStep> = Vec::new();
    let mut i: usize = 0;
    while i < manifest.files.len()
        invariant
            i <= manifest.files.len(),
            files == patch_file_models(manifest.files@),
            backup_root@ == join_path(patch_path@, "backup"@),
            step_models(steps@) == install_plan(project_path@, patch_path@, files).take(i as int),
        decreases manifest.files.len() - i,
    {
        let rel = manifest.files[i].relative_path.as_str();
        let step = InstallStep {
            source: join(patch_path, rel),
            destination: join(project_path, rel),
            backup: join(backup_root.as_str(), rel),
        };
        let ghost before = steps@;
        steps.push(step);
        proof {
            assert(files[i as int].0 == manifest.files@[i as int].relative_path@);
            assert(step_models(steps@) =~= step_models(before).push((step.source@, step.destination@, step.backup@)));
            assert(install_plan(project_path@, patch_path@, files).take(i + 1) =~= install_plan(
                project_path@,
                patch_path@,
                files,
            ).take(i as int).push(install_plan(project_path@, patch_path@, files)[i as int]));
        }
        i = i + 1;
    }
    assert(install_plan(project_path@, patch_path@, files).take(manifest.files.len() as int)
        =~= install_plan(project_path@, patch_path@, files));
    steps
}

// ---------------------------------------------------------------------------
// Checking a patch before it is used
// ---------------------------------------------------------------------------
/// Refuses to export translations with a blocking quality finding.
pub fn refuse_blocking_findings(findings: &Vec<QaSeverity>) -> (r: Result<(), String>)
    ensures
        r is Ok <==> !findings@.contains(QaSeverity::Blocking),
        r matches Err(m) ==> m@ == "存在阻断性质量问题，无法导出"@,
{
    let mut i: usize = 0;
    while i < findings.len()
        invariant
            i <= findings.len(),
            forall|k: int| 0 <= k < i ==> findings@[k] != QaSeverity::Blocking,
        decreases findings.len() - i,
    {
        if findings[i] == QaSeverity::Blocking {
            return Err(owned("存在阻断性质量问题，无法导出"));
        }
        i = i + 1;
    }
    Ok(())
}

/// Refuses a manifest of another format version.
pub fn check_manifest_version(manifest: &PatchManifest) -> (r: Result<(), String>)
    ensures
        r is Ok <==> manifest.format_version == 1,
        r matches Err(m) ==> m@ == "不支持的补丁格式版本: "@ + decimal(manifest.format_version as nat),
{
    if manifest.format_version != 1 {
        let mut m = owned("不支持的补丁格式版本: ");
        push_decimal(&mut m, manifest.format_version as u64);
        Err(m)
    } else {
        Ok(())
    }
}

/// The message for a file that cannot be read.
pub open spec fn read_failure(path: Seq<char>, error: Seq<char>) -> Seq<char> {
    "读取 "@ + path + " 失败: "@ + error
}

/// The hash of a file's contents, or the message of the error reading it.
pub open spec fn hash_of(path: Seq<char>, contents: Result<Seq<u8>, Seq<char>>) -> Result<Seq<char>, Seq<char>> {
    match contents {
        Ok(bytes) => Ok(file_hash(bytes)),
        Err(e) => Err(read_failure(path, e)),
    }
}

/// The model of read contents.
pub open spec fn contents_model(c: Result<Vec<u8>, String>) -> Result<Seq<u8>, Seq<char>> {
    match c {
        Ok(b) => Ok(b@),
        Err(e) => Err(e@),
    }
}

fn hash_contents(path: &str, contents: &Result<Vec<u8>, String>) -> (r: Result<String, String>)
    ensures
        match r {
            Ok(h) => hash_of(path@, contents_model(*contents)) == Ok::<Seq<char>, Seq<char>>(h@),
            Err(m) => hash_of(path@, contents_model(*contents)) == Err::<Seq<char>, Seq<char>>(m@),
        },
{
    match contents {
        Ok(bytes) => Ok(hash_bytes(bytes.as_slice())),
        Err(e) => {
            let mut m = owned("读取 ");
            push_str(&mut m, path);
            push_str(&mut m, " 失败: ");
            push_str(&mut m, e.as_str());
            Err(m)
        },
    }
}

/// Checks one file of a patch against its manifest entry: the file at
/// `patch_path/relative_path` (its contents or the error reading them) must
/// hash to the recorded target hash.
pub fn check_patch_file(patch_path: &str, file: &PatchFile, contents: &Result<Vec<u8>, String>) -> (r: Result<
    (),
    String,
>)
    ensures
        match hash_of(join_path(patch_path@, file.relative_path@), contents_model(*contents)) {
            Err(m) => r matches Err(e) && e@ == m,
            Ok(h) => if h == file.target_sha256@ {
                r is Ok
            } else {
                r matches Err(m) && m@ == "补丁文件校验失败: "@ + file.relative_path@
            },
        },
{
    let path = join(patch_path, file.relative_path.as_str());
    let hash = match hash_contents(path.as_str(), contents) {
        Err(m) => {
            return Err(m);
        },
        Ok(h) => h,
    };
    if str_equal(hash.as_str(), file.target_sha256.as_str()) {
        Ok(())
    } else {
        let mut m = owned("补丁文件校验失败: ");
        push_str(&mut m, file.relative_path.as_str());
        Err(m)
    }
}

// ---------------------------------------------------------------------------
// Uninstalling
// ---------------------------------------------------------------------------
/// The state of one installed file: whether a backup of the game's own file
/// exists, and the installed file's contents (`None` when it is gone).
#[derive(Debug, PartialEq, Eq)]
pub struct InstalledFile {
    pub backup_is_file: bool,
    pub destination: Option<Result<Vec<u8>, String>>,
}

/// One step of an uninstallation: restore the backup over the destination, or
/// (without a backup) remove the destination.
#[derive(Clone, Debug, PartialEq, Eq)]
pub struct UninstallAction {
    pub destination: String,
    pub backup: Option<String>,
}

/// The model of an uninstall action.
pub open spec fn action_models(v: Seq<UninstallAction>) -> Seq<(Seq<char>, Option<Seq<char>>)> {
    v.map_values(
        |a: UninstallAction|
            (
                a.destination@,
                match a.backup {
                    Some(b) => Some(b@),
                    None => None,
                },
            ),
    )
}

/// The message for an installed file changed since installation.
pub open spec fn modified_message(relative: Seq<char>) -> Seq<char> {
    "拒绝卸载：安装文件已被修改: "@ + relative
}

/// The uninstall plan for the first `n` files: a backup is restored; an
/// installed file without a backup is removed if it still hashes as
/// installed, and refuses the uninstallation otherwise; a missing one is left.
pub open spec fn uninstall_plan(
    project_path: Seq<char>,
    patch_path: Seq<char>,
    files: Seq<(Seq<char>, Seq<char>, Seq<char>)>,
    states: Seq<(bool, Option<Result<Seq<u8>, Seq<char>>>)>,
    n: nat,
) -> Result<Seq<(Seq<char>, Option<Seq<char>>)>, Seq<char>>
    decreases n,
{
    if n == 0 {
        Ok(Seq::empty())
    } else {
        match uninstall_plan(project_path, patch_path, files, states, (n - 1) as nat) {
            Err(m) => Err(m),
            Ok(actions) => {
                let f = files[n - 1];
                let destination = join_path(project_path, f.0);
                let backup = join_path(join_path(patch_path, "backup"@), f.0);
                let state = states[n - 1];
                if state.0 {
                    Ok(actions.push((destination, Some(backup))))
                } else {
                    match state.1 {
                        None => Ok(actions),
                        Some(contents) => match hash_of(destination, contents) {
                            Err(m) => Err(m),
                            Ok(h) => if h != f.2 {
                                Err(modified_message(f.0))
                            } else {
                                Ok(actions.push((destination, None)))
                            },
                        },
                    }
                }
            },
        }
    }
}

/// The models of installed-file states.
pub open spec fn state_models(v: Seq<InstalledFile>) -> Seq<(bool, Option<Result<Seq<u8>, Seq<char>>>)> {
    v.map_values(
        |s: InstalledFile|
            (
                s.backup_is_file,
                match s.destination {
                    Some(c) => Some(contents_model(c)),
                    None => None,
                },
            ),
    )
}

proof fn lemma_plan_stops(
    project_path: Seq<char>,
    patch_path: Seq<char>,
    files: Seq<(Seq<char>, Seq<char>, Seq<char>)>,
    states: Seq<(bool, Option<Result<Seq<u8>, Seq<char>>>)>,
    k: nat,
    n: nat,
)
    requires
        k <= n,
        uninstall_plan(project_path, patch_path, files, states, k) is Err,
    ensures
        uninstall_plan(project_path, patch_path, files, states, n) == uninstall_plan(
            project_path,
            patch_path,
            files,
            states,
            k,
        ),
    decreases n - k,
{
    if k < n {
        lemma_plan_stops(project_path, patch_path, files, states, k, (n - 1) as nat);
    }
}

/// Plans the uninstallation of a patch, one state per manifest file.
pub fn plan_uninstall(
    project_path: &str,
    patch_path: &str,
    manifest: &PatchManifest,
    states: &Vec<InstalledFile>,
) -> (r: Result<Vec<UninstallAction>, String>)
    requires
        states.len() == manifest.files.len(),
    ensures
        match r {
            Ok(actions) => uninstall_plan(
                project_path@,
                patch_path@,
                patch_file_models(manifest.files@),
                state_models(states@),
                manifest.files.len() as nat,
            ) == Ok::<Seq<(Seq<char>, Option<Seq<char>>)>, Seq<char>>(action_models(actions@)),
            Err(m) => uninstall_plan(
                project_path@,
                patch_path@,
                patch_file_models(manifest.files@),
                state_models(states@),
                manifest.files.len() as nat,
            ) == Err::<Seq<(Seq<char>, Option<Seq<char>>)>, Seq<char>>(m@),
        },
{
    let ghost files = patch_file_models(manifest.files@);
    let ghost ss = state_models(states@);
    let backup_root = join(patch_path, "backup");
    let mut actions: Vec<UninstallAction> = Vec::new();
    let mut i: usize = 0;
    assert(action_models(actions@) =~= Seq::<(Seq<char>, Option<Seq<char>>)>::empty());
    while i < manifest.files.len()
        invariant
            i <= manifest.files.len(),
            states.len() == manifest.files.len(),
            files == patch_file_models(manifest.files@),
            ss == state_models(states@),
            backup_root@ == join_path(patch_path@, "backup"@),
            uninstall_plan(project_path@, patch_path@, files, ss, i as nat) == Ok::<
                Seq<(Seq<char>, Option<Seq<char>>)>,
                Seq<char>,
            >(action_models(actions@)),
        decreases manifest.files.len() - i,
    {
        let file = &manifest.files[i];
        let state = &states[i];
        assert(files[i as int] == (file.relative_path@, file.source_sha256@, file.target_sha256@));
        assert(ss[i as int].0 == state.backup_is_file);
        let destination = join(project_path, file.relative_path.as_str());
        let ghost before = action_models(actions@);
        if state.backup_is_file {
            let backup = join(backup_root.as_str(), file.relative_path.as_str());
            let action = UninstallAction { destination, backup: Some(backup) };
            actions.push(action);
            assert(action_models(actions@) =~= before.push((action.destination@, Some(backup@))));
        } else {
            match &state.destination {
                None => {},
                Some(contents) => {
                    let hash = match hash_contents(destination.as_str(), contents) {
                        Err(m) => {
                            proof {
                                lemma_plan_stops(project_path@, patch_path@, files, ss, (i + 1) as nat, manifest.files.len() as nat);
                            }
                            return Err(m);
                        },
                        Ok(h) => h,
                    };
                    if !str_equal(hash.as_str(), file.target_sha256.as_str()) {
                        let mut m = owned("拒绝卸载：安装文件已被修改: ");
                        push_str(&mut m, file.relative_path.as_str());
                        proof {
                            lemma_plan_stops(project_path@, patch_path@, files, ss, (i + 1) as nat, manifest.files.len() as nat);
                        }
                        return Err(m);
                    }
                    let action = UninstallAction { destination, backup: None };
                    actions.push(action);
                    assert(action_models(actions@) =~= before.push((action.destination@, None)));
                },
            }
        }
        i = i + 1;
    }
    Ok(actions)
}

/// How many files an uninstallation restores and removes.
pub open spec fn action_counts(actions: Seq<(Seq<char>, Option<Seq<char>>)>) -> (nat, nat)
    decreases actions.len(),
{
    if actions.len() == 0 {
        (0, 0)
    } else {
        let (r, d) = action_counts(actions.drop_last());
        if actions.last().1 is Some {
            (r + 1, d)
        } else {
            (r, d + 1)
        }
    }
}

/// How many files a planned uninstallation restores and removes.
pub fn uninstall_counts(actions: &Vec<UninstallAction>) -> (r: (usize, usize))
    ensures
        r.0 as nat == action_counts(action_models(actions@)).0,
        r.1 as nat == action_counts(action_models(actions@)).1,
{
    let ghost m = action_models(actions@);
    let mut restored: usize = 0;
    let mut removed: usize = 0;
    let mut i: usize = 0;
    assert(m.take(0) =~= Seq::<(Seq<char>, Option<Seq<char>>)>::empty());
    while i < actions.len()
        invariant
            i <= actions.len(),
            m == action_models(actions@),
            (restored as nat, removed as nat) == action_counts(m.take(i as int)),
            restored + removed == i,
        decreases actions.len() - i,
    {
        assert(m.take(i + 1).drop_last() =~= m.take(i as int));
        if actions[i].backup.is_some() {
            restored = restored + 1;
        } else {
            removed = removed + 1;
        }
        i = i + 1;
    }
    assert(m.take(actions.len() as int) =~= m);
    (restored, removed)
}

// ---------------------------------------------------------------------------
// Manifests of exported content
// ---------------------------------------------------------------------------
/// One file written by a content export: its path, the game's own file at the
/// same relative place (`None` when there is no such file, else its contents
/// or the error reading them), and the written file's contents.
#[derive(Debug, PartialEq, Eq)]
pub struct ExportedFile {
    pub target_path: String,
    pub source: Option<Result<Vec<u8>, String>>,
    pub target: Result<Vec<u8>, String>,
}

/// The model of exported files.
pub open spec fn exported_models(v: Seq<ExportedFile>) -> Seq<
    (Seq<char>, Option<Result<Seq<u8>, Seq<char>>>, Result<Seq<u8>, Seq<char>>),
> {
    v.map_values(
        |f: ExportedFile|
            (
                f.target_path@,
                match f.source {
                    Some(c) => Some(contents_model(c)),
                    None => None,
                },
                contents_model(f.target),
            ),
    )
}

/// The manifest entries of the first `n` exported files, or the first error.
pub open spec fn content_entries(
    project_path: Seq<char>,
    output_path: Seq<char>,
    files: Seq<(Seq<char>, Option<Result<Seq<u8>, Seq<char>>>, Result<Seq<u8>, Seq<char>>)>,
    n: nat,
) -> Result<Seq<(Seq<char>, Seq<char>, Seq<char>)>, Seq<char>>
    decreases n,
{
    if n == 0 {
        Ok(Seq::empty())
    } else {
        match content_entries(project_path, output_path, files, (n - 1) as nat) {
            Err(m) => Err(m),
            Ok(entries) => {
                let f = files[n - 1];
                match strip_root(output_path, f.0) {
                    None => Err("prefix not found"@),
                    Some(rel) => {
                        let source_hash = match f.1 {
                            None => Ok(Seq::empty()),
                            Some(c) => hash_of(join_path(project_path, rel), c),
                        };
                        match source_hash {
                            Err(m) => Err(m),
                            Ok(s) => match hash_of(f.0, f.2) {
                                Err(m) => Err(m),
                                Ok(t) => Ok(entries.push((rel, s, t))),
                            },
                        }
                    },
                }
            },
        }
    }
}

proof fn lemma_entries_stop(
    project_path: Seq<char>,
    output_path: Seq<char>,
    files: Seq<(Seq<char>, Option<Result<Seq<u8>, Seq<char>>>, Result<Seq<u8>, Seq<char>>)>,
    k: nat,
    n: nat,
)
    requires
        k <= n,
        content_entries(project_path, output_path, files, k) is Err,
    ensures
        content_entries(project_path, output_path, files, n) == content_entries(project_path, output_path, files, k),
    decreases n - k,
{
    if k < n {
        lemma_entries_stop(project_path, output_path, files, k, (n - 1) as nat);
    }
}

/// The manifest of an exported content patch (format version 1): each file
/// with its path relative to the output, the hash of the game file it
/// replaces (empty when there is none) and its own hash.
pub fn content_patch_manifest(project_path: &str, output_path: &str, files: &Vec<ExportedFile>) -> (r: Result<
    PatchManifest,
    String,
>)
    ensures
        match r {
            Ok(m) => m.format_version == 1 && content_entries(
                project_path@,
                output_path@,
                exported_models(files@),
                files.len() as nat,
            ) == Ok::<Seq<(Seq<char>, Seq<char>, Seq<char>)>, Seq<char>>(patch_file_models(m.files@)),
            Err(e) => content_entries(project_path@, output_path@, exported_models(files@), files.len() as nat)
                == Err::<Seq<(Seq<char>, Seq<char>, Seq<char>)>, Seq<char>>(e@),
        },
{
    let ghost fs = exported_models(files@);
    let mut entries: Vec<PatchFile> = Vec::new();
    let mut i: usize = 0;
    assert(patch_file_models(entries@) =~= Seq::<(Seq<char>, Seq<char>, Seq<char>)>::empty());
    while i < files.len()
        invariant
            i <= files.len(),
            fs == exported_models(files@),
            content_entries(project_path@, output_path@, fs, i as nat) == Ok::<
                Seq<(Seq<char>, Seq<char>, Seq<char>)>,
                Seq<char>,
            >(patch_file_models(entries@)),
        decreases files.len() - i,
    {
        let file = &files[i];
        assert(fs[i as int].0 == file.target_path@);
        let rel = match strip_root_exec(output_path, file.target_path.as_str()) {
            None => {
                proof {
                    lemma_entries_stop(project_path@, output_path@, fs, (i + 1) as nat, files.len() as nat);
                }
                return Err(owned("prefix not found"));
            },
            Some(r) => r,
        };
        let source_hash = match &file.source {
            None => String::new(),
            Some(contents) => {
                let path = join(project_path, rel.as_str());
                match hash_contents(path.as_str(), contents) {
                    Err(m) => {
                        proof {
                            lemma_entries_stop(project_path@, output_path@, fs, (i + 1) as nat, files.len() as nat);
                        }
                        return Err(m);
                    },
                    Ok(h) => h,
                }
            },
        };
        let target_hash = match hash_contents(file.target_path.as_str(), &file.target) {
            Err(m) => {
                proof {
                    lemma_entries_stop(project_path@, output_path@, fs, (i + 1) as nat, files.len() as nat);
                }
                return Err(m);
            },
            Ok(h) => h,
        };
        let entry = PatchFile { relative_path: rel, source_sha256: source_hash, target_sha256: target_hash };
        let ghost before = entries@;
        entries.push(entry);
        assert(patch_file_models(entries@) =~= patch_file_models(before).push(
            (entry.relative_path@, entry.source_sha256@, entry.target_sha256@),
        ));
        i = i + 1;
    }
    Ok(PatchManifest { format_version: 1, files: entries })
}

// ---------------------------------------------------------------------------
// Names and summaries
// ---------------------------------------------------------------------------
/// Whether a character may stand in a language suffix.
pub open spec fn suffix_char(c: char) -> bool {
    ('0' <= c <= '9') || ('a' <= c <= 'z') || ('A' <= c <= 'Z') || c == '-'
}

/// A language code reduced to ASCII letters, digits and `-`.
pub open spec fn language_suffix(code: Seq<char>) -> Seq<char>
    decreases code.len(),
{
    if code.len() == 0 {
        Seq::empty()
    } else if suffix_char(code.last()) {
        language_suffix(code.drop_last()).push(code.last())
    } else {
        language_suffix(code.drop_last())
    }
}

/// The folder name of an exported patch: the game folder's name (`game` when it
/// has none) and the language suffix.
pub open spec fn patch_folder_name(project_path: Seq<char>, language: Seq<char>) -> Seq<char> {
    (match file_name(project_path) {
        Some(n) => n,
        None => "game"@,
    }) + "-"@ + language_suffix(language)
}

/// The folder name of an exported patch.
pub fn patch_output_name(project_path: &str, language: &str) -> (r: String)
    ensures
        r@ == patch_folder_name(project_path@, language@),
{
    let mut name = match file_name_exec(project_path) {
        Some(n) => string_from(n.as_slice()),
        None => owned("game"),
    };
    push_str(&mut name, "-");
    let ghost head = name@;
    let v = chars_of(language);
    let mut i: usize = 0;
    assert(v@.take(0) =~= Seq::<char>::empty());
    assert(head + language_suffix(v@.take(0)) =~= head);
    while i < v.len()
        invariant
            i <= v.len(),
            v@ == language@,
            name@ == head + language_suffix(v@.take(i as int)),
        decreases v.len() - i,
    {
        assert(v@.take(i + 1).drop_last() =~= v@.take(i as int));
        let c = v[i];
        if ('0' <= c && c <= '9') || ('a' <= c && c <= 'z') || ('A' <= c && c <= 'Z') || c == '-' {
            crate::text::push_char(&mut name, c);
        }
        i = i + 1;
        assert(name@ =~= head + language_suffix(v@.take(i as int)));
    }
    assert(v@.take(v.len() as int) =~= v@);
    name
}

/// What scanning a game or mod shows.
#[derive(Clone, Debug, PartialEq, Eq)]
pub struct ScanResult {
    pub project_path: String,
    pub project_name: String,
    pub engine: String,
    pub segment_count: usize,
    pub preview_items: Vec<TranslationItem>,
}

/// The untranslated preview item of a segment.
pub open spec fn preview_item(s: SegmentModel) -> ItemModel {
    ItemModel {
        id: s.id,
        source: s.source,
        target: Seq::empty(),
        speaker: s.context.speaker,
        source_file: s.source_file,
        qa: "passed"@,
    }
}

/// The summary of a scanned game or mod: its path and folder name
/// (`未命名项目` when it has none), its format's label, and every segment as an
/// untranslated item.
pub fn scan_summary(project_path: &str, format_id: &str, segments: &Vec<Segment>) -> (r: ScanResult)
    ensures
        r.project_path@ == project_path@,
        r.project_name@ == match file_name(project_path@) {
            Some(n) => n,
            None => "未命名项目"@,
        },
        r.engine@ == format_label(format_id@),
        r.segment_count == segments.len(),
        item_models(r.preview_items@) == segment_models(segments@).map_values(
            |s: SegmentModel| preview_item(s),
        ),
{
    let ghost segs = segment_models(segments@);
    let mut items: Vec<TranslationItem> = Vec::new();
    let mut i: usize = 0;
    while i < segments.len()
        invariant
            i <= segments.len(),
            segs == segment_models(segments@),
            item_models(items@) == segs.take(i as int).map_values(|s: SegmentModel| preview_item(s)),
        decreases segments.len() - i,
    {
        let s = &segments[i];
        let item = TranslationItem {
            id: owned(s.id.as_str()),
            source: owned(s.source.as_str()),
            target: String::new(),
            speaker: match &s.context.speaker {
                Some(t) => Some(owned(t.as_str())),
                None => None,
            },
            source_file: owned(s.source_file.as_str()),
            qa: owned("passed"),
        };
        let ghost before = items@;
        items.push(item);
        proof {
            assert(segs[i as int] == s@);
            assert(item_models(items@) =~= item_models(before).push(item@));
            assert(segs.take(i + 1).map_values(|s: SegmentModel| preview_item(s)) =~= segs.take(i as int).map_values(
                |s: SegmentModel| preview_item(s),
            ).push(preview_item(segs[i as int])));
        }
        i = i + 1;
    }
    assert(segs.take(segments.len() as int) =~= segs);
    let project_name = match file_name_exec(project_path) {
        Some(n) => string_from(n.as_slice()),
        None => owned("未命名项目"),
    };
    ScanResult {
        project_path: owned(project_path),
        project_name,
        engine: owned(content_label(format_id)),
        segment_count: segments.len(),
        preview_items: items,
    }
}

} // verus!
