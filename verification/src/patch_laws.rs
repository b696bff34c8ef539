use crate::content::join_path;
use crate::desktop::{first_outside, in_language_pack, named_parts, path_parts};
use crate::language_pack::{pack_files, pack_language, pack_result, pack_root};
use crate::content::{segment_models, EngineError, Segment};
use crate::patch::{captured_hashes, current_hash, distinct_sources, file_hash, first_change, hashes_from, SourceBytes};
use crate::patch_ops::{action_counts, content_entries, install_plan, uninstall_plan};
use crate::renpy::starts_with;
use crate::rimworld::LanguageFile;
use crate::rpgmaker::strip_root;
use crate::text::find_char;
use vstd::prelude::*;

verus! {

/// What uninstalling a just-installed patch does to each of its files: the
/// installed file is put back from the backup that the installation made,
/// where the game had a file of its own, and is removed otherwise.
pub open spec fn undo_actions(
    project_path: Seq<char>,
    patch_path: Seq<char>,
    files: Seq<(Seq<char>, Seq<char>, Seq<char>)>,
    had_original: Seq<bool>,
) -> Seq<(Seq<char>, Option<Seq<char>>)> {
    let steps = install_plan(project_path, patch_path, files);
    Seq::new(
        files.len(),
        |i: int|
            (
                steps[i].1,
                if had_original[i] {
                    Some(steps[i].2)
                } else {
                    None
                },
            ),
    )
}

/// The state of the files right after an installation: a backup exists where
/// the game had a file of its own, and each destination holds the installed
/// contents.
pub open spec fn installed_states(had_original: Seq<bool>, installed: Seq<Seq<u8>>) -> Seq<
    (bool, Option<Result<Seq<u8>, Seq<char>>>),
> {
    Seq::new(
        had_original.len(),
        |i: int| (had_original[i], Some(Ok::<Seq<u8>, Seq<char>>(installed[i]))),
    )
}

/// How many of the flags are set.
pub open spec fn count_set(flags: Seq<bool>) -> nat
    decreases flags.len(),
{
    if flags.len() == 0 {
        0
    } else {
        count_set(flags.drop_last()) + if flags.last() {
            1nat
        } else {
            0nat
        }
    }
}

proof fn lemma_undo_prefix(
    project_path: Seq<char>,
    patch_path: Seq<char>,
    files: Seq<(Seq<char>, Seq<char>, Seq<char>)>,
    had_original: Seq<bool>,
    installed: Seq<Seq<u8>>,
    n: nat,
)
    requires
        n <= files.len(),
        had_original.len() == files.len(),
        installed.len() == files.len(),
        forall|i: int| 0 <= i < files.len() ==> #[trigger] file_hash(installed[i]) == files[i].2,
    ensures
        uninstall_plan(project_path, patch_path, files, installed_states(had_original, installed), n)
            == Ok::<Seq<(Seq<char>, Option<Seq<char>>)>, Seq<char>>(
            undo_actions(project_path, patch_path, files, had_original).take(n as int),
        ),
        action_counts(undo_actions(project_path, patch_path, files, had_original).take(n as int)) == (
            count_set(had_original.take(n as int)),
            (n - count_set(had_original.take(n as int))) as nat,
        ),
        count_set(had_original.take(n as int)) <= n,
    decreases n,
{
    let undo = undo_actions(project_path, patch_path, files, had_original);
    let states = installed_states(had_original, installed);
    if n == 0 {
        assert(undo.take(0) =~= Seq::<(Seq<char>, Option<Seq<char>>)>::empty());
        assert(had_original.take(0) =~= Seq::<bool>::empty());
    } else {
        let k = (n - 1) as nat;
        lemma_undo_prefix(project_path, patch_path, files, had_original, installed, k);
        assert(undo.take(n as int) =~= undo.take(k as int).push(undo[k as int]));
        assert(undo.take(n as int).drop_last() =~= undo.take(k as int));
        assert(had_original.take(n as int).drop_last() =~= had_original.take(k as int));
        assert(states[k as int] == (had_original[k as int], Some(Ok::<Seq<u8>, Seq<char>>(installed[k as int]))));
        assert(file_hash(installed[k as int]) == files[k as int].2);
    }
}

/// Uninstalling a patch right after installing it undoes the installation:
/// the uninstallation goes through, and for each file of the manifest, in
/// order, it restores over the installed file the backup that the
/// installation made where the game had a file of its own, and removes the
/// installed file otherwise; it restores as many files as had a file of their
/// own and removes the others.
pub proof fn law_uninstall_undoes_install(
    project_path: Seq<char>,
    patch_path: Seq<char>,
    files: Seq<(Seq<char>, Seq<char>, Seq<char>)>,
    had_original: Seq<bool>,
    installed: Seq<Seq<u8>>,
)
    requires
        had_original.len() == files.len(),
        installed.len() == files.len(),
        forall|i: int| 0 <= i < files.len() ==> #[trigger] file_hash(installed[i]) == files[i].2,
    ensures
        uninstall_plan(
            project_path,
            patch_path,
            files,
            installed_states(had_original, installed),
            files.len(),
        ) == Ok::<Seq<(Seq<char>, Option<Seq<char>>)>, Seq<char>>(
            undo_actions(project_path, patch_path, files, had_original),
        ),
        action_counts(undo_actions(project_path, patch_path, files, had_original)) == (
            count_set(had_original),
            (files.len() - count_set(had_original)) as nat,
        ),
{
    lemma_undo_prefix(project_path, patch_path, files, had_original, installed, files.len());
    assert(undo_actions(project_path, patch_path, files, had_original).take(files.len() as int)
        =~= undo_actions(project_path, patch_path, files, had_original));
    assert(had_original.take(files.len() as int) =~= had_original);
}

// ---------------------------------------------------------------------------
// RimWorld language packs
// ---------------------------------------------------------------------------
proof fn lemma_find_char_at(s: Seq<char>, c: char, i: int, k: int)
    requires
        0 <= i <= k < s.len(),
        s[k] == c,
        forall|j: int| i <= j < k ==> s[j] != c,
    ensures
        find_char(s, c, i) == Some(k),
    decreases k - i,
{
    if i < k {
        lemma_find_char_at(s, c, i + 1, k);
    }
}

/// A first part without `/` is split off at the first `/`.
proof fn lemma_parts_after(a: Seq<char>, b: Seq<char>)
    requires
        forall|j: int| 0 <= j < a.len() ==> a[j] != '/',
    ensures
        path_parts(a + seq!['/'] + b) == seq![a] + path_parts(b),
{
    let s = a + seq!['/'] + b;
    lemma_find_char_at(s, '/', 0, a.len() as int);
    assert(s.take(a.len() as int) =~= a);
    assert(s.skip(a.len() + 1int) =~= b);
}

proof fn lemma_named_parts_append(a: Seq<Seq<char>>, b: Seq<Seq<char>>)
    ensures
        named_parts(a + b) == named_parts(a) + named_parts(b),
    decreases b.len(),
{
    if b.len() == 0 {
        assert(a + b =~= a);
        assert(named_parts(a) + named_parts(b) =~= named_parts(a));
    } else {
        lemma_named_parts_append(a, b.drop_last());
        assert((a + b).drop_last() =~= a + b.drop_last());
        assert((a + b).last() == b.last());
        if !(b.last().len() == 0 || b.last() == "."@) {
            assert(named_parts(a + b) =~= named_parts(a) + named_parts(b));
        }
    }
}

/// The path below an output folder of a file of its `ChineseSimplified` pack.
pub open spec fn pack_relative(rest: Seq<char>) -> Seq<char> {
    "Languages"@ + seq!['/'] + ("ChineseSimplified"@ + seq!['/'] + rest)
}

/// Every path below `Languages/ChineseSimplified` is in the language pack.
proof fn lemma_pack_relative_in_pack(rest: Seq<char>)
    ensures
        in_language_pack(pack_relative(rest)),
{
    reveal_strlit("Languages");
    reveal_strlit("ChineseSimplified");
    reveal_strlit("/");
    reveal_strlit(".");
    reveal_strlit("./");
    let l = "Languages"@;
    let c = "ChineseSimplified"@;
    let p = pack_relative(rest);
    lemma_parts_after(l, c + seq!['/'] + rest);
    lemma_parts_after(c, rest);
    let parts = seq![l] + (seq![c] + path_parts(rest));
    assert(path_parts(p) == parts);
    lemma_named_parts_append(seq![l], seq![c] + path_parts(rest));
    lemma_named_parts_append(seq![c], path_parts(rest));
    assert(named_parts(Seq::<Seq<char>>::empty()) =~= Seq::<Seq<char>>::empty());
    assert(named_parts(seq![l]) =~= seq![l]) by {
        assert(seq![l].drop_last() =~= Seq::<Seq<char>>::empty());
        assert(seq![l].last() == l);
        assert(l.len() != "."@.len());
    }
    assert(named_parts(seq![c]) =~= seq![c]) by {
        assert(seq![c].drop_last() =~= Seq::<Seq<char>>::empty());
        assert(seq![c].last() == c);
        assert(c.len() != "."@.len());
    }
    let names = named_parts(path_parts(p));
    assert(names == seq![l] + (seq![c] + named_parts(path_parts(rest))));
    assert(names[0] == l);
    assert(names[1] == c);
    assert(p[0] == 'L');
    assert(!starts_with(p, "/"@)) by {
        assert(p.take(1)[0] != "/"@[0]);
    }
    assert(!starts_with(p, "./"@)) by {
        assert(p.take(2)[0] != "./"@[0]);
    }
    assert(p != "."@) by {
        assert(p.len() != "."@.len());
    }
}

/// A file of the pack of `output_root`, at `rest` in the pack, lies at
/// `Languages/ChineseSimplified/rest` below the output folder.
proof fn lemma_strip_pack(output_root: Seq<char>, rest: Seq<char>)
    ensures
        strip_root(output_root, join_path(pack_root(output_root, "ChineseSimplified"@), rest))
            == Some(pack_relative(rest)),
{
    reveal_strlit("Languages");
    reveal_strlit("ChineseSimplified");
    let l = "Languages"@;
    let c = "ChineseSimplified"@;
    let prefix = if output_root.len() == 0 {
        output_root
    } else if output_root.last() == '/' || output_root.last() == '\\' {
        output_root
    } else {
        output_root.push('/')
    };
    let languages = join_path(output_root, l);
    assert(languages =~= prefix + l);
    assert(languages.last() == 's');
    let dir = join_path(languages, c);
    assert(dir =~= prefix + l + seq!['/'] + c);
    assert(dir.last() == 'd');
    let path = join_path(dir, rest);
    assert(path =~= prefix + pack_relative(rest));
    assert(path.take(prefix.len() as int) =~= prefix);
    assert(path.skip(prefix.len() as int) =~= pack_relative(rest));
}

/// Each file of a pack lies at some path in the pack's folder.
proof fn lemma_pack_files_below(
    root: Seq<char>,
    dir: Seq<char>,
    table: Seq<(Seq<char>, Seq<char>)>,
    files: Seq<LanguageFile>,
    i: int,
)
    ensures
        pack_files(root, dir, table, files, i) matches Ok(written) ==> forall|k: int|
            0 <= k < written.len() ==> exists|rest: Seq<char>| #[trigger] written[k].0 == join_path(dir, rest),
    decreases files.len() - i,
{
    if 0 <= i < files.len() {
        lemma_pack_files_below(root, dir, table, files, i + 1);
        if let Ok(written) = pack_files(root, dir, table, files, i) {
            if let Ok(rest) = pack_files(root, dir, table, files, i + 1) {
                assert forall|k: int| 0 <= k < written.len() implies exists|r: Seq<char>|
                    #[trigger] written[k].0 == join_path(dir, r) by {
                    if written.len() == rest.len() + 1 {
                        if k == 0 {
                            assert(written[0].0 == join_path(dir, files[i].relative_path@));
                        } else {
                            assert(written[k] == rest[k - 1]);
                        }
                    } else {
                        assert(written == rest);
                    }
                }
            }
        }
    }
}

/// The relative paths that a content manifest records: each file's path
/// below the output folder.
proof fn lemma_entries_relative(
    project_path: Seq<char>,
    output_path: Seq<char>,
    files: Seq<(Seq<char>, Option<Result<Seq<u8>, Seq<char>>>, Result<Seq<u8>, Seq<char>>)>,
    n: nat,
)
    requires
        n <= files.len(),
    ensures
        content_entries(project_path, output_path, files, n) matches Ok(entries) ==> {
            &&& entries.len() == n
            &&& forall|k: int| 0 <= k < n ==> strip_root(output_path, #[trigger] files[k].0) == Some(entries[k].0)
        },
    decreases n,
{
    if n > 0 {
        lemma_entries_relative(project_path, output_path, files, (n - 1) as nat);
    }
}

proof fn lemma_none_outside(paths: Seq<Seq<char>>, i: int)
    requires
        0 <= i,
        forall|k: int| 0 <= k < paths.len() ==> in_language_pack(#[trigger] paths[k]),
    ensures
        first_outside(paths, i) is None,
    decreases paths.len() - i,
{
    if i < paths.len() {
        lemma_none_outside(paths, i + 1);
    }
}

/// A RimWorld language pack that the library exports passes the check that
/// installing and removing it applies: when the manifest of the exported
/// files is built, every file it lists lies in `Languages/ChineseSimplified`,
/// so no file is outside the pack.
pub proof fn law_exported_pack_passes_pack_check(
    root: Seq<char>,
    output_root: Seq<char>,
    target_language: Seq<char>,
    table: Seq<(Seq<char>, Seq<char>)>,
    sources: Seq<LanguageFile>,
    project_path: Seq<char>,
    exported: Seq<(Seq<char>, Option<Result<Seq<u8>, Seq<char>>>, Result<Seq<u8>, Seq<char>>)>,
)
    requires
        pack_language(target_language) is Some,
        pack_result(root, output_root, pack_language(target_language)->Some_0, table, sources) matches Ok(
            written,
        ) && exported.len() == written.len() && forall|k: int|
            0 <= k < exported.len() ==> #[trigger] exported[k].0 == written[k].0,
    ensures
        content_entries(project_path, output_root, exported, exported.len()) matches Ok(entries) ==> {
            &&& forall|k: int| 0 <= k < entries.len() ==> in_language_pack(#[trigger] entries[k].0)
            &&& first_outside(entries.map_values(|e: (Seq<char>, Seq<char>, Seq<char>)| e.0), 0) is None
        },
{
    reveal_strlit("zh-CN");
    reveal_strlit("ChineseSimplified");
    let language = pack_language(target_language)->Some_0;
    assert(language == "ChineseSimplified"@);
    let dir = pack_root(output_root, language);
    let written = pack_result(root, output_root, language, table, sources)->Ok_0;
    lemma_pack_files_below(root, dir, table, sources, 0);
    let files = pack_files(root, dir, table, sources, 0)->Ok_0;
    assert(written == files.push((join_path(dir, "LanguageInfo.xml"@), crate::language_pack::language_info_xml(language))));
    lemma_entries_relative(project_path, output_root, exported, exported.len());
    if let Ok(entries) = content_entries(project_path, output_root, exported, exported.len()) {
        assert forall|k: int| 0 <= k < entries.len() implies in_language_pack(#[trigger] entries[k].0) by {
            assert(exported[k].0 == written[k].0);
            let rest = if k < files.len() {
                choose|r: Seq<char>| files[k].0 == join_path(dir, r)
            } else {
                "LanguageInfo.xml"@
            };
            assert(written[k].0 == join_path(dir, rest));
            lemma_strip_pack(output_root, rest);
            lemma_pack_relative_in_pack(rest);
        }
        let paths = entries.map_values(|e: (Seq<char>, Seq<char>, Seq<char>)| e.0);
        assert forall|k: int| 0 <= k < paths.len() implies in_language_pack(#[trigger] paths[k]) by {
            assert(paths[k] == entries[k].0);
        }
        lemma_none_outside(paths, 0);
    }
}

// ---------------------------------------------------------------------------
// Capturing and checking sources
// ---------------------------------------------------------------------------
proof fn lemma_hashes_are_current(reads: Seq<SourceBytes>, paths: Seq<Seq<char>>, i: int)
    requires
        0 <= i,
    ensures
        hashes_from(reads, paths, i) matches Ok(hs) ==> forall|k: int|
            0 <= k < hs.len() ==> current_hash(reads, #[trigger] hs[k].0) == Ok::<
                Seq<char>,
                crate::patch::PatchFault,
            >(hs[k].1),
    decreases paths.len() - i,
{
    if i < paths.len() {
        lemma_hashes_are_current(reads, paths, i + 1);
        if let Ok(hs) = hashes_from(reads, paths, i) {
            let rest = hashes_from(reads, paths, i + 1)->Ok_0;
            assert forall|k: int| 0 <= k < hs.len() implies current_hash(reads, #[trigger] hs[k].0)
                == Ok::<Seq<char>, crate::patch::PatchFault>(hs[k].1) by {
                if k > 0 {
                    assert(hs[k] == rest[k - 1]);
                }
            }
        }
    }
}

proof fn lemma_no_change(captured: Seq<(Seq<char>, Seq<char>)>, reads: Seq<SourceBytes>, j: int)
    requires
        0 <= j,
        forall|k: int|
            0 <= k < captured.len() ==> current_hash(reads, #[trigger] captured[k].0) == Ok::<
                Seq<char>,
                crate::patch::PatchFault,
            >(captured[k].1),
    ensures
        first_change(captured, reads, j) is None,
    decreases captured.len() - j,
{
    if j < captured.len() {
        lemma_no_change(captured, reads, j + 1);
    }
}

/// A plan checked against the very files it was captured from finds nothing
/// changed: exporting right after capturing never reports a changed or
/// unreadable source file.
pub proof fn law_unchanged_sources_pass(
    segments: Result<Vec<Segment>, EngineError>,
    reads: Seq<SourceBytes>,
)
    ensures
        captured_hashes(segments, reads) matches Ok(captured) ==> first_change(captured, reads, 0) is None,
{
    if let Ok(segs) = segments {
        let paths = distinct_sources(segment_models(segs@));
        lemma_hashes_are_current(reads, paths, 0);
        if let Ok(captured) = hashes_from(reads, paths, 0) {
            lemma_no_change(captured, reads, 0);
        }
    }
}

/// Captured hashes are those of the files as they were read at capture.
proof fn lemma_captured_paths(reads: Seq<SourceBytes>, paths: Seq<Seq<char>>, i: int)
    requires
        0 <= i <= paths.len(),
    ensures
        hashes_from(reads, paths, i) matches Ok(hs) ==> hs.len() == paths.len() - i && forall|k: int|
            0 <= k < hs.len() ==> #[trigger] hs[k].0 == paths[i + k],
    decreases paths.len() - i,
{
    if i < paths.len() {
        lemma_captured_paths(reads, paths, i + 1);
        if let Ok(hs) = hashes_from(reads, paths, i) {
            let rest = hashes_from(reads, paths, i + 1)->Ok_0;
            assert forall|k: int| 0 <= k < hs.len() implies #[trigger] hs[k].0 == paths[i + k] by {
                if k > 0 {
                    assert(hs[k] == rest[k - 1]);
                }
            }
        }
    }
}

proof fn lemma_first_change_at(
    captured: Seq<(Seq<char>, Seq<char>)>,
    reads: Seq<SourceBytes>,
    j: int,
    k: int,
)
    requires
        0 <= j <= k < captured.len(),
        forall|l: int| j <= l < k ==> current_hash(reads, #[trigger] captured[l].0) == Ok::<
            Seq<char>,
            crate::patch::PatchFault,
        >(captured[l].1),
        current_hash(reads, captured[k].0) is Ok,
        current_hash(reads, captured[k].0) != Ok::<Seq<char>, crate::patch::PatchFault>(captured[k].1),
    ensures
        first_change(captured, reads, j) == Some(crate::patch::PatchFault::Changed(captured[k].0)),
    decreases k - j,
{
    if j < k {
        lemma_first_change_at(captured, reads, j + 1, k);
    }
}

/// A plan refuses a source file changed since it was captured: when every
/// captured source file can still be read and the first whose hash differs
/// from its hash at capture is `paths[k]` (in the order the plan captured
/// them), the check before export reports exactly that file as changed.
pub proof fn law_changed_source_refused(
    segments: Result<Vec<Segment>, EngineError>,
    before: Seq<SourceBytes>,
    after: Seq<SourceBytes>,
    k: int,
)
    requires
        captured_hashes(segments, before) is Ok,
        segments matches Ok(segs) && {
            let paths = distinct_sources(segment_models(segs@));
            &&& 0 <= k < paths.len()
            &&& forall|j: int| 0 <= j < paths.len() ==> #[trigger] current_hash(after, paths[j]) is Ok
            &&& forall|j: int|
                0 <= j < k ==> #[trigger] current_hash(after, paths[j]) == current_hash(before, paths[j])
            &&& current_hash(after, paths[k]) != current_hash(before, paths[k])
        },
    ensures
        first_change(captured_hashes(segments, before)->Ok_0, after, 0) == Some(
            crate::patch::PatchFault::Changed(
                distinct_sources(segment_models(segments->Ok_0@))[k],
            ),
        ),
{
    let segs = segments->Ok_0;
    let paths = distinct_sources(segment_models(segs@));
    let captured = captured_hashes(segments, before)->Ok_0;
    lemma_captured_paths(before, paths, 0);
    lemma_hashes_are_current(before, paths, 0);
    assert(captured[k].0 == paths[k]);
    assert forall|l: int| 0 <= l < k implies current_hash(after, #[trigger] captured[l].0) == Ok::<
        Seq<char>,
        crate::patch::PatchFault,
    >(captured[l].1) by {
        assert(captured[l].0 == paths[l]);
    }
    lemma_first_change_at(captured, after, 0, k);
}

/// The source files whose hashes a plan captures from what extraction gave.
pub open spec fn captured_paths(segments: Result<Vec<Segment>, EngineError>) -> Seq<Seq<char>> {
    distinct_sources(segment_models(segments->Ok_0@))
}

/// A plan refuses any source file changed since it was captured: when every
/// captured source file can still be read and at least one of them no longer
/// hashes as it did at capture, the check before export (whose answer an
/// export returns when no quality finding blocks it) reports a file that
/// changed.
pub proof fn law_any_changed_source_refused(
    segments: Result<Vec<Segment>, EngineError>,
    before: Seq<SourceBytes>,
    after: Seq<SourceBytes>,
    k: int,
)
    requires
        captured_hashes(segments, before) is Ok,
        segments is Ok,
        0 <= k < captured_paths(segments).len(),
        forall|j: int|
            0 <= j < captured_paths(segments).len() ==> #[trigger] current_hash(after, captured_paths(segments)[j]) is Ok,
        current_hash(after, captured_paths(segments)[k]) != current_hash(before, captured_paths(segments)[k]),
    ensures
        exists|j: int|
            0 <= j <= k && #[trigger] current_hash(after, captured_paths(segments)[j]) != current_hash(
                before,
                captured_paths(segments)[j],
            ) && first_change(captured_hashes(segments, before)->Ok_0, after, 0) == Some(
                crate::patch::PatchFault::Changed(captured_paths(segments)[j]),
            ),
    decreases k,
{
    let paths = captured_paths(segments);
    if exists|l: int| 0 <= l < k && #[trigger] current_hash(after, paths[l]) != current_hash(before, paths[l]) {
        let l = choose|l: int| 0 <= l < k && #[trigger] current_hash(after, paths[l]) != current_hash(before, paths[l]);
        law_any_changed_source_refused(segments, before, after, l);
    } else {
        law_changed_source_refused(segments, before, after, k);
        assert(current_hash(after, paths[k]) != current_hash(before, paths[k]));
    }
}

} // verus!
