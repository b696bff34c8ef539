use crate::order::{sort_by_key, sorted_by_key, with_key, SortKey};
use crate::patch::{hex, hex_text, sha256, sha256_digest};
use crate::text::{owned, str_equal};
use vstd::prelude::*;
use vstd::string::StrSliceExecFns;
use vstd::utf8::encode_utf8;

verus! {

/// One exported (and perhaps installed) patch of a project.
#[derive(Clone, Debug, PartialEq, Eq)]
pub struct PatchHistoryEntry {
    pub id: String,
    pub project_path: String,
    pub patch_path: String,
    pub target_language: String,
    pub file_count: usize,
    pub exported_at_unix_ms: u64,
    pub installed_at_unix_ms: Option<u64>,
}

/// Model of a [`PatchHistoryEntry`].
pub struct EntryModel {
    pub id: Seq<char>,
    pub project_path: Seq<char>,
    pub patch_path: Seq<char>,
    pub target_language: Seq<char>,
    pub file_count: usize,
    pub exported_at: u64,
    pub installed_at: Option<u64>,
}

impl View for PatchHistoryEntry {
    type V = EntryModel;

    open spec fn view(&self) -> EntryModel {
        EntryModel {
            id: self.id@,
            project_path: self.project_path@,
            patch_path: self.patch_path@,
            target_language: self.target_language@,
            file_count: self.file_count,
            exported_at: self.exported_at_unix_ms,
            installed_at: self.installed_at_unix_ms,
        }
    }
}

pub open spec fn entry_models(entries: Seq<PatchHistoryEntry>) -> Seq<EntryModel> {
    entries.map_values(|e: PatchHistoryEntry| e@)
}

/// The id of the patch at `patch_path` of the project at `project_path`: the
/// SHA-256 of the two paths, separated by a zero byte, in lower-case hexadecimal.
pub open spec fn history_id(project_path: Seq<char>, patch_path: Seq<char>) -> Seq<char> {
    hex(sha256(encode_utf8(project_path) + seq![0u8] + encode_utf8(patch_path)))
}

/// The id of a project's patch.
pub fn patch_history_id(project_path: &str, patch_path: &str) -> (r: String)
    ensures
        r@ == history_id(project_path@, patch_path@),
{
    let mut bytes = project_path.as_bytes_vec();
    assert(bytes@ == encode_utf8(project_path@));
    bytes.push(0u8);
    let mut tail = patch_path.as_bytes_vec();
    assert(tail@ == encode_utf8(patch_path@));
    let ghost a = bytes@;
    let ghost b = tail@;
    bytes.append(&mut tail);
    assert(bytes@ =~= a + b);
    assert(a =~= encode_utf8(project_path@) + seq![0u8]);
    assert(bytes@ =~= encode_utf8(project_path@) + seq![0u8] + encode_utf8(patch_path@));
    let digest = sha256_digest(bytes.as_slice());
    hex_text(digest.as_slice())
}

/// The moment an entry last changed: its installation, or else its export.
pub open spec fn entry_time(e: EntryModel) -> u64 {
    match e.installed_at {
        Some(t) => t,
        None => e.exported_at,
    }
}

impl SortKey for PatchHistoryEntry {
    /// Newest first.
    open spec fn sort_key(&self) -> Seq<int> {
        seq![-(entry_time(self@) as int)]
    }

    fn goes_before(&self, other: &Self) -> (r: bool) {
        let a = match self.installed_at_unix_ms {
            Some(t) => t,
            None => self.exported_at_unix_ms,
        };
        let b = match other.installed_at_unix_ms {
            Some(t) => t,
            None => other.exported_at_unix_ms,
        };
        let ghost ka = seq![-(a as int)];
        let ghost kb = seq![-(b as int)];
        assert(ka == self.sort_key());
        assert(kb == other.sort_key());
        assert(ka.drop_first() =~= Seq::<int>::empty());
        assert(kb.drop_first() =~= Seq::<int>::empty());
        assert(crate::order::lex_le(ka.drop_first(), kb.drop_first()));
        assert(crate::order::lex_le(kb.drop_first(), ka.drop_first()));
        assert(crate::order::lex_le(kb, ka) == (kb[0] <= ka[0]));
        a > b
    }
}

/// Index of the first entry with id `id`.
pub open spec fn entry_index(entries: Seq<EntryModel>, id: Seq<char>, i: int) -> Option<int>
    decreases entries.len() - i,
{
    if i < 0 || i >= entries.len() {
        None
    } else if entries[i].id == id {
        Some(i)
    } else {
        entry_index(entries, id, i + 1)
    }
}

fn find_entry(entries: &Vec<PatchHistoryEntry>, id: &str) -> (r: Option<usize>)
    ensures
        match r {
            Some(i) => entry_index(entry_models(entries@), id@, 0) == Some(i as int) && i
                < entries.len(),
            None => entry_index(entry_models(entries@), id@, 0) is None,
        },
{
    let ghost m = entry_models(entries@);
    let mut i: usize = 0;
    while i < entries.len()
        invariant
            i <= entries.len(),
            m == entry_models(entries@),
            entry_index(m, id@, 0) == entry_index(m, id@, i as int),
        decreases entries.len() - i,
    {
        assert(m[i as int].id == entries@[i as int].id@);
        if str_equal(entries[i].id.as_str(), id) {
            return Some(i);
        }
        i = i + 1;
    }
    None
}

/// The history after recording an export: the entry of the patch, if there
/// is one, takes the new language, file count and export time; otherwise a new
/// entry, not installed, is added at the end.
pub open spec fn after_export(
    entries: Seq<EntryModel>,
    project_path: Seq<char>,
    patch_path: Seq<char>,
    language: Seq<char>,
    file_count: usize,
    at: u64,
) -> Seq<EntryModel> {
    let id = history_id(project_path, patch_path);
    match entry_index(entries, id, 0) {
        Some(i) => entries.update(
            i,
            EntryModel {
                target_language: language,
                file_count,
                exported_at: at,
                ..entries[i]
            },
        ),
        None => entries.push(
            EntryModel {
                id,
                project_path,
                patch_path,
                target_language: language,
                file_count,
                exported_at: at,
                installed_at: None,
            },
        ),
    }
}

/// The history after recording an installation: the entry of the patch, if
/// there is one, takes the new language, file count and installation time;
/// otherwise a new entry, exported and installed at that time, is added.
pub open spec fn after_installation(
    entries: Seq<EntryModel>,
    project_path: Seq<char>,
    patch_path: Seq<char>,
    language: Seq<char>,
    file_count: usize,
    at: u64,
) -> Seq<EntryModel> {
    let id = history_id(project_path, patch_path);
    match entry_index(entries, id, 0) {
        Some(i) => entries.update(
            i,
            EntryModel {
                target_language: language,
                file_count,
                installed_at: Some(at),
                ..entries[i]
            },
        ),
        None => entries.push(
            EntryModel {
                id,
                project_path,
                patch_path,
                target_language: language,
                file_count,
                exported_at: at,
                installed_at: Some(at),
            },
        ),
    }
}

fn record(
    entries: Vec<PatchHistoryEntry>,
    project_path: &str,
    patch_path: &str,
    target_language: &str,
    file_count: usize,
    at: u64,
    installed: bool,
) -> (r: Vec<PatchHistoryEntry>)
    ensures
        entry_models(r@) == if installed {
            after_installation(
                entry_models(entries@),
                project_path@,
                patch_path@,
                target_language@,
                file_count,
                at,
            )
        } else {
            after_export(
                entry_models(entries@),
                project_path@,
                patch_path@,
                target_language@,
                file_count,
                at,
            )
        },
{
    let mut entries = entries;
    let ghost before = entries@;
    let id = patch_history_id(project_path, patch_path);
    match find_entry(&entries, id.as_str()) {
        Some(i) => {
            let old = &entries[i];
            let updated = PatchHistoryEntry {
                id: owned(old.id.as_str()),
                project_path: owned(old.project_path.as_str()),
                patch_path: owned(old.patch_path.as_str()),
                target_language: owned(target_language),
                file_count,
                exported_at_unix_ms: if installed {
                    old.exported_at_unix_ms
                } else {
                    at
                },
                installed_at_unix_ms: if installed {
                    Some(at)
                } else {
                    old.installed_at_unix_ms
                },
            };
            let ghost um = updated@;
            entries.set(i, updated);
            assert(entry_models(entries@) =~= entry_models(before).update(i as int, um));
        },
        None => {
            let entry = PatchHistoryEntry {
                id,
                project_path: owned(project_path),
                patch_path: owned(patch_path),
                target_language: owned(target_language),
                file_count,
                exported_at_unix_ms: at,
                installed_at_unix_ms: if installed {
                    Some(at)
                } else {
                    None
                },
            };
            let ghost em = entry@;
            entries.push(entry);
            assert(entry_models(entries@) =~= entry_models(before).push(em));
        },
    }
    entries
}

/// Records an export of a project's patch in the history.
pub fn record_patch_export(
    entries: Vec<PatchHistoryEntry>,
    project_path: &str,
    patch_path: &str,
    target_language: &str,
    file_count: usize,
    exported_at_unix_ms: u64,
) -> (r: Vec<PatchHistoryEntry>)
    ensures
        entry_models(r@) == after_export(
            entry_models(entries@),
            project_path@,
            patch_path@,
            target_language@,
            file_count,
            exported_at_unix_ms,
        ),
{
    record(entries, project_path, patch_path, target_language, file_count, exported_at_unix_ms, false)
}

/// Records an installation of a project's patch in the history.
pub fn record_patch_installation(
    entries: Vec<PatchHistoryEntry>,
    project_path: &str,
    patch_path: &str,
    target_language: &str,
    file_count: usize,
    installed_at_unix_ms: u64,
) -> (r: Vec<PatchHistoryEntry>)
    ensures
        entry_models(r@) == after_installation(
            entry_models(entries@),
            project_path@,
            patch_path@,
            target_language@,
            file_count,
            installed_at_unix_ms,
        ),
{
    record(entries, project_path, patch_path, target_language, file_count, installed_at_unix_ms, true)
}

pub open spec fn missing_entry_message() -> Seq<char> {
    "未找到补丁历史记录"@
}

pub open spec fn missing_project_entry_message() -> Seq<char> {
    "未找到该项目的补丁历史记录"@
}

pub open spec fn installed_entry_message() -> Seq<char> {
    "请先卸载补丁，再删除历史记录"@
}

pub open spec fn history_result(r: Result<Vec<PatchHistoryEntry>, String>) -> Result<
    Seq<EntryModel>,
    Seq<char>,
> {
    match r {
        Ok(v) => Ok(entry_models(v@)),
        Err(m) => Err(m@),
    }
}

/// The history after clearing the installation of a project's patch, or the
/// error when the history has no entry for it.
pub open spec fn after_clear(entries: Seq<EntryModel>, project_path: Seq<char>, patch_path: Seq<char>) -> Result<
    Seq<EntryModel>,
    Seq<char>,
> {
    match entry_index(entries, history_id(project_path, patch_path), 0) {
        None => Err(missing_entry_message()),
        Some(i) => Ok(entries.update(i, EntryModel { installed_at: None, ..entries[i] })),
    }
}

/// Forgets that a project's patch is installed, keeping its export.
pub fn clear_patch_installation(
    entries: Vec<PatchHistoryEntry>,
    project_path: &str,
    patch_path: &str,
) -> (r: Result<Vec<PatchHistoryEntry>, String>)
    ensures
        history_result(r) == after_clear(entry_models(entries@), project_path@, patch_path@),
{
    let mut entries = entries;
    let ghost before = entries@;
    let id = patch_history_id(project_path, patch_path);
    match find_entry(&entries, id.as_str()) {
        None => {
            proof {
                reveal_strlit("未找到补丁历史记录");
            }
            Err(owned("未找到补丁历史记录"))
        },
        Some(i) => {
            let old = &entries[i];
            let updated = PatchHistoryEntry {
                id: owned(old.id.as_str()),
                project_path: owned(old.project_path.as_str()),
                patch_path: owned(old.patch_path.as_str()),
                target_language: owned(old.target_language.as_str()),
                file_count: old.file_count,
                exported_at_unix_ms: old.exported_at_unix_ms,
                installed_at_unix_ms: None,
            };
            let ghost um = updated@;
            entries.set(i, updated);
            assert(entry_models(entries@) =~= entry_models(before).update(i as int, um));
            Ok(entries)
        },
    }
}

/// The entries whose id is not `id`, in order.
pub open spec fn without_id(entries: Seq<EntryModel>, id: Seq<char>) -> Seq<EntryModel>
    decreases entries.len(),
{
    if entries.len() == 0 {
        Seq::empty()
    } else if entries.last().id == id {
        without_id(entries.drop_last(), id)
    } else {
        without_id(entries.drop_last(), id).push(entries.last())
    }
}

/// Index of the first entry of `project_path` with id `id`.
pub open spec fn project_entry_index(
    entries: Seq<EntryModel>,
    project_path: Seq<char>,
    id: Seq<char>,
    i: int,
) -> Option<int>
    decreases entries.len() - i,
{
    if i < 0 || i >= entries.len() {
        None
    } else if entries[i].project_path == project_path && entries[i].id == id {
        Some(i)
    } else {
        project_entry_index(entries, project_path, id, i + 1)
    }
}

/// The history after deleting a project's entry: refused when the project has
/// no such entry or its patch is still installed; otherwise every entry with
/// that id goes.
pub open spec fn after_remove(entries: Seq<EntryModel>, project_path: Seq<char>, id: Seq<char>) -> Result<
    Seq<EntryModel>,
    Seq<char>,
> {
    match project_entry_index(entries, project_path, id, 0) {
        None => Err(missing_project_entry_message()),
        Some(i) => if entries[i].installed_at is Some {
            Err(installed_entry_message())
        } else {
            Ok(without_id(entries, id))
        },
    }
}

/// Deletes the history entry `id` of a project, once its patch is uninstalled.
pub fn remove_patch_history_entry(entries: Vec<PatchHistoryEntry>, project_path: &str, id: &str) -> (r:
    Result<Vec<PatchHistoryEntry>, String>)
    ensures
        history_result(r) == after_remove(entry_models(entries@), project_path@, id@),
{
    let ghost m = entry_models(entries@);
    let mut i: usize = 0;
    while i < entries.len() && !(str_equal(entries[i].project_path.as_str(), project_path)
        && str_equal(entries[i].id.as_str(), id))
        invariant
            i <= entries.len(),
            m == entry_models(entries@),
            project_entry_index(m, project_path@, id@, 0) == project_entry_index(
                m,
                project_path@,
                id@,
                i as int,
            ),
        decreases entries.len() - i,
    {
        assert(m[i as int] == entries@[i as int]@);
        i = i + 1;
    }
    if i < entries.len() {
        assert(m[i as int] == entries@[i as int]@);
    }
    proof {
        reveal_strlit("未找到该项目的补丁历史记录");
        reveal_strlit("请先卸载补丁，再删除历史记录");
    }
    if i == entries.len() {
        return Err(owned("未找到该项目的补丁历史记录"));
    }
    if entries[i].installed_at_unix_ms.is_some() {
        return Err(owned("请先卸载补丁，再删除历史记录"));
    }
    let mut kept: Vec<PatchHistoryEntry> = Vec::new();
    let mut rest = entries;
    let ghost all = rest@;
    let mut taken: usize = 0;
    let total = rest.len();
    assert(entry_models(kept@) =~= Seq::<EntryModel>::empty());
    assert(m.take(0) =~= Seq::<EntryModel>::empty());
    while rest.len() > 0
        invariant
            taken + rest.len() == total,
            all.len() == total,
            rest@ == all.skip(taken as int),
            m == entry_models(all),
            entry_models(kept@) == without_id(m.take(taken as int), id@),
        decreases rest.len(),
    {
        let e = rest.remove(0);
        assert(rest@ =~= all.skip(taken + 1));
        assert(m.take(taken + 1).drop_last() =~= m.take(taken as int));
        assert(m.take(taken + 1).last() == e@);
        if !str_equal(e.id.as_str(), id) {
            let ghost before = kept@;
            let ghost em = e@;
            kept.push(e);
            assert(entry_models(kept@) =~= entry_models(before).push(em));
        }
        taken = taken + 1;
    }
    assert(m.take(total as int) =~= m);
    Ok(kept)
}

pub open spec fn not_installed_message() -> Seq<char> {
    "该补丁没有安装记录，无法卸载"@
}

/// The patch to take out of a project for its history entry `id`: refused
/// when the project has no such entry or its patch is not installed.
pub open spec fn uninstall_target(entries: Seq<EntryModel>, project_path: Seq<char>, id: Seq<char>) -> Result<
    Seq<char>,
    Seq<char>,
> {
    match project_entry_index(entries, project_path, id, 0) {
        None => Err(missing_project_entry_message()),
        Some(i) => if entries[i].installed_at is None {
            Err(not_installed_message())
        } else {
            Ok(entries[i].patch_path)
        },
    }
}

/// The patch folder to uninstall for a project's history entry `id`.
pub fn patch_to_uninstall(entries: &Vec<PatchHistoryEntry>, project_path: &str, id: &str) -> (r: Result<
    String,
    String,
>)
    ensures
        match r {
            Ok(p) => uninstall_target(entry_models(entries@), project_path@, id@) == Ok::<
                Seq<char>,
                Seq<char>,
            >(p@),
            Err(m) => uninstall_target(entry_models(entries@), project_path@, id@) == Err::<
                Seq<char>,
                Seq<char>,
            >(m@),
        },
{
    let ghost m = entry_models(entries@);
    let mut i: usize = 0;
    while i < entries.len() && !(str_equal(entries[i].project_path.as_str(), project_path)
        && str_equal(entries[i].id.as_str(), id))
        invariant
            i <= entries.len(),
            m == entry_models(entries@),
            project_entry_index(m, project_path@, id@, 0) == project_entry_index(
                m,
                project_path@,
                id@,
                i as int,
            ),
        decreases entries.len() - i,
    {
        assert(m[i as int] == entries@[i as int]@);
        i = i + 1;
    }
    proof {
        reveal_strlit("未找到该项目的补丁历史记录");
        reveal_strlit("该补丁没有安装记录，无法卸载");
    }
    if i == entries.len() {
        return Err(owned("未找到该项目的补丁历史记录"));
    }
    assert(m[i as int] == entries@[i as int]@);
    if entries[i].installed_at_unix_ms.is_none() {
        return Err(owned("该补丁没有安装记录，无法卸载"));
    }
    Ok(owned(entries[i].patch_path.as_str()))
}

/// The entries of a project, in order.
pub open spec fn project_entries(entries: Seq<PatchHistoryEntry>, project_path: Seq<char>) -> Seq<
    PatchHistoryEntry,
>
    decreases entries.len(),
{
    if entries.len() == 0 {
        Seq::empty()
    } else if entries.last().project_path@ == project_path {
        project_entries(entries.drop_last(), project_path).push(entries.last())
    } else {
        project_entries(entries.drop_last(), project_path)
    }
}

/// Whether entries are newest first.
pub open spec fn newest_first(entries: Seq<EntryModel>) -> bool {
    forall|i: int, j: int|
        0 <= i < j < entries.len() ==> entry_time(#[trigger] entries[i]) >= entry_time(
            #[trigger] entries[j],
        )
}

proof fn lemma_sorted_newest_first(s: Seq<PatchHistoryEntry>)
    requires
        sorted_by_key(s),
    ensures
        newest_first(entry_models(s)),
{
    assert forall|i: int, j: int|
        0 <= i < j < entry_models(s).len() implies entry_time(#[trigger] entry_models(s)[i])
        >= entry_time(#[trigger] entry_models(s)[j]) by {
        assert(crate::order::lex_le(s[i].sort_key(), s[j].sort_key()));
        assert(s[i].sort_key().drop_first() =~= Seq::<int>::empty());
    }
}

/// The history of a project, newest first; entries of the same time keep
/// their order.
pub fn patch_history_for_project(entries: Vec<PatchHistoryEntry>, project_path: &str) -> (r: Vec<
    PatchHistoryEntry,
>)
    ensures
        newest_first(entry_models(r@)),
        r@.to_multiset() == project_entries(entries@, project_path@).to_multiset(),
        forall|k: Seq<int>|
            #[trigger] with_key(r@, k) == with_key(project_entries(entries@, project_path@), k),
{
    let ghost m = entries@;
    let mut rest = entries;
    let ghost all = rest@;
    let total = rest.len();
    let mut taken: usize = 0;
    let mut kept: Vec<PatchHistoryEntry> = Vec::new();
    assert(kept@ =~= Seq::<PatchHistoryEntry>::empty());
    assert(m.take(0) =~= Seq::<PatchHistoryEntry>::empty());
    while rest.len() > 0
        invariant
            taken + rest.len() == total,
            all.len() == total,
            rest@ == all.skip(taken as int),
            m == all,
            kept@ == project_entries(m.take(taken as int), project_path@),
        decreases rest.len(),
    {
        let e = rest.remove(0);
        assert(rest@ =~= all.skip(taken + 1));
        assert(m.take(taken + 1).drop_last() =~= m.take(taken as int));
        assert(m.take(taken + 1).last() == e);
        if str_equal(e.project_path.as_str(), project_path) {
            kept.push(e);
        }
        taken = taken + 1;
    }
    assert(m.take(total as int) =~= m);
    let sorted = sort_by_key(kept);
    proof {
        lemma_sorted_newest_first(sorted@);
    }
    sorted
}

/// The history of every project, newest first; entries of the same time keep
/// their order.
pub fn all_patch_history(entries: Vec<PatchHistoryEntry>) -> (r: Vec<PatchHistoryEntry>)
    ensures
        newest_first(entry_models(r@)),
        r@.to_multiset() == entries@.to_multiset(),
        forall|k: Seq<int>| #[trigger] with_key(r@, k) == with_key(entries@, k),
{
    let sorted = sort_by_key(entries);
    proof {
        lemma_sorted_newest_first(sorted@);
    }
    sorted
}


/// What `entry_index` finds: the first entry with the id at or after `j`.
proof fn lemma_entry_index(entries: Seq<EntryModel>, id: Seq<char>, j: int)
    requires
        0 <= j,
    ensures
        match entry_index(entries, id, j) {
            Some(i) => j <= i < entries.len() && entries[i].id == id && forall|l: int|
                j <= l < i ==> #[trigger] entries[l].id != id,
            None => forall|l: int| j <= l < entries.len() ==> #[trigger] entries[l].id != id,
        },
    decreases entries.len() - j,
{
    if j < entries.len() && entries[j].id != id {
        lemma_entry_index(entries, id, j + 1);
    }
}

/// An entry whose id is the first match stays the first match.
proof fn lemma_entry_index_same(a: Seq<EntryModel>, b: Seq<EntryModel>, id: Seq<char>, i: int)
    requires
        0 <= i < a.len(),
        a.len() <= b.len(),
        a[i].id == id,
        forall|l: int| 0 <= l < i ==> #[trigger] a[l].id != id,
        forall|l: int| 0 <= l <= i ==> #[trigger] b[l].id == a[l].id,
    ensures
        entry_index(b, id, 0) == Some(i),
{
    assert forall|j: int| 0 <= j <= i implies entry_index(b, id, j) == Some(i) by {
        lemma_entry_index_down(b, id, i, j);
    }
}

proof fn lemma_entry_index_down(b: Seq<EntryModel>, id: Seq<char>, i: int, j: int)
    requires
        0 <= j <= i < b.len(),
        b[i].id == id,
        forall|l: int| j <= l < i ==> #[trigger] b[l].id != id,
    ensures
        entry_index(b, id, j) == Some(i),
    decreases i - j,
{
    if j < i {
        lemma_entry_index_down(b, id, i, j + 1);
    }
}

/// Recording an export and then an installation of one patch leaves a single
/// entry for it that holds the language, the file count, the export time and
/// the installation time.
pub proof fn law_export_then_install(
    entries: Seq<EntryModel>,
    project_path: Seq<char>,
    patch_path: Seq<char>,
    language: Seq<char>,
    file_count: usize,
    exported_at: u64,
    installed_at: u64,
)
    ensures
        ({
            let id = history_id(project_path, patch_path);
            let exported = after_export(entries, project_path, patch_path, language, file_count, exported_at);
            let installed = after_installation(
                exported,
                project_path,
                patch_path,
                language,
                file_count,
                installed_at,
            );
            &&& installed.len() == exported.len()
            &&& entry_index(installed, id, 0) matches Some(i) && installed[i].target_language
                == language && installed[i].file_count == file_count && installed[i].exported_at
                == exported_at && installed[i].installed_at == Some(installed_at)
        }),
{
    let id = history_id(project_path, patch_path);
    let exported = after_export(entries, project_path, patch_path, language, file_count, exported_at);
    lemma_entry_index(entries, id, 0);
    let i = match entry_index(entries, id, 0) {
        Some(i) => i,
        None => entries.len() as int,
    };
    assert(exported[i].id == id);
    assert forall|l: int| 0 <= l < i implies #[trigger] exported[l].id != id by {
        assert(exported[l] == entries[l]);
    }
    lemma_entry_index_same(exported, exported, id, i);
    let installed = after_installation(exported, project_path, patch_path, language, file_count, installed_at);
    assert forall|l: int| 0 <= l <= i implies #[trigger] installed[l].id == exported[l].id by {}
    lemma_entry_index_same(exported, installed, id, i);
}

/// Clearing the installation of a recorded patch keeps its export: the entry
/// stays, not installed, with its export time.
pub proof fn law_clear_keeps_export(
    entries: Seq<EntryModel>,
    project_path: Seq<char>,
    patch_path: Seq<char>,
    language: Seq<char>,
    file_count: usize,
    exported_at: u64,
)
    ensures
        ({
            let id = history_id(project_path, patch_path);
            let exported = after_export(entries, project_path, patch_path, language, file_count, exported_at);
            &&& after_clear(exported, project_path, patch_path) matches Ok(cleared)
            &&& cleared.len() == exported.len()
            &&& entry_index(cleared, id, 0) matches Some(i) && cleared[i].installed_at is None
                && cleared[i].exported_at == exported_at && cleared[i].file_count == file_count
        }),
{
    let id = history_id(project_path, patch_path);
    let exported = after_export(entries, project_path, patch_path, language, file_count, exported_at);
    lemma_entry_index(entries, id, 0);
    let i = match entry_index(entries, id, 0) {
        Some(i) => i,
        None => entries.len() as int,
    };
    assert(exported[i].id == id);
    assert forall|l: int| 0 <= l < i implies #[trigger] exported[l].id != id by {
        assert(exported[l] == entries[l]);
    }
    lemma_entry_index_same(exported, exported, id, i);
    let cleared = exported.update(i, EntryModel { installed_at: None, ..exported[i] });
    assert forall|l: int| 0 <= l <= i implies #[trigger] cleared[l].id == exported[l].id by {}
    lemma_entry_index_same(exported, cleared, id, i);
}

/// Deleting an entry leaves no entry with its id, and keeps the others in order.
pub proof fn law_removed_entries_are_gone(entries: Seq<EntryModel>, project_path: Seq<char>, id: Seq<char>)
    ensures
        after_remove(entries, project_path, id) matches Ok(kept) ==> forall|k: int|
            0 <= k < kept.len() ==> #[trigger] kept[k].id != id,
{
    lemma_without_id(entries, id);
}

proof fn lemma_without_id(entries: Seq<EntryModel>, id: Seq<char>)
    ensures
        forall|k: int|
            0 <= k < without_id(entries, id).len() ==> #[trigger] without_id(entries, id)[k].id
                != id,
    decreases entries.len(),
{
    if entries.len() > 0 {
        lemma_without_id(entries.drop_last(), id);
    }
}

} // verus!
