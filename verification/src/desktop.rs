use crate::patch::PatchManifest;
use crate::renpy::starts_with;
use crate::text::{chars_of, decimal, owned, push_decimal, push_str, str_equal};
use vstd::prelude::*;

verus! {

/// The label under which a content format is shown.
pub open spec fn format_label(format_id: Seq<char>) -> Seq<char> {
    if format_id == "game.rpgmaker.mv"@ {
        "RPG Maker MV"@
    } else if format_id == "game.rpgmaker.mz"@ {
        "RPG Maker MZ"@
    } else if format_id == "game.renpy"@ {
        "Ren'Py"@
    } else if format_id == "game.rimworld.mod"@ {
        "RimWorld 模组"@
    } else {
        "内容来源"@
    }
}

/// The label under which a content format is shown.
pub fn content_label(format_id: &str) -> (r: &'static str)
    ensures
        r@ == format_label(format_id@),
{
    proof {
        reveal_strlit("game.rpgmaker.mv");
        reveal_strlit("game.rpgmaker.mz");
        reveal_strlit("game.renpy");
        reveal_strlit("game.rimworld.mod");
    }
    if str_equal(format_id, "game.rpgmaker.mv") {
        "RPG Maker MV"
    } else if str_equal(format_id, "game.rpgmaker.mz") {
        "RPG Maker MZ"
    } else if str_equal(format_id, "game.renpy") {
        "Ren'Py"
    } else if str_equal(format_id, "game.rimworld.mod") {
        "RimWorld 模组"
    } else {
        "内容来源"
    }
}

/// How a language is named to the model: detection for `auto`, otherwise
/// `name (code)`.
pub open spec fn prompt_for(code: Seq<char>, name: Seq<char>) -> Seq<char> {
    if code == "auto"@ {
        "Auto-detect the source language"@
    } else {
        name + " ("@ + code + ")"@
    }
}

/// How a language is named to the model.
pub fn language_prompt(code: &str, name: &str) -> (r: String)
    ensures
        r@ == prompt_for(code@, name@),
{
    proof {
        reveal_strlit("auto");
        reveal_strlit("Auto-detect the source language");
        reveal_strlit(" (");
        reveal_strlit(")");
    }
    if str_equal(code, "auto") {
        owned("Auto-detect the source language")
    } else {
        let mut s = owned(name);
        push_str(&mut s, " (");
        push_str(&mut s, code);
        push_str(&mut s, ")");
        s
    }
}

/// The `/`-separated parts of a path.
pub open spec fn path_parts(p: Seq<char>) -> Seq<Seq<char>>
    decreases p.len(),
{
    match crate::text::find_char(p, '/', 0) {
        None => seq![p],
        Some(k) => seq![p.take(k)] + path_parts(
            p.skip(
                {
                    proof {
                        crate::text::lemma_find_char(p, '/', 0);
                    }
                    k + 1
                },
            ),
        ),
    }
}

/// A path with Windows separators (`\`) written as `/`.
pub open spec fn slashed(p: Seq<char>) -> Seq<char> {
    p.map_values(|c: char| if c == '\\' { '/' } else { c })
}

/// Whether a path opens with a Windows drive prefix such as `C:`.
pub open spec fn drive_prefix(p: Seq<char>) -> bool {
    p.len() >= 2 && p[1] == ':' && (('a' <= p[0] && p[0] <= 'z') || ('A' <= p[0] && p[0] <= 'Z'))
}

/// Whether a path is absolute (a leading `/` or `\`, or a drive prefix) or
/// climbs out with `..`, either separator counting.
pub open spec fn unsafe_path(p: Seq<char>) -> bool {
    starts_with(slashed(p), "/"@) || drive_prefix(p) || path_parts(slashed(p)).contains(".."@)
}

pub open spec fn unsafe_path_message(p: Seq<char>) -> Seq<char> {
    "补丁包含不安全路径: "@ + p
}

fn parts_of(v: &Vec<char>, start: usize) -> (r: Vec<Vec<char>>)
    requires
        start <= v.len(),
    ensures
        r@.map_values(|x: Vec<char>| x@) == path_parts(v@.skip(start as int)),
    decreases v.len() - start,
{
    proof {
        crate::text::lemma_find_char_skip(v@, '/', start as int, 0);
        crate::text::lemma_find_char(v@, '/', start as int);
    }
    let ghost p = v@.skip(start as int);
    match crate::text::find_char_from(v, '/', start) {
        None => {
            let part = crate::text::slice_chars(v, start, v.len());
            assert(part@ =~= p);
            let mut out: Vec<Vec<char>> = Vec::new();
            out.push(part);
            assert(out@.map_values(|x: Vec<char>| x@) =~= seq![p]);
            out
        },
        Some(q) => {
            let part = crate::text::slice_chars(v, start, q);
            assert(part@ =~= p.take(q - start));
            assert(p.skip(q - start + 1) =~= v@.skip(q + 1));
            let mut rest = parts_of(v, q + 1);
            let mut out: Vec<Vec<char>> = Vec::new();
            out.push(part);
            let ghost a = out@;
            let ghost b = rest@;
            out.append(&mut rest);
            assert(out@ =~= a + b);
            assert(out@.map_values(|x: Vec<char>| x@) =~= a.map_values(|x: Vec<char>| x@)
                + b.map_values(|x: Vec<char>| x@));
            out
        },
    }
}

/// Refuses a patch path that is absolute (a leading separator or a drive
/// prefix) or climbs out of the game with `..`; `/` and `\` both separate.
pub fn validate_patch_relative_path(path: &str) -> (r: Result<(), String>)
    ensures
        match r {
            Ok(()) => !unsafe_path(path@),
            Err(m) => unsafe_path(path@) && m@ == unsafe_path_message(path@),
        },
{
    proof {
        reveal_strlit("/");
        reveal_strlit("..");
        reveal_strlit("补丁包含不安全路径: ");
    }
    let raw = chars_of(path);
    let mut v: Vec<char> = Vec::new();
    let mut k: usize = 0;
    while k < raw.len()
        invariant
            k <= raw.len(),
            raw@ == path@,
            v@ == slashed(raw@.take(k as int)),
        decreases raw.len() - k,
    {
        let c = raw[k];
        v.push(if c == '\\' { '/' } else { c });
        assert(slashed(raw@.take(k + 1)) =~= slashed(raw@.take(k as int)).push(
            if c == '\\' { '/' } else { c },
        ));
        k = k + 1;
    }
    assert(raw@.take(raw.len() as int) =~= raw@);
    let drive = raw.len() >= 2 && raw[1] == ':' && (('a' <= raw[0] && raw[0] <= 'z') || ('A' <= raw[0]
        && raw[0] <= 'Z'));
    let mut bad = crate::renpy::begins_with(&v, "/") || drive;
    let parts = parts_of(&v, 0);
    assert(v@.skip(0) =~= v@);
    let ghost ps = parts@.map_values(|x: Vec<char>| x@);
    let dots = chars_of("..");
    let mut i: usize = 0;
    while i < parts.len()
        invariant
            i <= parts.len(),
            ps == parts@.map_values(|x: Vec<char>| x@),
            ps == path_parts(slashed(path@)),
            dots@ == ".."@,
            bad == (starts_with(slashed(path@), "/"@) || drive_prefix(path@) || exists|j: int|
                0 <= j < i && ps[j] == ".."@),
        decreases parts.len() - i,
    {
        assert(ps[i as int] == parts@[i as int]@);
        if crate::text::chars_equal(&parts[i], &dots) {
            bad = true;
        }
        i = i + 1;
    }
    if bad {
        let mut m = owned("补丁包含不安全路径: ");
        push_str(&mut m, path);
        return Err(m);
    }
    assert(!ps.contains(".."@)) by {
        if ps.contains(".."@) {
            let j = choose|j: int| 0 <= j < ps.len() && ps[j] == ".."@;
            assert(exists|j: int| 0 <= j < ps.len() && ps[j] == ".."@);
        }
    }
    Ok(())
}

/// The parts of a path that name something: not empty and not `.`.
pub open spec fn named_parts(parts: Seq<Seq<char>>) -> Seq<Seq<char>>
    decreases parts.len(),
{
    if parts.len() == 0 {
        Seq::empty()
    } else if parts.last().len() == 0 || parts.last() == "."@ {
        named_parts(parts.drop_last())
    } else {
        named_parts(parts.drop_last()).push(parts.last())
    }
}

/// Whether a relative path lies below `Languages/ChineseSimplified`, compared
/// component by component (`Path::strip_prefix`).
pub open spec fn in_language_pack(p: Seq<char>) -> bool {
    let names = named_parts(path_parts(p));
    &&& !starts_with(p, "/"@)
    &&& !(p == "."@ || starts_with(p, "./"@))
    &&& names.len() >= 2
    &&& names[0] == "Languages"@
    &&& names[1] == "ChineseSimplified"@
}

pub open spec fn pack_path_message(p: Seq<char>) -> Seq<char> {
    "RimWorld 语言包包含无效路径: "@ + p
}

/// The first manifest file outside the language pack, from position `i` on.
pub open spec fn first_outside(files: Seq<Seq<char>>, i: int) -> Option<Seq<char>>
    decreases files.len() - i,
{
    if i < 0 || i >= files.len() {
        None
    } else if !in_language_pack(files[i]) {
        Some(files[i])
    } else {
        first_outside(files, i + 1)
    }
}

pub open spec fn manifest_paths(m: PatchManifest) -> Seq<Seq<char>> {
    m.files@.map_values(|f: crate::patch::PatchFile| f.relative_path@)
}

fn in_language_pack_exec(path: &str) -> (r: bool)
    ensures
        r == in_language_pack(path@),
{
    proof {
        reveal_strlit("/");
        reveal_strlit(".");
        reveal_strlit("./");
        reveal_strlit("Languages");
        reveal_strlit("ChineseSimplified");
    }
    let v = chars_of(path);
    if crate::renpy::begins_with(&v, "/") || str_equal(path, ".") || crate::renpy::begins_with(&v, "./") {
        return false;
    }
    let parts = parts_of(&v, 0);
    assert(v@.skip(0) =~= v@);
    let ghost ps = parts@.map_values(|x: Vec<char>| x@);
    let dot = chars_of(".");
    let mut names: Vec<Vec<char>> = Vec::new();
    let mut i: usize = 0;
    assert(ps.take(0) =~= Seq::<Seq<char>>::empty());
    assert(names@.map_values(|x: Vec<char>| x@) =~= Seq::<Seq<char>>::empty());
    while i < parts.len()
        invariant
            i <= parts.len(),
            ps == parts@.map_values(|x: Vec<char>| x@),
            dot@ == "."@,
            names@.map_values(|x: Vec<char>| x@) == named_parts(ps.take(i as int)),
        decreases parts.len() - i,
    {
        assert(ps.take(i + 1).drop_last() =~= ps.take(i as int));
        assert(ps.take(i + 1).last() == parts@[i as int]@);
        if parts[i].len() > 0 && !crate::text::chars_equal(&parts[i], &dot) {
            let part = crate::text::slice_chars(&parts[i], 0, parts[i].len());
            assert(part@ =~= parts@[i as int]@);
            let ghost before = names@;
            names.push(part);
            assert(names@.map_values(|x: Vec<char>| x@) =~= before.map_values(|x: Vec<char>| x@).push(
                part@,
            ));
        }
        i = i + 1;
    }
    assert(ps.take(parts.len() as int) =~= ps);
    let ghost ns = names@.map_values(|x: Vec<char>| x@);
    if names.len() < 2 {
        return false;
    }
    assert(ns[0] == names@[0]@ && ns[1] == names@[1]@);
    let languages = chars_of("Languages");
    let chinese = chars_of("ChineseSimplified");
    crate::text::chars_equal(&names[0], &languages) && crate::text::chars_equal(&names[1], &chinese)
}

/// Refuses a RimWorld language pack whose manifest lists a file outside
/// `Languages/ChineseSimplified`.
pub fn validate_rimworld_language_manifest(manifest: &PatchManifest) -> (r: Result<(), String>)
    ensures
        match (r, first_outside(manifest_paths(*manifest), 0)) {
            (Ok(()), None) => true,
            (Err(m), Some(p)) => m@ == pack_path_message(p),
            _ => false,
        },
{
    let ghost ps = manifest_paths(*manifest);
    let mut i: usize = 0;
    while i < manifest.files.len()
        invariant
            i <= manifest.files.len(),
            ps == manifest_paths(*manifest),
            first_outside(ps, 0) == first_outside(ps, i as int),
        decreases manifest.files.len() - i,
    {
        let p = manifest.files[i].relative_path.as_str();
        assert(ps[i as int] == p@);
        if !in_language_pack_exec(p) {
            let mut m = owned("RimWorld 语言包包含无效路径: ");
            push_str(&mut m, p);
            proof {
                reveal_strlit("RimWorld 语言包包含无效路径: ");
            }
            return Err(m);
        }
        i = i + 1;
    }
    Ok(())
}

/// The progress line of a translation run.
pub open spec fn progress_message(
    completed_batches: nat,
    total_batches: nat,
    active_requests: nat,
    last_batch_millis: nat,
) -> Seq<char> {
    if completed_batches == 0 {
        "已启动 "@ + decimal(active_requests) + " 路并发请求 · 共 "@ + decimal(total_batches)
            + " 个批次"@
    } else {
        "批次 "@ + decimal(completed_batches) + "/"@ + decimal(total_batches) + " · 活动请求 "@
            + decimal(active_requests) + " · 最近耗时 "@ + decimal(last_batch_millis / 1000) + "."@
            + decimal(last_batch_millis % 1000 / 100) + " 秒"@
    }
}

/// The progress line of a translation run: how many requests started, or how
/// far the batches are and how long the last one took.
pub fn translation_progress_message(
    completed_batches: u64,
    total_batches: u64,
    active_requests: u64,
    last_batch_millis: u64,
) -> (r: String)
    ensures
        r@ == progress_message(
            completed_batches as nat,
            total_batches as nat,
            active_requests as nat,
            last_batch_millis as nat,
        ),
{
    proof {
        reveal_strlit("已启动 ");
        reveal_strlit(" 路并发请求 · 共 ");
        reveal_strlit(" 个批次");
        reveal_strlit("批次 ");
        reveal_strlit("/");
        reveal_strlit(" · 活动请求 ");
        reveal_strlit(" · 最近耗时 ");
        reveal_strlit(".");
        reveal_strlit(" 秒");
    }
    let mut s = String::new();
    if completed_batches == 0 {
        push_str(&mut s, "已启动 ");
        push_decimal(&mut s, active_requests);
        push_str(&mut s, " 路并发请求 · 共 ");
        push_decimal(&mut s, total_batches);
        push_str(&mut s, " 个批次");
    } else {
        push_str(&mut s, "批次 ");
        push_decimal(&mut s, completed_batches);
        push_str(&mut s, "/");
        push_decimal(&mut s, total_batches);
        push_str(&mut s, " · 活动请求 ");
        push_decimal(&mut s, active_requests);
        push_str(&mut s, " · 最近耗时 ");
        push_decimal(&mut s, last_batch_millis / 1000);
        push_str(&mut s, ".");
        push_decimal(&mut s, last_batch_millis % 1000 / 100);
        push_str(&mut s, " 秒");
    }
    s
}

/// The estimated seconds left: the time per segment sent to the model so
/// far, times the segments left, rounded up, and at most `u64::MAX`; nothing
/// before any segment came back from the model.
pub open spec fn eta_seconds_for(
    translated: nat,
    cached: nat,
    failed: nat,
    completed: nat,
    total: nat,
    elapsed_millis: nat,
) -> nat {
    let network = (if translated >= cached {
        translated - cached
    } else {
        0
    }) + failed;
    let remaining = if total >= completed {
        total - completed
    } else {
        0
    };
    if network == 0 {
        0
    } else {
        let seconds: nat = ((remaining * elapsed_millis / network + 999) / 1000) as nat;
        if seconds > u64::MAX {
            u64::MAX as nat
        } else {
            seconds
        }
    }
}

/// The estimated seconds left of a translation run.
pub fn eta_seconds(
    translated: u64,
    cached: u64,
    failed: u64,
    completed: u64,
    total: u64,
    elapsed_millis: u64,
) -> (r: u64)
    requires
        (if translated >= cached {
            translated - cached
        } else {
            0
        }) + failed <= u64::MAX,
    ensures
        r as nat == eta_seconds_for(
            translated as nat,
            cached as nat,
            failed as nat,
            completed as nat,
            total as nat,
            elapsed_millis as nat,
        ),
{
    let network: u64 = translated.saturating_sub(cached) + failed;
    let remaining: u64 = total.saturating_sub(completed);
    if network == 0 {
        return 0;
    }
    assert((remaining as u128) * (elapsed_millis as u128) <= 0xffff_ffff_ffff_ffff
        * 0xffff_ffff_ffff_ffff) by (nonlinear_arith)
        requires
            remaining <= 0xffff_ffff_ffff_ffff,
            elapsed_millis <= 0xffff_ffff_ffff_ffff,
    ;
    let product: u128 = remaining as u128 * elapsed_millis as u128;
    assert(product == remaining * elapsed_millis);
    let millis: u128 = product / network as u128;
    assert(millis <= product) by (nonlinear_arith)
        requires
            network >= 1,
            product >= 0,
            millis == product / (network as u128),
    ;
    assert(product <= 0xffff_ffff_ffff_ffff * 0xffff_ffff_ffff_ffff) by (nonlinear_arith)
        requires
            remaining <= 0xffff_ffff_ffff_ffff,
            elapsed_millis <= 0xffff_ffff_ffff_ffff,
            product == remaining * elapsed_millis,
    ;
    let seconds: u128 = (millis + 999) / 1000;
    if seconds > 0xffff_ffff_ffff_ffff {
        u64::MAX
    } else {
        seconds as u64
    }
}

/// What a file name may not hold on Windows becomes `_`.
pub open spec fn stem_char(c: char) -> char {
    if c == '<' || c == '>' || c == ':' || c == '"' || c == '/' || c == '\\' || c == '|' || c
        == '?' || c == '*' {
        '_'
    } else {
        c
    }
}

/// A title as a file name: trimmed, with characters that Windows refuses in
/// file names replaced by `_`.
pub open spec fn file_stem_of(value: Seq<char>) -> Seq<char> {
    crate::text::trim(value).map_values(|c: char| stem_char(c))
}

/// A title as a file name that Windows accepts.
pub fn safe_file_stem(value: &str) -> (r: String)
    ensures
        r@ == file_stem_of(value@),
{
    let v = chars_of(value);
    let t = crate::text::trim_chars(&v);
    let mut out = String::new();
    let mut i: usize = 0;
    assert(t@.take(0).map_values(|c: char| stem_char(c)) =~= Seq::<char>::empty());
    while i < t.len()
        invariant
            i <= t.len(),
            out@ == t@.take(i as int).map_values(|c: char| stem_char(c)),
        decreases t.len() - i,
    {
        let c = t[i];
        let d = if c == '<' || c == '>' || c == ':' || c == '"' || c == '/' || c == '\\' || c
            == '|' || c == '?' || c == '*' {
            '_'
        } else {
            c
        };
        crate::text::push_char(&mut out, d);
        assert(t@.take(i + 1).map_values(|c: char| stem_char(c)) =~= t@.take(i as int).map_values(
            |c: char| stem_char(c),
        ).push(d));
        i = i + 1;
    }
    assert(t@.take(t.len() as int) =~= t@);
    out
}


/// A language as the user picked it: its code and its name.
#[derive(Clone, Debug, PartialEq, Eq)]
pub struct LanguageInput {
    pub code: String,
    pub name: String,
}

/// What the desktop application remembers between sessions.
#[derive(Clone, Debug, PartialEq, Eq)]
pub struct DesktopPreferences {
    pub recent_project_path: Option<String>,
    pub source_language: LanguageInput,
    pub target_language: LanguageInput,
}

impl Default for DesktopPreferences {
    /// No recent project; the source language detected automatically and the
    /// target Simplified Chinese.
    fn default() -> (r: DesktopPreferences)
        ensures
            r.recent_project_path is None,
            r.source_language.code@ == "auto"@,
            r.source_language.name@ == "自动检测"@,
            r.target_language.code@ == "zh-CN"@,
            r.target_language.name@ == "简体中文"@,
    {
        DesktopPreferences {
            recent_project_path: None,
            source_language: LanguageInput { code: owned("auto"), name: owned("自动检测") },
            target_language: LanguageInput { code: owned("zh-CN"), name: owned("简体中文") },
        }
    }
}

/// What saving a provider configuration does with its API key.
#[derive(Clone, Debug, PartialEq, Eq)]
pub enum KeyAction {
    /// The provider needs no key.
    NotNeeded,
    /// Store this key.
    Store(String),
    /// No key was given: one must already be stored.
    RequireStored,
}

/// What saving a provider configuration does with its API key: only the
/// OpenAI-compatible provider needs one; a non-empty key given is stored,
/// otherwise a stored key is required.
pub fn provider_key_action(kind: &str, api_key: Option<&str>) -> (r: KeyAction)
    ensures
        kind@ != "openai"@ ==> r == KeyAction::NotNeeded,
        kind@ == "openai"@ ==> match api_key {
            Some(k) => if k@.len() > 0 {
                r matches KeyAction::Store(s) && s@ == k@
            } else {
                r == KeyAction::RequireStored
            },
            None => r == KeyAction::RequireStored,
        },
{
    if !str_equal(kind, "openai") {
        return KeyAction::NotNeeded;
    }
    match api_key {
        Some(k) => if !k.is_empty() {
            KeyAction::Store(owned(k))
        } else {
            KeyAction::RequireStored
        },
        None => KeyAction::RequireStored,
    }
}

/// Refuses an OpenAI-compatible configuration without a stored key.
pub fn require_stored_key(stored: &Option<String>) -> (r: Result<(), String>)
    ensures
        r is Ok <==> stored is Some,
        r matches Err(m) ==> m@ == "OpenAI-compatible Provider 需要 API Key"@,
{
    match stored {
        Some(_) => Ok(()),
        None => Err(owned("OpenAI-compatible Provider 需要 API Key")),
    }
}

} // verus!
