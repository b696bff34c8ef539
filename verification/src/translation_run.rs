use crate::book_text::string_texts;
use crate::content::{opt_text, Segment, SegmentModel};
use crate::patch::{hex, hex_text, sha256, sha256_digest, QaSeverity};
use crate::text::{decimal, owned, push_decimal, push_str};
use crate::translations::{lookup, pair_models, TranslationTable};
use vstd::prelude::*;
use vstd::utf8::encode_utf8;

verus! {

// ---------------------------------------------------------------------------
// Cache fingerprints
// ---------------------------------------------------------------------------
/// The text of an optional value, empty when absent.
pub open spec fn or_empty(o: Option<Seq<char>>) -> Seq<char> {
    match o {
        Some(t) => t,
        None => Seq::empty(),
    }
}

/// The values a cached translation is keyed by, in order.
pub open spec fn fingerprint_parts(
    cache_scope: Seq<char>,
    model: Seq<char>,
    source_language: Seq<char>,
    target_language: Seq<char>,
    segment: SegmentModel,
) -> Seq<Seq<char>> {
    seq![
        "game-translator-prompt-v2"@,
        cache_scope,
        model,
        source_language,
        target_language,
        segment.id,
        segment.source,
        or_empty(segment.context.speaker),
        or_empty(segment.context.previous_text),
        or_empty(segment.context.next_text),
    ]
}

/// The UTF-8 bytes of each value, each followed by a zero byte.
pub open spec fn zero_terminated(parts: Seq<Seq<char>>) -> Seq<u8>
    decreases parts.len(),
{
    if parts.len() == 0 {
        Seq::empty()
    } else {
        zero_terminated(parts.drop_last()) + encode_utf8(parts.last()) + seq![0u8]
    }
}

/// The fingerprint of a translation request: the SHA-256 of its values in
/// lower-case hexadecimal.
pub open spec fn fingerprint_of(parts: Seq<Seq<char>>) -> Seq<char> {
    hex(sha256(zero_terminated(parts)))
}

fn push_part(bytes: &mut Vec<u8>, part: &str)
    ensures
        final(bytes)@ == old(bytes)@ + encode_utf8(part@) + seq![0u8],
{
    let mut b = part.as_bytes_vec();
    assert(b@ == encode_utf8(part@));
    bytes.append(&mut b);
    bytes.push(0u8);
}

/// The fingerprint under which a segment's translation is cached.
pub fn translation_fingerprint(
    cache_scope: &str,
    model: &str,
    source_language: &str,
    target_language: &str,
    segment: &Segment,
) -> (r: String)
    ensures
        r@ == fingerprint_of(
            fingerprint_parts(cache_scope@, model@, source_language@, target_language@, segment@),
        ),
{
    let speaker = match &segment.context.speaker {
        Some(s) => s.as_str(),
        None => "",
    };
    let previous = match &segment.context.previous_text {
        Some(s) => s.as_str(),
        None => "",
    };
    let next = match &segment.context.next_text {
        Some(s) => s.as_str(),
        None => "",
    };
    proof {
        reveal_strlit("");
    }
    let parts: [&str; 10] = [
        "game-translator-prompt-v2",
        cache_scope,
        model,
        source_language,
        target_language,
        segment.id.as_str(),
        segment.source.as_str(),
        speaker,
        previous,
        next,
    ];
    let ghost expected = fingerprint_parts(cache_scope@, model@, source_language@, target_language@, segment@);
    let mut bytes: Vec<u8> = Vec::new();
    let mut i: usize = 0;
    assert(expected.take(0) =~= Seq::<Seq<char>>::empty());
    assert(expected.len() == 10);
    while i < 10
        invariant
            i <= 10,
            expected.len() == 10,
            forall|j: int| 0 <= j < 10 ==> (#[trigger] parts@[j])@ == expected[j],
            bytes@ == zero_terminated(expected.take(i as int)),
        decreases 10 - i,
    {
        push_part(&mut bytes, parts[i]);
        assert(expected.take(i + 1).drop_last() =~= expected.take(i as int));
        i = i + 1;
    }
    assert(expected.take(10) =~= expected);
    let digest = sha256_digest(bytes.as_slice());
    hex_text(digest.as_slice())
}

// ---------------------------------------------------------------------------
// Restoring and checking translations
// ---------------------------------------------------------------------------
/// A translated line, as it is shown for editing before export.
#[derive(Clone, Debug, PartialEq, Eq)]
pub struct TranslationItem {
    pub id: String,
    pub source: String,
    pub target: String,
    pub speaker: Option<String>,
    pub source_file: String,
    pub qa: String,
}

/// Mathematical model of a [`TranslationItem`].
pub struct ItemModel {
    pub id: Seq<char>,
    pub source: Seq<char>,
    pub target: Seq<char>,
    pub speaker: Option<Seq<char>>,
    pub source_file: Seq<char>,
    pub qa: Seq<char>,
}

impl View for TranslationItem {
    type V = ItemModel;

    open spec fn view(&self) -> ItemModel {
        ItemModel {
            id: self.id@,
            source: self.source@,
            target: self.target@,
            speaker: opt_text(self.speaker),
            source_file: self.source_file@,
            qa: self.qa@,
        }
    }
}

/// The models of items.
pub open spec fn item_models(v: Seq<TranslationItem>) -> Seq<ItemModel> {
    v.map_values(|i: TranslationItem| i@)
}

/// The `(id, target)` pairs of items, the last item first, so that looking an
/// id up finds the last item with that id, as collecting them into a map does.
pub open spec fn item_pairs_last_first(items: Seq<ItemModel>) -> Seq<(Seq<char>, Seq<char>)> {
    items.map_values(|i: ItemModel| (i.id, i.target)).reverse()
}

/// The translations that translated lines hold: each item's target under its id.
pub fn table_from_items(items: &Vec<TranslationItem>) -> (t: TranslationTable)
    ensures
        t.model() == item_pairs_last_first(item_models(items@)),
{
    let ghost m = item_models(items@).map_values(|i: ItemModel| (i.id, i.target));
    let mut pairs: Vec<(String, String)> = Vec::new();
    let mut i: usize = items.len();
    assert(m.skip(i as int).reverse() =~= Seq::<(Seq<char>, Seq<char>)>::empty());
    while i > 0
        invariant
            i <= items.len(),
            m == item_models(items@).map_values(|i: ItemModel| (i.id, i.target)),
            pair_models(pairs@) == m.skip(i as int).reverse(),
        decreases i,
    {
        i = i - 1;
        let item = &items[i];
        let ghost before = pairs@;
        pairs.push((owned(item.id.as_str()), owned(item.target.as_str())));
        proof {
            assert(m[i as int] == (item.id@, item.target@));
            assert(pair_models(pairs@) =~= pair_models(before).push((item.id@, item.target@)));
            assert(m.skip(i as int).reverse() =~= m.skip(i + 1).reverse().push(m[i as int]));
        }
    }
    assert(m.skip(0) =~= m);
    TranslationTable { pairs }
}

/// What the outside checks said of one segment: whether its placeholders could
/// be restored (`None` when it has no placeholder map) and into what text, the
/// severities of the quality findings on that text, whether its translation
/// came from the cache, and its cache fingerprint.
#[derive(Clone, Debug, PartialEq, Eq)]
pub struct SegmentCheck {
    pub restored: Option<Result<String, ()>>,
    pub severities: Vec<QaSeverity>,
    pub cached: bool,
    pub fingerprint: Option<String>,
}

/// Mathematical model of a [`SegmentCheck`].
pub struct CheckModel {
    pub restored: Option<Result<Seq<char>, ()>>,
    pub severities: Seq<QaSeverity>,
    pub cached: bool,
    pub fingerprint: Option<Seq<char>>,
}

impl View for SegmentCheck {
    type V = CheckModel;

    open spec fn view(&self) -> CheckModel {
        CheckModel {
            restored: match self.restored {
                Some(Ok(t)) => Some(Ok(t@)),
                Some(Err(())) => Some(Err(())),
                None => None,
            },
            severities: self.severities@,
            cached: self.cached,
            fingerprint: opt_text(self.fingerprint),
        }
    }
}

/// The models of checks.
pub open spec fn check_models(v: Seq<SegmentCheck>) -> Seq<CheckModel> {
    v.map_values(|c: SegmentCheck| c@)
}

/// How many findings have the given severity.
pub open spec fn count_severity(s: Seq<QaSeverity>, severity: QaSeverity) -> nat
    decreases s.len(),
{
    if s.len() == 0 {
        0
    } else {
        count_severity(s.drop_last(), severity) + if s.last() == severity {
            1nat
        } else {
            0nat
        }
    }
}

/// The verdict shown for an item: `blocking`, `warning` or `passed`.
pub open spec fn verdict(s: Seq<QaSeverity>) -> Seq<char> {
    if count_severity(s, QaSeverity::Blocking) > 0 {
        "blocking"@
    } else if count_severity(s, QaSeverity::Warning) > 0 {
        "warning"@
    } else {
        "passed"@
    }
}

/// The state of a quality pass over the segments.
pub struct CheckState {
    pub items: Seq<ItemModel>,
    pub warning_findings: nat,
    pub blocking_findings: nat,
    pub placeholder_failed_ids: Seq<Seq<char>>,
    /// Translations to store in the cache, as (fingerprint, translation).
    pub cache_writes: Seq<(Seq<char>, Seq<char>)>,
    /// The counts of checked segments at which progress is reported.
    pub progress: Seq<nat>,
}

/// The message for a translated segment without a placeholder map.
pub open spec fn missing_map_message(id: Seq<char>) -> Seq<char> {
    "缺少占位符映射: "@ + id
}

/// The item of a segment.
pub open spec fn item_of(s: SegmentModel, target: Seq<char>, qa: Seq<char>) -> ItemModel {
    ItemModel {
        id: s.id,
        source: s.source,
        target,
        speaker: s.context.speaker,
        source_file: s.source_file,
        qa,
    }
}

/// One segment of the quality pass: the `index`-th of `total`.
pub open spec fn check_step(
    state: CheckState,
    s: SegmentModel,
    c: CheckModel,
    translations: Seq<(Seq<char>, Seq<char>)>,
    index: nat,
    total: nat,
) -> Result<CheckState, Seq<char>> {
    match lookup(translations, s.id) {
        None => Ok(state),
        Some(translated) => match c.restored {
            None => Err(missing_map_message(s.id)),
            Some(Err(())) => Ok(
                CheckState {
                    items: state.items.push(item_of(s, s.source, "blocking"@)),
                    blocking_findings: state.blocking_findings + 1,
                    placeholder_failed_ids: state.placeholder_failed_ids.push(s.id),
                    ..state
                },
            ),
            Some(Ok(target)) => {
                let qa = verdict(c.severities);
                let checked = index + 1;
                Ok(
                    CheckState {
                        items: state.items.push(item_of(s, target, qa)),
                        warning_findings: state.warning_findings + count_severity(
                            c.severities,
                            QaSeverity::Warning,
                        ),
                        blocking_findings: state.blocking_findings + count_severity(
                            c.severities,
                            QaSeverity::Blocking,
                        ),
                        placeholder_failed_ids: state.placeholder_failed_ids,
                        cache_writes: if qa != "blocking"@ && !c.cached && c.fingerprint is Some {
                            state.cache_writes.push((c.fingerprint->0, translated))
                        } else {
                            state.cache_writes
                        },
                        progress: if checked == total || checked % 50 == 0 {
                            state.progress.push(checked)
                        } else {
                            state.progress
                        },
                    },
                )
            },
        },
    }
}

/// The quality pass over the first `n` segments.
pub open spec fn checked_upto(
    segments: Seq<SegmentModel>,
    checks: Seq<CheckModel>,
    translations: Seq<(Seq<char>, Seq<char>)>,
    n: nat,
) -> Result<CheckState, Seq<char>>
    decreases n,
{
    if n == 0 {
        Ok(
            CheckState {
                items: Seq::empty(),
                warning_findings: 0,
                blocking_findings: 0,
                placeholder_failed_ids: Seq::empty(),
                cache_writes: Seq::empty(),
                progress: Seq::empty(),
            },
        )
    } else {
        match checked_upto(segments, checks, translations, (n - 1) as nat) {
            Err(m) => Err(m),
            Ok(state) => check_step(
                state,
                segments[n - 1],
                checks[n - 1],
                translations,
                (n - 1) as nat,
                segments.len(),
            ),
        }
    }
}

/// What a quality pass produced.
#[derive(Clone, Debug, PartialEq, Eq)]
pub struct CheckedRun {
    pub items: Vec<TranslationItem>,
    pub warning_findings: u64,
    pub blocking_findings: u64,
    pub placeholder_failed_ids: Vec<String>,
    pub cache_writes: Vec<(String, String)>,
    pub progress: Vec<u64>,
}

/// A count, held at `u64::MAX` when it is larger.
pub open spec fn capped_count(n: nat) -> nat {
    if n <= u64::MAX {
        n
    } else {
        u64::MAX as nat
    }
}

/// Whether a run's outcome matches the pass's state (counts held at `u64::MAX`).
pub open spec fn run_matches(r: CheckedRun, s: CheckState) -> bool {
    &&& item_models(r.items@) == s.items
    &&& r.warning_findings == capped_count(s.warning_findings)
    &&& r.blocking_findings == capped_count(s.blocking_findings)
    &&& string_texts(r.placeholder_failed_ids@) == s.placeholder_failed_ids
    &&& r.cache_writes@.map_values(|w: (String, String)| (w.0@, w.1@)) == s.cache_writes
    &&& r.progress@.map_values(|p: u64| p as nat) == s.progress
}

fn copy_option(o: &Option<String>) -> (r: Option<String>)
    ensures
        opt_text(r) == opt_text(*o),
{
    match o {
        Some(s) => Some(owned(s.as_str())),
        None => None,
    }
}

fn count_exec(s: &Vec<QaSeverity>, severity: QaSeverity) -> (r: u64)
    ensures
        r == capped_count(count_severity(s@, severity)),
{
    let mut n: u64 = 0;
    let mut i: usize = 0;
    assert(s@.take(0) =~= Seq::<QaSeverity>::empty());
    while i < s.len()
        invariant
            i <= s.len(),
            n == capped_count(count_severity(s@.take(i as int), severity)),
        decreases s.len() - i,
    {
        assert(s@.take(i + 1).drop_last() =~= s@.take(i as int));
        if s[i] == severity {
            n = n.saturating_add(1);
        }
        i = i + 1;
    }
    assert(s@.take(s.len() as int) =~= s@);
    n
}

proof fn lemma_count_bound(s: Seq<QaSeverity>, severity: QaSeverity)
    ensures
        count_severity(s, severity) <= s.len(),
    decreases s.len(),
{
    if s.len() > 0 {
        lemma_count_bound(s.drop_last(), severity);
    }
}

proof fn lemma_checked_stops(
    segments: Seq<SegmentModel>,
    checks: Seq<CheckModel>,
    translations: Seq<(Seq<char>, Seq<char>)>,
    k: nat,
    n: nat,
)
    requires
        k <= n,
        checked_upto(segments, checks, translations, k) is Err,
    ensures
        checked_upto(segments, checks, translations, n) == checked_upto(segments, checks, translations, k),
    decreases n - k,
{
    if k < n {
        lemma_checked_stops(segments, checks, translations, k, (n - 1) as nat);
    }
}

/// The quality pass after a translation run: each translated segment gets its
/// placeholders restored and its findings counted; its item is `blocking`,
/// `warning` or `passed`; a segment whose placeholders cannot be restored keeps
/// its source text and is counted as a blocking failure; clean new translations
/// are written to the cache; progress is reported every fifty segments and at
/// the end. A translated segment without a placeholder map stops the pass.
pub fn restore_and_check(
    segments: &Vec<Segment>,
    translations: &TranslationTable,
    checks: &Vec<SegmentCheck>,
) -> (r: Result<CheckedRun, String>)
    requires
        checks.len() == segments.len(),
    ensures
        match r {
            Ok(run) => checked_upto(
                crate::content::segment_models(segments@),
                check_models(checks@),
                translations.model(),
                segments.len() as nat,
            ) matches Ok(s) && run_matches(run, s),
            Err(m) => checked_upto(
                crate::content::segment_models(segments@),
                check_models(checks@),
                translations.model(),
                segments.len() as nat,
            ) == Err::<CheckState, Seq<char>>(m@),
        },
{
    let ghost segs = crate::content::segment_models(segments@);
    let ghost cs = check_models(checks@);
    let ghost table = translations.model();
    let total = segments.len();
    let mut run = CheckedRun {
        items: Vec::new(),
        warning_findings: 0,
        blocking_findings: 0,
        placeholder_failed_ids: Vec::new(),
        cache_writes: Vec::new(),
        progress: Vec::new(),
    };
    proof {
        assert(item_models(run.items@) =~= Seq::<ItemModel>::empty());
        assert(string_texts(run.placeholder_failed_ids@) =~= Seq::<Seq<char>>::empty());
        assert(run.cache_writes@.map_values(|w: (String, String)| (w.0@, w.1@)) =~= Seq::<
            (Seq<char>, Seq<char>),
        >::empty());
        assert(run.progress@.map_values(|p: u64| p as nat) =~= Seq::<nat>::empty());
    }
    let mut i: usize = 0;
    while i < total
        invariant
            i <= total,
            total == segments.len(),
            checks.len() == segments.len(),
            segs == crate::content::segment_models(segments@),
            cs == check_models(checks@),
            table == translations.model(),
            checked_upto(segs, cs, table, i as nat) matches Ok(s) && run_matches(run, s),
        decreases total - i,
    {
        let segment = &segments[i];
        let check = &checks[i];
        let ghost state = checked_upto(segs, cs, table, i as nat)->Ok_0;
        assert(segs[i as int] == segment@);
        assert(cs[i as int] == check@);
        match translations.get(segment.id.as_str()) {
            None => {},
            Some(translated) => match &check.restored {
                None => {
                    let mut m = owned("缺少占位符映射: ");
                    push_str(&mut m, segment.id.as_str());
                    proof {
                        lemma_checked_stops(segs, cs, table, (i + 1) as nat, total as nat);
                    }
                    return Err(m);
                },
                Some(Err(())) => {
                    let item = TranslationItem {
                        id: owned(segment.id.as_str()),
                        source: owned(segment.source.as_str()),
                        target: owned(segment.source.as_str()),
                        speaker: copy_option(&segment.context.speaker),
                        source_file: owned(segment.source_file.as_str()),
                        qa: owned("blocking"),
                    };
                    let ghost items_before = run.items@;
                    let ghost ids_before = run.placeholder_failed_ids@;
                    run.items.push(item);
                    run.blocking_findings = run.blocking_findings.saturating_add(1);
                    run.placeholder_failed_ids.push(owned(segment.id.as_str()));
                    proof {
                        assert(item_models(run.items@) =~= item_models(items_before).push(item@));
                        assert(string_texts(run.placeholder_failed_ids@) =~= string_texts(ids_before).push(segment.id@));
                    }
                },
                Some(Ok(target)) => {
                    proof {
                        lemma_count_bound(check.severities@, QaSeverity::Warning);
                        lemma_count_bound(check.severities@, QaSeverity::Blocking);
                    }
                    let warnings = count_exec(&check.severities, QaSeverity::Warning);
                    let blocking = count_exec(&check.severities, QaSeverity::Blocking);
                    let qa = if blocking > 0 {
                        "blocking"
                    } else if warnings > 0 {
                        "warning"
                    } else {
                        "passed"
                    };
                    proof {
                        reveal_strlit("blocking");
                        reveal_strlit("warning");
                        reveal_strlit("passed");
                    }
                    assert(qa@ == verdict(check.severities@));
                    run.warning_findings = run.warning_findings.saturating_add(warnings);
                    run.blocking_findings = run.blocking_findings.saturating_add(blocking);
                    let ghost writes_before = run.cache_writes@;
                    if blocking == 0 && !check.cached {
                        match &check.fingerprint {
                            Some(fp) => {
                                let w = (owned(fp.as_str()), owned(translated.as_str()));
                                run.cache_writes.push(w);
                                assert(run.cache_writes@.map_values(|w: (String, String)| (w.0@, w.1@))
                                    =~= writes_before.map_values(|w: (String, String)| (w.0@, w.1@)).push(
                                    (fp@, translated@),
                                ));
                            },
                            None => {},
                        }
                    }
                    proof {
                        if blocking > 0 {
                            assert(qa@ == "blocking"@);
                        } else {
                            assert(qa@ != "blocking"@) by {
                                if warnings > 0 {
                                    assert(qa@[0] == 'w');
                                } else {
                                    assert(qa@[0] == 'p');
                                }
                                assert("blocking"@[0] == 'b');
                            }
                        }
                    }
                    let item = TranslationItem {
                        id: owned(segment.id.as_str()),
                        source: owned(segment.source.as_str()),
                        target: owned(target.as_str()),
                        speaker: copy_option(&segment.context.speaker),
                        source_file: owned(segment.source_file.as_str()),
                        qa: owned(qa),
                    };
                    let ghost items_before = run.items@;
                    run.items.push(item);
                    assert(item_models(run.items@) =~= item_models(items_before).push(item@));
                    let checked = i + 1;
                    if checked == total || checked % 50 == 0 {
                        let ghost progress_before = run.progress@;
                        run.progress.push(checked as u64);
                        assert(run.progress@.map_values(|p: u64| p as nat) =~= progress_before.map_values(
                            |p: u64| p as nat,
                        ).push(checked as nat));
                    }
                },
            },
        }
        i = i + 1;
    }
    Ok(run)
}

} // verus!
