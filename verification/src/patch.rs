use crate::content::{
    engine_error_text, join_path, output_models, segment_models, DetectedProject, EngineError,
    EngineKind, Fault, OutputFile, Segment, SegmentModel,
};
use crate::order::{sorted_by_key, stably_sorted};
use crate::renpy::{renpy_written, TemplateFile};
use crate::rpgmaker::{json_files, rpg_written, strip_root, DataFile};
use crate::text::{owned, str_equal};
use crate::translations::TranslationTable;
use sha2::{Digest, Sha256};
use vstd::prelude::*;
use vstd::utf8::encode_utf8;

verus! {

/// The SHA-256 digest of `bytes` (`sha2::Sha256::digest`).
pub uninterp spec fn sha256(bytes: Seq<u8>) -> Seq<u8>;

/// Computes the SHA-256 digest of bytes (`sha2::Sha256::digest`). Claimed: the
/// digest is `sha256(bytes)`, a function of the bytes alone, and it has 32 bytes.
#[verifier::external_body]
pub(crate) fn sha256_digest(bytes: &[u8]) -> (r: Vec<u8>)
    ensures
        r@ == sha256(bytes@),
        r@.len() == 32,
{
    Sha256::digest(bytes).to_vec()
}

/// The lower-case hexadecimal digit for `d < 16`.
pub open spec fn hex_digit(d: int) -> char {
    if d < 10 {
        ((d + 48) as u8) as char
    } else {
        ((d + 87) as u8) as char
    }
}

/// Bytes in lower-case hexadecimal, two digits per byte.
pub open spec fn hex(bytes: Seq<u8>) -> Seq<char>
    decreases bytes.len(),
{
    if bytes.len() == 0 {
        Seq::empty()
    } else {
        hex(bytes.drop_last()) + seq![
            hex_digit(bytes.last() as int / 16),
            hex_digit(bytes.last() as int % 16),
        ]
    }
}

/// The hash that a manifest records for a file's bytes.
pub open spec fn file_hash(bytes: Seq<u8>) -> Seq<char> {
    hex(sha256(bytes))
}

fn hex_char(d: u8) -> (c: char)
    requires
        d < 16,
    ensures
        c == hex_digit(d as int),
{
    if d < 10 {
        (d + 48) as char
    } else {
        (d + 87) as char
    }
}

/// Bytes in lower-case hexadecimal.
pub fn hex_text(bytes: &[u8]) -> (r: String)
    ensures
        r@ == hex(bytes@),
{
    let mut out = String::new();
    let mut i: usize = 0;
    assert(bytes@.take(0) =~= Seq::<u8>::empty());
    while i < bytes.len()
        invariant
            i <= bytes.len(),
            out@ == hex(bytes@.take(i as int)),
        decreases bytes.len() - i,
    {
        let b = bytes[i];
        crate::text::push_char(&mut out, hex_char(b / 16));
        crate::text::push_char(&mut out, hex_char(b % 16));
        assert(bytes@.take(i + 1).drop_last() =~= bytes@.take(i as int));
        i = i + 1;
    }
    assert(bytes@.take(bytes.len() as int) =~= bytes@);
    out
}

/// The SHA-256 hash of bytes in lower-case hexadecimal.
pub fn hash_bytes(bytes: &[u8]) -> (r: String)
    ensures
        r@ == file_hash(bytes@),
{
    let digest = sha256_digest(bytes);
    hex_text(digest.as_slice())
}

/// One file of a patch: where it goes relative to the game, the hash of the
/// game's file it replaces (empty when there is none) and the hash of its own
/// bytes.
#[derive(Clone, Debug, PartialEq, Eq)]
pub struct PatchFile {
    pub relative_path: String,
    pub source_sha256: String,
    pub target_sha256: String,
}

/// The files of a patch, with the format version.
#[derive(Clone, Debug, PartialEq, Eq)]
pub struct PatchManifest {
    pub format_version: u32,
    pub files: Vec<PatchFile>,
}

/// Why a patch could not be made.
#[derive(Clone, Debug, PartialEq, Eq)]
pub enum PatchError {
    BlockingQualityFindings,
    SourceChanged(String),
    Engine(String),
    Io { path: String, message: String },
}

/// Model of a [`PatchError`].
pub enum PatchFault {
    Blocking,
    Changed(Seq<char>),
    Engine(Seq<char>),
    Io(Seq<char>, Seq<char>),
}

impl View for PatchError {
    type V = PatchFault;

    open spec fn view(&self) -> PatchFault {
        match self {
            PatchError::BlockingQualityFindings => PatchFault::Blocking,
            PatchError::SourceChanged(p) => PatchFault::Changed(p@),
            PatchError::Engine(m) => PatchFault::Engine(m@),
            PatchError::Io { path, message } => PatchFault::Io(path@, message@),
        }
    }
}

/// The message a patch error shows.
pub open spec fn patch_error_text(f: PatchFault) -> Seq<char> {
    match f {
        PatchFault::Blocking => "blocking quality findings prevent export"@,
        PatchFault::Changed(p) => "source file changed: "@ + p,
        PatchFault::Engine(m) => m,
        PatchFault::Io(p, m) => "failed to access "@ + p + ": "@ + m,
    }
}

impl PatchError {
    /// The readable message of the error.
    pub fn describe(&self) -> (r: String)
        ensures
            r@ == patch_error_text(self@),
    {
        match self {
            PatchError::BlockingQualityFindings => owned("blocking quality findings prevent export"),
            PatchError::SourceChanged(p) => {
                let mut s = owned("source file changed: ");
                crate::text::push_str(&mut s, p.as_str());
                s
            },
            PatchError::Engine(m) => owned(m.as_str()),
            PatchError::Io { path, message } => {
                let mut s = owned("failed to access ");
                crate::text::push_str(&mut s, path.as_str());
                crate::text::push_str(&mut s, ": ");
                crate::text::push_str(&mut s, message.as_str());
                s
            },
        }
    }
}

/// How serious a quality finding is.
#[derive(Clone, Copy, Debug, PartialEq, Eq, Structural)]
pub enum QaSeverity {
    Warning,
    Blocking,
}

/// A file of the game as it is now: its bytes, or the message of the error
/// that reading it gave.
pub struct SourceBytes {
    pub path: String,
    pub bytes: Result<Vec<u8>, String>,
}

/// What was read for `path`: the first entry with that path.
pub open spec fn read_of(reads: Seq<SourceBytes>, path: Seq<char>, i: int) -> Option<
    Result<Seq<u8>, Seq<char>>,
>
    decreases reads.len() - i,
{
    if i < 0 || i >= reads.len() {
        None
    } else if reads[i].path@ == path {
        Some(
            match reads[i].bytes {
                Ok(b) => Ok(b@),
                Err(m) => Err(m@),
            },
        )
    } else {
        read_of(reads, path, i + 1)
    }
}

pub open spec fn unread_message() -> Seq<char> {
    "file was not read"@
}

/// The hash of the file at `path` as read now, or the error for it.
pub open spec fn current_hash(reads: Seq<SourceBytes>, path: Seq<char>) -> Result<Seq<char>, PatchFault> {
    match read_of(reads, path, 0) {
        None => Err(PatchFault::Io(path, unread_message())),
        Some(Err(m)) => Err(PatchFault::Io(path, m)),
        Some(Ok(b)) => Ok(file_hash(b)),
    }
}

/// The distinct source files of segments, in order of first appearance.
pub open spec fn distinct_sources(segs: Seq<SegmentModel>) -> Seq<Seq<char>>
    decreases segs.len(),
{
    if segs.len() == 0 {
        Seq::empty()
    } else {
        let before = distinct_sources(segs.drop_last());
        if before.contains(segs.last().source_file) {
            before
        } else {
            before.push(segs.last().source_file)
        }
    }
}

/// The distinct source files of segments, in order of first appearance: the
/// files whose bytes a patch plan hashes.
pub fn source_paths(segs: &Vec<Segment>) -> (paths: Vec<String>)
    ensures
        paths@.map_values(|s: String| s@) == distinct_sources(segment_models(segs@)),
{
    let ghost m = segment_models(segs@);
    let mut paths: Vec<String> = Vec::new();
    let mut i: usize = 0;
    assert(m.take(0) =~= Seq::<SegmentModel>::empty());
    assert(paths@.map_values(|s: String| s@) =~= Seq::<Seq<char>>::empty());
    while i < segs.len()
        invariant
            i <= segs.len(),
            m == segment_models(segs@),
            paths@.map_values(|s: String| s@) == distinct_sources(m.take(i as int)),
        decreases segs.len() - i,
    {
        assert(m.take(i + 1).drop_last() =~= m.take(i as int));
        assert(m.take(i + 1).last() == segs@[i as int]@);
        let file = segs[i].source_file.as_str();
        if !contains_path(&paths, file) {
            let ghost before = paths@;
            paths.push(owned(file));
            assert(paths@.map_values(|s: String| s@) =~= before.map_values(|s: String| s@).push(
                file@,
            ));
        }
        i = i + 1;
    }
    assert(m.take(segs.len() as int) =~= m);
    paths
}

/// The hashes of `paths[i..]`, or the first error.
pub open spec fn hashes_from(reads: Seq<SourceBytes>, paths: Seq<Seq<char>>, i: int) -> Result<
    Seq<(Seq<char>, Seq<char>)>,
    PatchFault,
>
    decreases paths.len() - i,
{
    if i < 0 || i >= paths.len() {
        Ok(Seq::empty())
    } else {
        match current_hash(reads, paths[i]) {
            Err(f) => Err(f),
            Ok(h) => match hashes_from(reads, paths, i + 1) {
                Err(f) => Err(f),
                Ok(rest) => Ok(seq![(paths[i], h)] + rest),
            },
        }
    }
}

/// The hashes captured for a project's extracted segments.
pub open spec fn captured_hashes(
    segments: Result<Vec<Segment>, EngineError>,
    reads: Seq<SourceBytes>,
) -> Result<Seq<(Seq<char>, Seq<char>)>, PatchFault> {
    match segments {
        Err(e) => Err(PatchFault::Engine(engine_error_text(e@))),
        Ok(segs) => hashes_from(reads, distinct_sources(segment_models(segs@)), 0),
    }
}

/// A plan for a patch: the project and the hashes of its source files at the
/// time the plan was made.
pub struct PatchPlan {
    project: DetectedProject,
    source_hashes: Vec<(String, String)>,
}

pub open spec fn hash_models(h: Seq<(String, String)>) -> Seq<(Seq<char>, Seq<char>)> {
    h.map_values(|p: (String, String)| (p.0@, p.1@))
}

/// What a plan checks before it exports: the first captured file whose hash
/// changed, or whose reading failed.
pub open spec fn first_change(
    captured: Seq<(Seq<char>, Seq<char>)>,
    reads: Seq<SourceBytes>,
    i: int,
) -> Option<PatchFault>
    decreases captured.len() - i,
{
    if i < 0 || i >= captured.len() {
        None
    } else {
        match current_hash(reads, captured[i].0) {
            Err(f) => Some(f),
            Ok(h) => if h != captured[i].1 {
                Some(PatchFault::Changed(captured[i].0))
            } else {
                first_change(captured, reads, i + 1)
            },
        }
    }
}

/// The engine inputs of a patch: the data files of an RPG Maker project, or
/// the generated templates of a Ren'Py distribution.
pub enum EngineFiles {
    RpgMaker(Result<Vec<DataFile>, String>),
    RenPy { template_root: String, templates: Result<Vec<TemplateFile>, EngineError> },
}

/// Whether `files` is what the writer of a project of this engine reads: the
/// RPG Maker data listing for either RPG Maker, the Ren'Py templates for Ren'Py.
pub open spec fn files_for_engine(engine: EngineKind, files: EngineFiles) -> bool {
    match files {
        EngineFiles::RpgMaker(_) => engine != EngineKind::RenPy,
        EngineFiles::RenPy { .. } => engine == EngineKind::RenPy,
    }
}

/// What the engine writer of a project gives for its translations.
pub open spec fn engine_written(
    project: DetectedProject,
    table: Seq<(Seq<char>, Seq<char>)>,
    output_root: Seq<char>,
    language: Seq<char>,
    files: EngineFiles,
    result: Result<Seq<(Seq<char>, Seq<char>)>, Fault>,
) -> bool {
    match files {
        EngineFiles::RpgMaker(listing) => match listing {
            Err(m) => result == Err::<Seq<(Seq<char>, Seq<char>)>, Fault>(
                Fault::Io(project.data_dir@, m@),
            ),
            Ok(fs) => exists|sorted: Seq<DataFile>|
                #![trigger stably_sorted(json_files(fs@), sorted), rpg_written(project, output_root, table, sorted)]
                stably_sorted(json_files(fs@), sorted)
                    && result == rpg_written(project, output_root, table, sorted),
        },
        EngineFiles::RenPy { template_root, templates } => result == renpy_written(
            table,
            output_root,
            language,
            template_root@,
            templates,
        ),
    }
}

/// The manifest entry of a written file.
pub open spec fn manifest_entry(
    project: DetectedProject,
    captured: Seq<(Seq<char>, Seq<char>)>,
    reads: Seq<SourceBytes>,
    output_root: Seq<char>,
    file: (Seq<char>, Seq<char>),
) -> Result<(Seq<char>, Seq<char>, Seq<char>), PatchFault> {
    match strip_root(output_root, file.0) {
        None => Err(PatchFault::Io(file.0, "prefix not found"@)),
        Some(rel) => {
            let source = if project.engine == EngineKind::RenPy {
                Ok(
                    if captured.len() > 0 {
                        captured[0].1
                    } else {
                        Seq::empty()
                    },
                )
            } else {
                current_hash(reads, join_path(project.root@, rel))
            };
            match source {
                Err(f) => Err(f),
                Ok(h) => Ok((rel, h, file_hash(encode_utf8(file.1)))),
            }
        },
    }
}

/// The manifest entries of `written[i..]`, or the first error.
pub open spec fn manifest_from(
    project: DetectedProject,
    captured: Seq<(Seq<char>, Seq<char>)>,
    reads: Seq<SourceBytes>,
    output_root: Seq<char>,
    written: Seq<(Seq<char>, Seq<char>)>,
    i: int,
) -> Result<Seq<(Seq<char>, Seq<char>, Seq<char>)>, PatchFault>
    decreases written.len() - i,
{
    if i < 0 || i >= written.len() {
        Ok(Seq::empty())
    } else {
        match manifest_entry(project, captured, reads, output_root, written[i]) {
            Err(f) => Err(f),
            Ok(e) => match manifest_from(project, captured, reads, output_root, written, i + 1) {
                Err(f) => Err(f),
                Ok(rest) => Ok(seq![e] + rest),
            },
        }
    }
}

pub open spec fn patch_file_models(files: Seq<PatchFile>) -> Seq<(Seq<char>, Seq<char>, Seq<char>)> {
    files.map_values(|f: PatchFile| (f.relative_path@, f.source_sha256@, f.target_sha256@))
}

/// A patch to write: its files and its manifest.
pub struct PatchExport {
    pub files: Vec<OutputFile>,
    pub manifest: PatchManifest,
}

fn read_lookup(reads: &Vec<SourceBytes>, path: &str) -> (r: Option<usize>)
    ensures
        match r {
            Some(i) => i < reads.len() && reads@[i as int].path@ == path@ && read_of(
                reads@,
                path@,
                0,
            ) == Some(
                match reads@[i as int].bytes {
                    Ok(b) => Ok(b@),
                    Err(m) => Err(m@),
                },
            ),
            None => read_of(reads@, path@, 0) is None,
        },
{
    let mut i: usize = 0;
    while i < reads.len()
        invariant
            i <= reads.len(),
            read_of(reads@, path@, 0) == read_of(reads@, path@, i as int),
        decreases reads.len() - i,
    {
        if str_equal(reads[i].path.as_str(), path) {
            return Some(i);
        }
        i = i + 1;
    }
    None
}

fn current_hash_exec(reads: &Vec<SourceBytes>, path: &str) -> (r: Result<String, PatchError>)
    ensures
        match (r, current_hash(reads@, path@)) {
            (Ok(h), Ok(g)) => h@ == g,
            (Err(e), Err(f)) => e@ == f,
            _ => false,
        },
{
    match read_lookup(reads, path) {
        None => {
            proof {
                reveal_strlit("file was not read");
            }
            Err(PatchError::Io { path: owned(path), message: owned("file was not read") })
        },
        Some(i) => match &reads[i].bytes {
            Err(m) => Err(PatchError::Io { path: owned(path), message: owned(m.as_str()) }),
            Ok(b) => Ok(hash_bytes(b.as_slice())),
        },
    }
}

fn contains_path(v: &Vec<String>, p: &str) -> (r: bool)
    ensures
        r == v@.map_values(|s: String| s@).contains(p@),
{
    let ghost m = v@.map_values(|s: String| s@);
    let mut i: usize = 0;
    while i < v.len()
        invariant
            i <= v.len(),
            m == v@.map_values(|s: String| s@),
            forall|j: int| 0 <= j < i ==> m[j] != p@,
        decreases v.len() - i,
    {
        if str_equal(v[i].as_str(), p) {
            assert(m[i as int] == p@);
            return true;
        }
        i = i + 1;
    }
    false
}

impl PatchPlan {
    pub closed spec fn project(&self) -> DetectedProject {
        self.project
    }

    pub closed spec fn captured(&self) -> Seq<(Seq<char>, Seq<char>)> {
        hash_models(self.source_hashes@)
    }

    /// Captures the hashes of every source file that holds an extracted
    /// segment, in order of first appearance.
    ///
    /// `segments` is what extracting the project gave; `reads` holds the bytes
    /// of its source files as they are now.
    pub fn capture(
        project: DetectedProject,
        segments: Result<Vec<Segment>, EngineError>,
        reads: &Vec<SourceBytes>,
    ) -> (r: Result<PatchPlan, PatchError>)
        ensures
            match (r, captured_hashes(segments, reads@)) {
                (Ok(plan), Ok(h)) => plan.project() == project && plan.captured() == h,
                (Err(e), Err(f)) => e@ == f,
                _ => false,
            },
    {
        let segs = match segments {
            Err(e) => {
                return Err(PatchError::Engine(e.describe()));
            },
            Ok(s) => s,
        };
        let paths = source_paths(&segs);
        let ghost ps = paths@.map_values(|s: String| s@);
        assert(captured_hashes(segments, reads@) == hashes_from(reads@, ps, 0));
        let mut hashes: Vec<(String, String)> = Vec::new();
        let mut k: usize = 0;
        assert(hash_models(hashes@) =~= Seq::new(
            0 as nat,
            |j: int| (ps[j], current_hash(reads@, ps[j])->Ok_0),
        ));
        while k < paths.len()
            invariant
                k <= paths.len(),
                captured_hashes(segments, reads@) == hashes_from(reads@, ps, 0),
                ps == paths@.map_values(|s: String| s@),
                ps.len() == paths.len(),
                forall|j: int| 0 <= j < k ==> #[trigger] current_hash(reads@, ps[j]) is Ok,
                hash_models(hashes@) == Seq::new(
                    k as nat,
                    |j: int| (ps[j], current_hash(reads@, ps[j])->Ok_0),
                ),
            decreases paths.len() - k,
        {
            assert(ps[k as int] == paths@[k as int]@);
            let h = match current_hash_exec(reads, paths[k].as_str()) {
                Ok(h) => h,
                Err(e) => {
                    proof {
                        lemma_hashes_error_from(reads@, ps, 0, k as int);
                    }
                    return Err(e);
                },
            };
            let ghost before = hashes@;
            let ghost hv = h@;
            hashes.push((owned(paths[k].as_str()), h));
            assert(hash_models(hashes@) =~= hash_models(before).push((ps[k as int], hv)));
            k = k + 1;
            assert(hash_models(hashes@) =~= Seq::new(
                k as nat,
                |j: int| (ps[j], current_hash(reads@, ps[j])->Ok_0),
            ));
        }
        proof {
            lemma_hashes_ok(reads@, ps, 0);
            assert(hash_models(hashes@) =~= Seq::new(
                (ps.len() - 0) as nat,
                |j: int| (ps[0 + j], current_hash(reads@, ps[0 + j])->Ok_0),
            ));
        }
        Ok(PatchPlan { project, source_hashes: hashes })
    }
}

/// When every file hashes, the hashes of `paths[i..]` are theirs, in order.
pub proof fn lemma_hashes_ok(reads: Seq<SourceBytes>, paths: Seq<Seq<char>>, i: int)
    requires
        0 <= i <= paths.len(),
        forall|j: int| 0 <= j < paths.len() ==> #[trigger] current_hash(reads, paths[j]) is Ok,
    ensures
        hashes_from(reads, paths, i) == Ok::<Seq<(Seq<char>, Seq<char>)>, PatchFault>(
            Seq::new(
                (paths.len() - i) as nat,
                |j: int| (paths[i + j], current_hash(reads, paths[i + j])->Ok_0),
            ),
        ),
    decreases paths.len() - i,
{
    if i < paths.len() {
        lemma_hashes_ok(reads, paths, i + 1);
        assert(current_hash(reads, paths[i]) is Ok);
        let rest = Seq::new(
            (paths.len() - (i + 1)) as nat,
            |j: int| (paths[i + 1 + j], current_hash(reads, paths[i + 1 + j])->Ok_0),
        );
        assert(seq![(paths[i], current_hash(reads, paths[i])->Ok_0)] + rest =~= Seq::new(
            (paths.len() - i) as nat,
            |j: int| (paths[i + j], current_hash(reads, paths[i + j])->Ok_0),
        ));
    } else {
        assert(Seq::new(
            (paths.len() - i) as nat,
            |j: int| (paths[i + j], current_hash(reads, paths[i + j])->Ok_0),
        ) =~= Seq::<(Seq<char>, Seq<char>)>::empty());
    }
}

pub proof fn lemma_hashes_error_from(reads: Seq<SourceBytes>, paths: Seq<Seq<char>>, i: int, k: int)
    requires
        0 <= i <= k < paths.len(),
        current_hash(reads, paths[k]) is Err,
        forall|j: int| i <= j < k ==> #[trigger] current_hash(reads, paths[j]) is Ok,
    ensures
        hashes_from(reads, paths, i) == Err::<Seq<(Seq<char>, Seq<char>)>, PatchFault>(
            current_hash(reads, paths[k])->Err_0,
        ),
    decreases k - i,
{
    if i < k {
        lemma_hashes_error_from(reads, paths, i + 1, k);
    }
}


/// The error of a patch result, if any.
pub open spec fn patch_error(r: Result<PatchExport, PatchError>) -> Option<PatchFault> {
    match r {
        Ok(_) => None,
        Err(e) => Some(e@),
    }
}

/// Whether a quality finding blocks export.
pub open spec fn has_blocking(findings: Seq<QaSeverity>) -> bool {
    exists|i: int| 0 <= i < findings.len() && findings[i] == QaSeverity::Blocking
}

/// What exporting a plan's patch gives, once no finding blocks it and no
/// source changed: the engine writer's files and their manifest.
pub open spec fn patch_written(
    project: DetectedProject,
    captured: Seq<(Seq<char>, Seq<char>)>,
    reads: Seq<SourceBytes>,
    output_root: Seq<char>,
    written: Result<Seq<(Seq<char>, Seq<char>)>, Fault>,
    r: Result<PatchExport, PatchError>,
) -> bool {
    match written {
        Err(f) => patch_error(r) == Some(PatchFault::Engine(engine_error_text(f))),
        Ok(ws) => match manifest_from(project, captured, reads, output_root, ws, 0) {
            Err(pf) => patch_error(r) == Some(pf),
            Ok(entries) => r matches Ok(x) && output_models(x.files@) == ws
                && x.manifest.format_version == 1 && patch_file_models(x.manifest.files@)
                == entries,
        },
    }
}

impl PatchPlan {
    fn first_change_exec(&self, reads: &Vec<SourceBytes>) -> (r: Option<PatchError>)
        ensures
            match (r, first_change(self.captured(), reads@, 0)) {
                (Some(e), Some(f)) => e@ == f,
                (None, None) => true,
                _ => false,
            },
    {
        let ghost c = self.captured();
        let mut i: usize = 0;
        while i < self.source_hashes.len()
            invariant
                i <= self.source_hashes.len(),
                c == hash_models(self.source_hashes@),
                first_change(c, reads@, 0) == first_change(c, reads@, i as int),
            decreases self.source_hashes.len() - i,
        {
            let path = self.source_hashes[i].0.as_str();
            assert(c[i as int] == (path@, self.source_hashes@[i as int].1@));
            match current_hash_exec(reads, path) {
                Err(e) => {
                    return Some(e);
                },
                Ok(h) => {
                    if !str_equal(h.as_str(), self.source_hashes[i].1.as_str()) {
                        return Some(PatchError::SourceChanged(owned(path)));
                    }
                },
            }
            i = i + 1;
        }
        None
    }

    fn manifest_entries(
        &self,
        reads: &Vec<SourceBytes>,
        output_root: &str,
        written: &Vec<OutputFile>,
    ) -> (r: Result<Vec<PatchFile>, PatchError>)
        ensures
            match (r, manifest_from(
                self.project(),
                self.captured(),
                reads@,
                output_root@,
                output_models(written@),
                0,
            )) {
                (Ok(files), Ok(entries)) => patch_file_models(files@) == entries,
                (Err(e), Err(f)) => e@ == f,
                _ => false,
            },
    {
        let ghost ws = output_models(written@);
        let ghost c = self.captured();
        let mut files: Vec<PatchFile> = Vec::new();
        let mut i: usize = 0;
        proof {
            reveal_strlit("prefix not found");
        }
        assert(patch_file_models(files@) =~= Seq::<(Seq<char>, Seq<char>, Seq<char>)>::empty());
        while i < written.len()
            invariant
                i <= written.len(),
                ws == output_models(written@),
                c == self.captured(),
                c == hash_models(self.source_hashes@),
                manifest_from(self.project(), c, reads@, output_root@, ws, 0) == match manifest_from(
                    self.project(),
                    c,
                    reads@,
                    output_root@,
                    ws,
                    i as int,
                ) {
                    Err(f) => Err(f),
                    Ok(rest) => Ok(patch_file_models(files@) + rest),
                },
            decreases written.len() - i,
        {
            proof {
                reveal_strlit("prefix not found");
            }
            let file = &written[i];
            assert(ws[i as int] == (file.path@, file.content@));
            let rel = match crate::rpgmaker::strip_root_exec(output_root, file.path.as_str()) {
                None => {
                    return Err(
                        PatchError::Io { path: owned(file.path.as_str()), message: owned("prefix not found") },
                    );
                },
                Some(r) => r,
            };
            let source = if self.project.engine == EngineKind::RenPy {
                if self.source_hashes.len() > 0 {
                    owned(self.source_hashes[0].1.as_str())
                } else {
                    String::new()
                }
            } else {
                let p = crate::content::join(self.project.root.as_str(), rel.as_str());
                match current_hash_exec(reads, p.as_str()) {
                    Ok(h) => h,
                    Err(e) => {
                        return Err(e);
                    },
                }
            };
            let text = file.content.as_str();
            let bytes = text.as_bytes_vec();
            assert(text@ == file.content@);
            assert(bytes@ == encode_utf8(file.content@));
            let target = hash_bytes(bytes.as_slice());
            assert(manifest_entry(self.project(), c, reads@, output_root@, ws[i as int]) == Ok::<
                (Seq<char>, Seq<char>, Seq<char>),
                PatchFault,
            >((rel@, source@, target@)));
            let ghost before = files@;
            let entry = PatchFile { relative_path: rel, source_sha256: source, target_sha256: target };
            let ghost em = (entry.relative_path@, entry.source_sha256@, entry.target_sha256@);
            files.push(entry);
            assert(patch_file_models(files@) =~= patch_file_models(before).push(em));
            proof {
                match manifest_from(self.project(), c, reads@, output_root@, ws, i + 1) {
                    Ok(rest) => {
                        assert(patch_file_models(files@) + rest =~= patch_file_models(before) + (
                        seq![em] + rest));
                    },
                    Err(_) => {},
                }
            }
            i = i + 1;
        }
        Ok(files)
    }

    /// Exports an engine-native patch for the target language: refuses when a
    /// quality finding blocks it or a captured source file changed, then has
    /// the engine write the translated files and lists them with their hashes.
    ///
    /// `reads` holds the bytes of the project's files as they are now; `files`
    /// is what the engine writer reads.
    pub fn export_for_language(
        &self,
        translations: &TranslationTable,
        findings: &Vec<QaSeverity>,
        output_root: &str,
        language: &str,
        reads: &Vec<SourceBytes>,
        files: EngineFiles,
    ) -> (r: Result<PatchExport, PatchError>)
        requires
            files_for_engine(self.project().engine, files),
        ensures
            has_blocking(findings@) ==> patch_error(r) == Some(PatchFault::Blocking),
            !has_blocking(findings@) && first_change(self.captured(), reads@, 0) is Some
                ==> patch_error(r) == first_change(self.captured(), reads@, 0),
            !has_blocking(findings@) && first_change(self.captured(), reads@, 0) is None
                ==> exists|w: Result<Seq<(Seq<char>, Seq<char>)>, Fault>|
                #![trigger engine_written(self.project(), translations.model(), output_root@, language@, files, w)]
                engine_written(
                    self.project(),
                    translations.model(),
                    output_root@,
                    language@,
                    files,
                    w,
                ) && patch_written(
                    self.project(),
                    self.captured(),
                    reads@,
                    output_root@,
                    w,
                    r,
                ),
    {
        let mut i: usize = 0;
        while i < findings.len()
            invariant
                i <= findings.len(),
                forall|j: int| 0 <= j < i ==> findings@[j] != QaSeverity::Blocking,
            decreases findings.len() - i,
        {
            if findings[i] == QaSeverity::Blocking {
                return Err(PatchError::BlockingQualityFindings);
            }
            i = i + 1;
        }
        if let Some(e) = self.first_change_exec(reads) {
            return Err(e);
        }
        let ghost w0: Result<Seq<(Seq<char>, Seq<char>)>, Fault>;
        let written = match files {
            EngineFiles::RpgMaker(listing) => {
                let r = crate::rpgmaker::write_translations(
                    &self.project,
                    translations,
                    output_root,
                    listing,
                );
                proof {
                    w0 = crate::rpgmaker::written_result(r);
                }
                r
            },
            EngineFiles::RenPy { template_root, templates } => {
                let r = crate::renpy::write_translations(
                    translations,
                    output_root,
                    language,
                    template_root.as_str(),
                    templates,
                );
                proof {
                    w0 = crate::renpy::outputs_result(r);
                }
                r
            },
        };
        assert(engine_written(self.project(), translations.model(), output_root@, language@, files, w0));
        let written = match written {
            Ok(w) => w,
            Err(e) => {
                return Err(PatchError::Engine(e.describe()));
            },
        };
        let entries = match self.manifest_entries(reads, output_root, &written) {
            Ok(e) => e,
            Err(e) => {
                return Err(e);
            },
        };
        Ok(PatchExport { files: written, manifest: PatchManifest { format_version: 1, files: entries } })
    }

    /// Exports a patch for simplified Chinese.
    pub fn export(
        &self,
        translations: &TranslationTable,
        findings: &Vec<QaSeverity>,
        output_root: &str,
        reads: &Vec<SourceBytes>,
        files: EngineFiles,
    ) -> (r: Result<PatchExport, PatchError>)
        requires
            files_for_engine(self.project().engine, files),
        ensures
            has_blocking(findings@) ==> patch_error(r) == Some(PatchFault::Blocking),
            !has_blocking(findings@) && first_change(self.captured(), reads@, 0) is Some
                ==> patch_error(r) == first_change(self.captured(), reads@, 0),
            !has_blocking(findings@) && first_change(self.captured(), reads@, 0) is None
                ==> exists|w: Result<Seq<(Seq<char>, Seq<char>)>, Fault>|
                #![trigger engine_written(self.project(), translations.model(), output_root@, "zh-CN"@, files, w)]
                engine_written(
                    self.project(),
                    translations.model(),
                    output_root@,
                    "zh-CN"@,
                    files,
                    w,
                ) && patch_written(
                    self.project(),
                    self.captured(),
                    reads@,
                    output_root@,
                    w,
                    r,
                ),
    {
        self.export_for_language(translations, findings, output_root, "zh-CN", reads, files)
    }
}

} // verus!
