use crate::translations::TranslationTable;
use vstd::prelude::*;

verus! {

/// What a translatable piece of text is within its source.
#[derive(Clone, Copy, Debug, PartialEq, Eq, Structural)]
pub enum SegmentKind {
    Dialogue,
    Choice,
    ScrollingText,
    DatabaseName,
    DatabaseDescription,
    LocalizedKey,
}

/// Neighbouring information handed to a translator with a segment.
#[derive(Clone, Debug, PartialEq, Eq)]
pub struct SegmentContext {
    pub speaker: Option<String>,
    pub previous_text: Option<String>,
    pub next_text: Option<String>,
}

/// One translatable piece of text.
#[derive(Clone, Debug, PartialEq, Eq)]
pub struct Segment {
    pub id: String,
    pub source: String,
    pub source_file: String,
    /// Format-specific address of the source text within `source_file`.
    pub location: String,
    pub kind: SegmentKind,
    pub context: SegmentContext,
}

pub open spec fn opt_text(o: Option<String>) -> Option<Seq<char>> {
    match o {
        Some(s) => Some(s@),
        None => None,
    }
}

/// Mathematical model of a [`SegmentContext`].
pub struct ContextModel {
    pub speaker: Option<Seq<char>>,
    pub previous_text: Option<Seq<char>>,
    pub next_text: Option<Seq<char>>,
}

/// Mathematical model of a [`Segment`].
pub struct SegmentModel {
    pub id: Seq<char>,
    pub source: Seq<char>,
    pub source_file: Seq<char>,
    pub location: Seq<char>,
    pub kind: SegmentKind,
    pub context: ContextModel,
}

impl View for SegmentContext {
    type V = ContextModel;

    open spec fn view(&self) -> ContextModel {
        ContextModel {
            speaker: opt_text(self.speaker),
            previous_text: opt_text(self.previous_text),
            next_text: opt_text(self.next_text),
        }
    }
}

impl View for Segment {
    type V = SegmentModel;

    open spec fn view(&self) -> SegmentModel {
        SegmentModel {
            id: self.id@,
            source: self.source@,
            source_file: self.source_file@,
            location: self.location@,
            kind: self.kind,
            context: self.context@,
        }
    }
}

/// The models of a sequence of segments.
pub open spec fn segment_models(s: Seq<Segment>) -> Seq<SegmentModel> {
    s.map_values(|x: Segment| x@)
}

/// Broad family of a content source.
#[derive(Clone, Copy, Debug, PartialEq, Eq, Structural)]
pub enum ContentCategory {
    Game,
    GameMod,
    Document,
    Subtitle,
}

/// What an adapter can do with translated content.
#[derive(Clone, Copy, Debug, PartialEq, Eq, Structural)]
pub enum OutputCapability {
    Export,
    Install,
    Uninstall,
}

/// A recognised source of translatable content.
#[derive(Clone, Debug, PartialEq, Eq)]
pub struct ContentSource {
    pub root: String,
    pub format_id: &'static str,
    pub display_name: String,
    pub source_id: String,
}

/// Why a content source could not be read.
#[derive(Clone, Debug, PartialEq, Eq)]
pub enum ContentError {
    UnsupportedSource,
    MissingRequiredFile(String),
    InvalidData { path: String, message: String },
    Io { path: String, message: String },
}

/// Mathematical model of a [`ContentError`] (and of an [`EngineError`]).
pub enum Fault {
    Unsupported,
    MissingFile(Seq<char>),
    InvalidData(Seq<char>, Seq<char>),
    Io(Seq<char>, Seq<char>),
}

impl View for ContentError {
    type V = Fault;

    open spec fn view(&self) -> Fault {
        match self {
            ContentError::UnsupportedSource => Fault::Unsupported,
            ContentError::MissingRequiredFile(p) => Fault::MissingFile(p@),
            ContentError::InvalidData { path, message } => Fault::InvalidData(path@, message@),
            ContentError::Io { path, message } => Fault::Io(path@, message@),
        }
    }
}

impl ContentError {
    /// The readable message of the error.
    pub fn describe(&self) -> (r: String)
        ensures
            r@ == content_error_text(self@),
    {
        let mut out = String::new();
        match self {
            ContentError::UnsupportedSource => {
                crate::text::push_str(&mut out, "unsupported content source");
            },
            ContentError::MissingRequiredFile(path) => {
                crate::text::push_str(&mut out, "missing required file: ");
                crate::text::push_str(&mut out, path.as_str());
            },
            ContentError::InvalidData { path, message } => {
                crate::text::push_str(&mut out, "invalid data in ");
                crate::text::push_str(&mut out, path.as_str());
                crate::text::push_str(&mut out, ": ");
                crate::text::push_str(&mut out, message.as_str());
            },
            ContentError::Io { path, message } => {
                crate::text::push_str(&mut out, "failed to read ");
                crate::text::push_str(&mut out, path.as_str());
                crate::text::push_str(&mut out, ": ");
                crate::text::push_str(&mut out, message.as_str());
            },
        }
        proof {
            reveal_strlit("unsupported content source");
            reveal_strlit("missing required file: ");
            reveal_strlit("invalid data in ");
            reveal_strlit("failed to read ");
            reveal_strlit(": ");
        }
        out
    }
}

/// The readable message of a content error.
pub open spec fn content_error_text(f: Fault) -> Seq<char> {
    match f {
        Fault::Unsupported => "unsupported content source"@,
        Fault::MissingFile(p) => "missing required file: "@ + p,
        Fault::InvalidData(p, m) => "invalid data in "@ + p + ": "@ + m,
        Fault::Io(p, m) => "failed to read "@ + p + ": "@ + m,
    }
}

/// The game engine of a detected project.
#[derive(Clone, Copy, Debug, PartialEq, Eq, Structural)]
pub enum EngineKind {
    RpgMakerMv,
    RpgMakerMz,
    RenPy,
}

/// A game project that an engine adapter recognised.
#[derive(Clone, Debug, PartialEq, Eq)]
pub struct DetectedProject {
    pub root: String,
    pub data_dir: String,
    pub engine: EngineKind,
}

/// Why an engine adapter could not read a game.
#[derive(Clone, Debug, PartialEq, Eq)]
pub enum EngineError {
    UnsupportedProject,
    MissingRequiredFile(String),
    InvalidData { path: String, message: String },
    Io { path: String, message: String },
}

impl View for EngineError {
    type V = Fault;

    open spec fn view(&self) -> Fault {
        match self {
            EngineError::UnsupportedProject => Fault::Unsupported,
            EngineError::MissingRequiredFile(p) => Fault::MissingFile(p@),
            EngineError::InvalidData { path, message } => Fault::InvalidData(path@, message@),
            EngineError::Io { path, message } => Fault::Io(path@, message@),
        }
    }
}

/// The readable message of an engine error.
pub open spec fn engine_error_text(f: Fault) -> Seq<char> {
    match f {
        Fault::Unsupported => "unsupported game project"@,
        _ => content_error_text(f),
    }
}

impl EngineError {
    /// The readable message of the error.
    pub fn describe(&self) -> (r: String)
        ensures
            r@ == engine_error_text(self@),
    {
        match self {
            EngineError::UnsupportedProject => {
                proof {
                    reveal_strlit("unsupported game project");
                }
                crate::text::owned("unsupported game project")
            },
            EngineError::MissingRequiredFile(p) => {
                ContentError::MissingRequiredFile(crate::text::owned(p.as_str())).describe()
            },
            EngineError::InvalidData { path, message } => ContentError::InvalidData {
                path: crate::text::owned(path.as_str()),
                message: crate::text::owned(message.as_str()),
            }.describe(),
            EngineError::Io { path, message } => ContentError::Io {
                path: crate::text::owned(path.as_str()),
                message: crate::text::owned(message.as_str()),
            }.describe(),
        }
    }
}

/// Carries an engine error over into the content vocabulary, variant by variant.
pub fn map_engine_error(error: EngineError) -> (r: ContentError)
    ensures
        r@ == error@,
{
    match error {
        EngineError::UnsupportedProject => ContentError::UnsupportedSource,
        EngineError::MissingRequiredFile(path) => ContentError::MissingRequiredFile(path),
        EngineError::InvalidData { path, message } => ContentError::InvalidData { path, message },
        EngineError::Io { path, message } => ContentError::Io { path, message },
    }
}

/// A request to write translations of a source as standalone output.
pub struct ExportRequest<'a> {
    pub source: &'a ContentSource,
    pub translations: &'a TranslationTable,
    pub output_root: &'a str,
    pub target_language: &'a str,
}

/// The files of a standalone export: `files[i]` is to hold `contents[i]`.
#[derive(Clone, Debug, PartialEq, Eq)]
pub struct ExportResult {
    pub output_root: String,
    pub files: Vec<String>,
    pub contents: Vec<String>,
}

/// A file that an export writes: where it goes and its text.
pub struct OutputFile {
    pub path: String,
    pub content: String,
}

/// The `(path, text)` pairs of output files.
pub open spec fn output_models(files: Seq<OutputFile>) -> Seq<(Seq<char>, Seq<char>)> {
    files.map_values(|f: OutputFile| (f.path@, f.content@))
}

/// The `(path, text)` pairs of an export result.
pub open spec fn written_files(r: ExportResult) -> Seq<(Seq<char>, Seq<char>)> {
    Seq::new(r.files@.len(), |i: int| (r.files@[i]@, r.contents@[i]@))
}

/// What an adapter may find in a file it looks for.
#[derive(Clone, Debug, PartialEq, Eq)]
pub enum FileRead {
    /// No regular file is at the path.
    Missing,
    /// The file exists but reading it failed, with the error's message.
    Failed(String),
    /// The file's text.
    Text(String),
}

/// Joins two path parts the way `Path::join` does for a relative second part.
pub open spec fn join_path(base: Seq<char>, rest: Seq<char>) -> Seq<char> {
    if base.len() == 0 {
        rest
    } else if base.last() == '/' || base.last() == '\\' {
        base + rest
    } else {
        base + seq!['/'] + rest
    }
}

/// Executable form of [`join_path`].
pub fn join(base: &str, rest: &str) -> (r: String)
    ensures
        r@ == join_path(base@, rest@),
{
    let b = crate::text::chars_of(base);
    let mut out = crate::text::string_from(&b);
    if b.len() > 0 && b[b.len() - 1] != '/' && b[b.len() - 1] != '\\' {
        crate::text::push_char(&mut out, '/');
    }
    crate::text::push_str(&mut out, rest);
    out
}

} // verus!

verus! {

/// Mathematical model of a [`FileRead`].
pub enum FileState {
    Missing,
    Failed(Seq<char>),
    Text(Seq<char>),
}

impl View for FileRead {
    type V = FileState;

    open spec fn view(&self) -> FileState {
        match self {
            FileRead::Missing => FileState::Missing,
            FileRead::Failed(m) => FileState::Failed(m@),
            FileRead::Text(t) => FileState::Text(t@),
        }
    }
}

/// Mathematical model of a [`ContentSource`].
pub struct SourceModel {
    pub root: Seq<char>,
    pub format_id: Seq<char>,
    pub display_name: Seq<char>,
    pub source_id: Seq<char>,
}

impl View for ContentSource {
    type V = SourceModel;

    open spec fn view(&self) -> SourceModel {
        SourceModel {
            root: self.root@,
            format_id: self.format_id@,
            display_name: self.display_name@,
            source_id: self.source_id@,
        }
    }
}

/// Model of a result that carries a content source.
pub open spec fn source_result(r: Result<ContentSource, ContentError>) -> Result<SourceModel, Fault> {
    match r {
        Ok(s) => Ok(s@),
        Err(e) => Err(e@),
    }
}

/// Model of a result that carries segments.
pub open spec fn segments_result(r: Result<Vec<Segment>, ContentError>) -> Result<
    Seq<SegmentModel>,
    Fault,
> {
    match r {
        Ok(v) => Ok(segment_models(v@)),
        Err(e) => Err(e@),
    }
}

/// A context with nothing around the segment.
pub open spec fn empty_context() -> ContextModel {
    ContextModel { speaker: None, previous_text: None, next_text: None }
}

pub fn no_context() -> (c: SegmentContext)
    ensures
        c@ == empty_context(),
{
    SegmentContext { speaker: None, previous_text: None, next_text: None }
}


/// A reader of one content format: it recognises a source from what it finds
/// below a root, and extracts the source's segments from its files.
///
/// `Probe` is what the adapter reads to recognise a source; `Files` is what
/// it reads to extract one.
pub trait ContentSourceAdapter {
    type Probe;
    type Files;

    fn format_id(&self) -> &'static str;

    fn category(&self) -> ContentCategory;

    fn output_capabilities(&self) -> Vec<OutputCapability>;

    fn detect(&self, root: &str, probe: &Self::Probe) -> Result<ContentSource, ContentError>;

    fn extract(&self, source: &ContentSource, files: Self::Files) -> Result<Vec<Segment>, ContentError>;
}

/// A writer of standalone output for one content format.
pub trait ContentOutputAdapter {
    type Files;

    fn format_id(&self) -> &'static str;

    fn capabilities(&self) -> Vec<OutputCapability>;

    fn export(&self, request: &ExportRequest, files: Self::Files) -> Result<ExportResult, ContentError>;
}

/// A reader of one game engine's projects.
pub trait EngineAdapter {
    type Probe;
    type Files;

    /// Identifies a supported game project without modifying it.
    fn detect(&self, root: &str, probe: &Self::Probe) -> Result<DetectedProject, EngineError>;

    /// Extracts translatable segments from a detected project.
    fn extract(&self, project: &DetectedProject, files: Self::Files) -> Result<Vec<Segment>, EngineError>;
}

} // verus!
