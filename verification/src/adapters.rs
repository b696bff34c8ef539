use crate::content::{
    map_engine_error, segment_models, segments_result, source_result, ContentCategory,
    ContentError, ContentOutputAdapter, ContentSource, ContentSourceAdapter, DetectedProject,
    EngineAdapter, EngineError, EngineKind, ExportRequest, ExportResult, Fault, FileRead,
    OutputCapability, Segment, SegmentModel, SourceModel,
};
use crate::language_pack::{export_model, pack_exported};
use crate::order::{sorted_by_key, stably_sorted};
use crate::renpy::{engine_result, listing_model, renpy_detect, templates_from, TemplateFile};
use crate::rimworld::{
    rimworld_extracted, rimworld_source, RimWorldLanguagePackOutputAdapter, RimWorldListing,
    RimWorldModContentAdapter,
};
use crate::rpgmaker::{
    engine_segments, json_files, project_segments, rpg_detect, DataFile,
};
use crate::text::{owned, str_equal};
use crate::translations::TranslationTable;
use vstd::prelude::*;

verus! {

/// What an RPG Maker adapter looks at to recognise a project: whether
/// `www/data` and `data` are directories, and what is at `System.json` in the
/// data directory that [`crate::rpgmaker::data_directory`] picks.
pub struct RpgMakerProbe {
    pub www_data_is_dir: bool,
    pub data_is_dir: bool,
    pub system: FileRead,
}

/// What an RPG Maker adapter reads to extract a project: the probe, and the
/// data directory's files or the message of the error that listing it gave.
pub struct RpgMakerFiles {
    pub probe: RpgMakerProbe,
    pub listing: Result<Vec<DataFile>, String>,
}

/// What a Ren'Py adapter looks at to recognise a distribution: whether
/// `renpy` and `game` are directories, and the names of the root's entries or
/// the message of the error that listing it gave.
pub struct RenPyProbe {
    pub renpy_is_dir: bool,
    pub game_is_dir: bool,
    pub listing: Result<Vec<String>, String>,
}

/// The translation templates that the bundled runtime generated for a
/// distribution, below `template_root`, and the file that segments point to;
/// or the error that generating or listing them gave.
pub struct RenPyTemplates {
    pub template_root: String,
    pub source_file: String,
    pub templates: Result<Vec<TemplateFile>, EngineError>,
}

/// What a Ren'Py content adapter reads to extract a distribution.
pub struct RenPyFiles {
    pub probe: RenPyProbe,
    pub templates: RenPyTemplates,
}

/// The source that an RPG Maker project at `root` is.
pub open spec fn rpg_source(root: Seq<char>, probe: RpgMakerProbe) -> Result<SourceModel, Fault> {
    match rpg_detect(root, probe.www_data_is_dir, probe.data_is_dir, probe.system@) {
        Err(f) => Err(f),
        Ok((engine, _)) => match engine {
            EngineKind::RpgMakerMv => Ok(
                SourceModel {
                    root,
                    format_id: "game.rpgmaker.mv"@,
                    display_name: "RPG Maker MV project"@,
                    source_id: "rpgmaker-mv"@,
                },
            ),
            EngineKind::RpgMakerMz => Ok(
                SourceModel {
                    root,
                    format_id: "game.rpgmaker.mz"@,
                    display_name: "RPG Maker MZ project"@,
                    source_id: "rpgmaker-mz"@,
                },
            ),
            EngineKind::RenPy => Err(Fault::Unsupported),
        },
    }
}

/// What extracting the RPG Maker project at `root` gives.
pub open spec fn rpg_extracted(
    root: Seq<char>,
    files: RpgMakerFiles,
    result: Result<Seq<SegmentModel>, Fault>,
) -> bool {
    let probe = files.probe;
    match rpg_detect(root, probe.www_data_is_dir, probe.data_is_dir, probe.system@) {
        Err(f) => result == Err::<Seq<SegmentModel>, Fault>(f),
        Ok((_, data_dir)) => match files.listing {
            Err(m) => result == Err::<Seq<SegmentModel>, Fault>(Fault::Io(data_dir, m@)),
            Ok(listing) => exists|sorted: Seq<DataFile>|
                #![trigger stably_sorted(json_files(listing@), sorted), project_segments(data_dir, sorted, 0)]
                stably_sorted(json_files(listing@), sorted)
                    && result == project_segments(data_dir, sorted, 0),
        },
    }
}

/// The source that a Ren'Py distribution at `root` is.
pub open spec fn renpy_source(root: Seq<char>, probe: RenPyProbe) -> Result<SourceModel, Fault> {
    match renpy_detect(root, probe.renpy_is_dir, probe.game_is_dir, listing_model(probe.listing)) {
        Err(f) => Err(f),
        Ok(_) => Ok(
            SourceModel {
                root,
                format_id: "game.renpy"@,
                display_name: "Ren'Py project"@,
                source_id: "renpy"@,
            },
        ),
    }
}

/// What extracting segments from generated templates gives.
pub open spec fn templates_extracted(
    templates: RenPyTemplates,
    result: Result<Seq<SegmentModel>, Fault>,
) -> bool {
    match templates.templates {
        Err(e) => result == Err::<Seq<SegmentModel>, Fault>(e@),
        Ok(files) => exists|sorted: Seq<TemplateFile>|
            #![trigger stably_sorted(files@, sorted), templates_from(templates.template_root@, templates.source_file@, sorted, 0)]
            stably_sorted(files@, sorted) && result
                == templates_from(templates.template_root@, templates.source_file@, sorted, 0),
    }
}

/// What extracting the Ren'Py distribution at `root` gives.
pub open spec fn renpy_extracted(
    root: Seq<char>,
    files: RenPyFiles,
    result: Result<Seq<SegmentModel>, Fault>,
) -> bool {
    let probe = files.probe;
    match renpy_detect(root, probe.renpy_is_dir, probe.game_is_dir, listing_model(probe.listing)) {
        Err(f) => result == Err::<Seq<SegmentModel>, Fault>(f),
        Ok(_) => templates_extracted(files.templates, result),
    }
}

/// Reads RPG Maker MV and MZ projects.
pub struct RpgMakerContentAdapter;

/// Reads Ren'Py distributions through their translation templates.
pub struct RenPyContentAdapter;

/// The Ren'Py engine adapter.
pub struct RenPyAdapter;

fn capabilities_export() -> (r: Vec<OutputCapability>)
    ensures
        r@ == seq![OutputCapability::Export],
{
    let mut v = Vec::new();
    v.push(OutputCapability::Export);
    v
}

impl ContentSourceAdapter for RpgMakerContentAdapter {
    type Probe = RpgMakerProbe;
    type Files = RpgMakerFiles;

    fn format_id(&self) -> (r: &'static str)
        ensures
            r@ == "game.rpgmaker"@,
    {
        "game.rpgmaker"
    }

    fn category(&self) -> (r: ContentCategory)
        ensures
            r == ContentCategory::Game,
    {
        ContentCategory::Game
    }

    fn output_capabilities(&self) -> (r: Vec<OutputCapability>)
        ensures
            r@ == seq![OutputCapability::Export],
    {
        capabilities_export()
    }

    fn detect(&self, root: &str, probe: &RpgMakerProbe) -> (r: Result<ContentSource, ContentError>)
        ensures
            source_result(r) == rpg_source(root@, *probe),
    {
        proof {
            reveal_strlit("game.rpgmaker.mv");
            reveal_strlit("game.rpgmaker.mz");
            reveal_strlit("RPG Maker MV project");
            reveal_strlit("RPG Maker MZ project");
            reveal_strlit("rpgmaker-mv");
            reveal_strlit("rpgmaker-mz");
        }
        let project = match crate::rpgmaker::detect_project(
            root,
            probe.www_data_is_dir,
            probe.data_is_dir,
            &probe.system,
        ) {
            Ok(p) => p,
            Err(e) => {
                return Err(map_engine_error(e));
            },
        };
        let (format_id, display_name, source_id) = match project.engine {
            EngineKind::RpgMakerMv => ("game.rpgmaker.mv", "RPG Maker MV project", "rpgmaker-mv"),
            EngineKind::RpgMakerMz => ("game.rpgmaker.mz", "RPG Maker MZ project", "rpgmaker-mz"),
            EngineKind::RenPy => {
                return Err(ContentError::UnsupportedSource);
            },
        };
        Ok(
            ContentSource {
                root: project.root,
                format_id,
                display_name: owned(display_name),
                source_id: owned(source_id),
            },
        )
    }

    fn extract(&self, source: &ContentSource, files: RpgMakerFiles) -> (r: Result<
        Vec<Segment>,
        ContentError,
    >)
        ensures
            rpg_extracted(source.root@, files, segments_result(r)),
    {
        let RpgMakerFiles { probe, listing } = files;
        let project = match crate::rpgmaker::detect_project(
            source.root.as_str(),
            probe.www_data_is_dir,
            probe.data_is_dir,
            &probe.system,
        ) {
            Ok(p) => p,
            Err(e) => {
                return Err(map_engine_error(e));
            },
        };
        match crate::rpgmaker::extract_project(&project, listing) {
            Ok(segments) => Ok(segments),
            Err(e) => Err(map_engine_error(e)),
        }
    }
}

impl ContentSourceAdapter for RenPyContentAdapter {
    type Probe = RenPyProbe;
    type Files = RenPyFiles;

    fn format_id(&self) -> (r: &'static str)
        ensures
            r@ == "game.renpy"@,
    {
        "game.renpy"
    }

    fn category(&self) -> (r: ContentCategory)
        ensures
            r == ContentCategory::Game,
    {
        ContentCategory::Game
    }

    fn output_capabilities(&self) -> (r: Vec<OutputCapability>)
        ensures
            r@ == seq![
                OutputCapability::Export,
                OutputCapability::Install,
                OutputCapability::Uninstall,
            ],
    {
        let mut v = Vec::new();
        v.push(OutputCapability::Export);
        v.push(OutputCapability::Install);
        v.push(OutputCapability::Uninstall);
        v
    }

    fn detect(&self, root: &str, probe: &RenPyProbe) -> (r: Result<ContentSource, ContentError>)
        ensures
            source_result(r) == renpy_source(root@, *probe),
    {
        proof {
            reveal_strlit("game.renpy");
            reveal_strlit("Ren'Py project");
            reveal_strlit("renpy");
        }
        let project = match crate::renpy::detect_project(
            root,
            probe.renpy_is_dir,
            probe.game_is_dir,
            &probe.listing,
        ) {
            Ok(p) => p,
            Err(e) => {
                return Err(map_engine_error(e));
            },
        };
        Ok(
            ContentSource {
                root: project.root,
                format_id: "game.renpy",
                display_name: owned("Ren'Py project"),
                source_id: owned("renpy"),
            },
        )
    }

    fn extract(&self, source: &ContentSource, files: RenPyFiles) -> (r: Result<
        Vec<Segment>,
        ContentError,
    >)
        ensures
            renpy_extracted(source.root@, files, segments_result(r)),
    {
        let RenPyFiles { probe, templates } = files;
        let project = match crate::renpy::detect_project(
            source.root.as_str(),
            probe.renpy_is_dir,
            probe.game_is_dir,
            &probe.listing,
        ) {
            Ok(p) => p,
            Err(e) => {
                return Err(map_engine_error(e));
            },
        };
        match RenPyAdapter.extract(&project, templates) {
            Ok(segments) => Ok(segments),
            Err(e) => Err(map_engine_error(e)),
        }
    }
}

impl EngineAdapter for RenPyAdapter {
    type Probe = RenPyProbe;
    type Files = RenPyTemplates;

    fn detect(&self, root: &str, probe: &RenPyProbe) -> (r: Result<DetectedProject, EngineError>)
        ensures
            match (r, renpy_detect(
                root@,
                probe.renpy_is_dir,
                probe.game_is_dir,
                listing_model(probe.listing),
            )) {
                (Ok(p), Ok(game)) => p.root@ == root@ && p.data_dir@ == game && p.engine
                    == EngineKind::RenPy,
                (Err(e), Err(f)) => e@ == f,
                _ => false,
            },
    {
        crate::renpy::detect_project(root, probe.renpy_is_dir, probe.game_is_dir, &probe.listing)
    }

    fn extract(&self, project: &DetectedProject, files: RenPyTemplates) -> (r: Result<
        Vec<Segment>,
        EngineError,
    >)
        ensures
            templates_extracted(files, engine_result(r)),
    {
        let RenPyTemplates { template_root, source_file, templates } = files;
        let r = crate::renpy::extract_project(
            project,
            template_root.as_str(),
            source_file.as_str(),
            templates,
        );
        r
    }
}

/// What an adapter registry looks at to recognise a source.
pub struct ContentProbes {
    pub rpgmaker: RpgMakerProbe,
    pub renpy: RenPyProbe,
    pub rimworld: FileRead,
}

/// What a registry reads to extract a source of one format.
pub enum ContentFiles {
    RpgMaker(RpgMakerFiles),
    RenPy(RenPyFiles),
    RimWorld(RimWorldListing),
}

/// The formats that the registry knows.
pub open spec fn known_formats() -> Seq<Seq<char>> {
    seq!["game.rpgmaker.mv"@, "game.rpgmaker.mz"@, "game.renpy"@, "game.rimworld.mod"@]
}

/// The source that the first adapter to accept `root` recognises: RPG Maker,
/// then Ren'Py, then RimWorld; otherwise the source is unsupported.
pub open spec fn registry_source(root: Seq<char>, probes: ContentProbes) -> Result<SourceModel, Fault> {
    match rpg_source(root, probes.rpgmaker) {
        Ok(s) => Ok(s),
        Err(_) => match renpy_source(root, probes.renpy) {
            Ok(s) => Ok(s),
            Err(_) => match rimworld_source(root, probes.rimworld@) {
                Ok(s) => Ok(s),
                Err(_) => Err(Fault::Unsupported),
            },
        },
    }
}

/// What extracting a source through the registry gives.
pub open spec fn registry_extracted(
    source: ContentSource,
    files: ContentFiles,
    result: Result<Seq<SegmentModel>, Fault>,
) -> bool {
    let format = source.format_id@;
    if format == "game.rpgmaker.mv"@ || format == "game.rpgmaker.mz"@ {
        match files {
            ContentFiles::RpgMaker(f) => rpg_extracted(source.root@, f, result),
            _ => result == Err::<Seq<SegmentModel>, Fault>(Fault::Unsupported),
        }
    } else if format == "game.renpy"@ {
        match files {
            ContentFiles::RenPy(f) => renpy_extracted(source.root@, f, result),
            _ => result == Err::<Seq<SegmentModel>, Fault>(Fault::Unsupported),
        }
    } else if format == "game.rimworld.mod"@ {
        match files {
            ContentFiles::RimWorld(f) => rimworld_extracted(source.root@, f, result),
            _ => result == Err::<Seq<SegmentModel>, Fault>(Fault::Unsupported),
        }
    } else {
        result == Err::<Seq<SegmentModel>, Fault>(Fault::Unsupported)
    }
}

/// The registry of the content formats that the application supports.
pub struct AdapterRegistry;

impl Default for AdapterRegistry {
    fn default() -> (r: AdapterRegistry) {
        AdapterRegistry
    }
}

impl AdapterRegistry {
    /// The formats that the registry knows, in order.
    pub fn format_ids(&self) -> (r: [&'static str; 4])
        ensures
            forall|i: int| 0 <= i < 4 ==> (#[trigger] r@[i])@ == known_formats()[i],
    {
        ["game.rpgmaker.mv", "game.rpgmaker.mz", "game.renpy", "game.rimworld.mod"]
    }

    /// The source that the first adapter to accept `root` recognises.
    pub fn detect(&self, root: &str, probes: &ContentProbes) -> (r: Result<ContentSource, ContentError>)
        ensures
            source_result(r) == registry_source(root@, *probes),
    {
        if let Ok(s) = RpgMakerContentAdapter.detect(root, &probes.rpgmaker) {
            return Ok(s);
        }
        if let Ok(s) = RenPyContentAdapter.detect(root, &probes.renpy) {
            return Ok(s);
        }
        if let Ok(s) = RimWorldModContentAdapter.detect(root, &probes.rimworld) {
            return Ok(s);
        }
        Err(ContentError::UnsupportedSource)
    }

    /// The segments of a source, read by the adapter of its format.
    pub fn extract(&self, source: &ContentSource, files: ContentFiles) -> (r: Result<
        Vec<Segment>,
        ContentError,
    >)
        ensures
            registry_extracted(*source, files, segments_result(r)),
    {
        proof {
            reveal_strlit("game.rpgmaker.mv");
            reveal_strlit("game.rpgmaker.mz");
            reveal_strlit("game.renpy");
            reveal_strlit("game.rimworld.mod");
        }
        let format = source.format_id;
        if str_equal(format, "game.rpgmaker.mv") || str_equal(format, "game.rpgmaker.mz") {
            match files {
                ContentFiles::RpgMaker(f) => RpgMakerContentAdapter.extract(source, f),
                _ => Err(ContentError::UnsupportedSource),
            }
        } else if str_equal(format, "game.renpy") {
            match files {
                ContentFiles::RenPy(f) => RenPyContentAdapter.extract(source, f),
                _ => Err(ContentError::UnsupportedSource),
            }
        } else if str_equal(format, "game.rimworld.mod") {
            match files {
                ContentFiles::RimWorld(f) => RimWorldModContentAdapter.extract(source, f),
                _ => Err(ContentError::UnsupportedSource),
            }
        } else {
            Err(ContentError::UnsupportedSource)
        }
    }

    /// Writes standalone output for a source; only RimWorld mods have an output
    /// adapter.
    pub fn export(
        &self,
        source: &ContentSource,
        translations: &TranslationTable,
        output_root: &str,
        target_language: &str,
        files: RimWorldListing,
    ) -> (r: Result<ExportResult, ContentError>)
        ensures
            source.format_id@ != "game.rimworld.mod"@ ==> export_model(r) == Err::<
                Seq<(Seq<char>, Seq<char>)>,
                Fault,
            >(Fault::Unsupported),
            source.format_id@ == "game.rimworld.mod"@ ==> pack_exported(
                source.format_id@,
                source.root@,
                output_root@,
                target_language@,
                translations.model(),
                files,
                export_model(r),
            ),
    {
        proof {
            reveal_strlit("game.rimworld.mod");
        }
        if str_equal(source.format_id, "game.rimworld.mod") {
            let request = ExportRequest { source, translations, output_root, target_language };
            RimWorldLanguagePackOutputAdapter.export(&request, files)
        } else {
            Err(ContentError::UnsupportedSource)
        }
    }
}

/// Recognises a registered content source without modifying its files.
pub fn detect_content(root: &str, probes: &ContentProbes) -> (r: Result<ContentSource, ContentError>)
    ensures
        source_result(r) == registry_source(root@, *probes),
{
    AdapterRegistry.detect(root, probes)
}

/// Extracts the segments of a source with the adapter of its format.
pub fn extract_content(source: &ContentSource, files: ContentFiles) -> (r: Result<
    Vec<Segment>,
    ContentError,
>)
    ensures
        registry_extracted(*source, files, segments_result(r)),
{
    AdapterRegistry.extract(source, files)
}

/// Exports a source through the output adapter of its format.
pub fn export_content(
    source: &ContentSource,
    translations: &TranslationTable,
    output_root: &str,
    target_language: &str,
    files: RimWorldListing,
) -> (r: Result<ExportResult, ContentError>)
    ensures
        source.format_id@ != "game.rimworld.mod"@ ==> export_model(r) == Err::<
            Seq<(Seq<char>, Seq<char>)>,
            Fault,
        >(Fault::Unsupported),
        source.format_id@ == "game.rimworld.mod"@ ==> pack_exported(
            source.format_id@,
            source.root@,
            output_root@,
            target_language@,
            translations.model(),
            files,
            export_model(r),
        ),
{
    AdapterRegistry.export(source, translations, output_root, target_language, files)
}

/// The display name of a game engine.
pub fn engine_name(engine: EngineKind) -> (r: &'static str)
    ensures
        r@ == match engine {
            EngineKind::RpgMakerMv => "RPG Maker MV"@,
            EngineKind::RpgMakerMz => "RPG Maker MZ"@,
            EngineKind::RenPy => "Ren'Py"@,
        },
{
    match engine {
        EngineKind::RpgMakerMv => "RPG Maker MV",
        EngineKind::RpgMakerMz => "RPG Maker MZ",
        EngineKind::RenPy => "Ren'Py",
    }
}


/// Recognises a game with the registered engines, RPG Maker first, then
/// Ren'Py; refused when neither recognises it.
pub fn detect_game(root: &str, probes: &ContentProbes) -> (r: Result<DetectedProject, EngineError>)
    ensures
        match rpg_detect(
            root@,
            probes.rpgmaker.www_data_is_dir,
            probes.rpgmaker.data_is_dir,
            probes.rpgmaker.system@,
        ) {
            Ok((engine, data_dir)) => r matches Ok(p) && p.root@ == root@ && p.data_dir@ == data_dir
                && p.engine == engine,
            Err(_) => match renpy_detect(
                root@,
                probes.renpy.renpy_is_dir,
                probes.renpy.game_is_dir,
                listing_model(probes.renpy.listing),
            ) {
                Ok(game) => r matches Ok(p) && p.root@ == root@ && p.data_dir@ == game && p.engine
                    == EngineKind::RenPy,
                Err(_) => r == Err::<DetectedProject, EngineError>(EngineError::UnsupportedProject),
            },
        },
{
    let p = &probes.rpgmaker;
    match crate::rpgmaker::detect_project(root, p.www_data_is_dir, p.data_is_dir, &p.system) {
        Ok(project) => Ok(project),
        Err(_) => {
            let q = &probes.renpy;
            match crate::renpy::detect_project(root, q.renpy_is_dir, q.game_is_dir, &q.listing) {
                Ok(project) => Ok(project),
                Err(_) => Err(EngineError::UnsupportedProject),
            }
        },
    }
}

/// What extracting a detected game reads: the listing of its RPG Maker data
/// directory, or the templates generated for its Ren'Py distribution.
pub enum GameFiles {
    RpgMaker(Result<Vec<DataFile>, String>),
    RenPy(RenPyTemplates),
}

/// Whether `files` is what extracting a game of this engine reads: the RPG
/// Maker data listing for either RPG Maker, the Ren'Py templates for Ren'Py.
pub open spec fn game_files_for(engine: EngineKind, files: GameFiles) -> bool {
    match files {
        GameFiles::RpgMaker(_) => engine != EngineKind::RenPy,
        GameFiles::RenPy(_) => engine == EngineKind::RenPy,
    }
}

/// What extracting the RPG Maker data directory `data_dir` gives for a
/// listing: the segments of its `.json` files in name order, or the listing's
/// error.
pub open spec fn data_extracted(
    data_dir: Seq<char>,
    listing: Result<Vec<DataFile>, String>,
    result: Result<Seq<SegmentModel>, Fault>,
) -> bool {
    match listing {
        Err(m) => result == Err::<Seq<SegmentModel>, Fault>(Fault::Io(data_dir, m@)),
        Ok(files) => exists|sorted: Seq<DataFile>|
            #![trigger stably_sorted(json_files(files@), sorted), project_segments(data_dir, sorted, 0)]
            stably_sorted(json_files(files@), sorted) && result == project_segments(data_dir, sorted, 0),
    }
}

/// Extracts the segments of a detected game with the adapter of its engine,
/// from the files read for that engine.
pub fn extract_game(project: &DetectedProject, files: GameFiles) -> (r: Result<Vec<Segment>, EngineError>)
    requires
        game_files_for(project.engine, files),
    ensures
        match files {
            GameFiles::RpgMaker(listing) => data_extracted(project.data_dir@, listing, engine_segments(r)),
            GameFiles::RenPy(templates) => templates_extracted(templates, engine_result(r)),
        },
{
    match files {
        GameFiles::RpgMaker(listing) => crate::rpgmaker::extract_project(project, listing),
        GameFiles::RenPy(templates) => RenPyAdapter.extract(project, templates),
    }
}

} // verus!
