use game_translator::content::{
    ContentCategory, ContentError, ContentSource, ContentSourceAdapter, DetectedProject,
    EngineAdapter, EngineError, OutputCapability, Segment,
};

struct StaticSourceAdapter;

impl ContentSourceAdapter for StaticSourceAdapter {
    type Probe = ();
    type Files = ();

    fn format_id(&self) -> &'static str {
        "test.static"
    }

    fn category(&self) -> ContentCategory {
        ContentCategory::Document
    }

    fn output_capabilities(&self) -> Vec<OutputCapability> {
        vec![OutputCapability::Export]
    }

    fn detect(&self, root: &str, _probe: &()) -> Result<ContentSource, ContentError> {
        Ok(ContentSource {
            root: root.to_string(),
            format_id: self.format_id(),
            display_name: "Static document".to_owned(),
            source_id: "test-static".to_owned(),
        })
    }

    fn extract(&self, _source: &ContentSource, _files: ()) -> Result<Vec<Segment>, ContentError> {
        Ok(Vec::new())
    }
}

#[test]
fn source_adapter_declares_identity_category_and_safe_output_capabilities() {
    let adapter = StaticSourceAdapter;
    let root = "fixture".to_string();

    let source = adapter.detect(&root, &()).expect("source should be detected");

    assert_eq!(adapter.format_id(), "test.static");
    assert_eq!(adapter.category(), ContentCategory::Document);
    assert_eq!(adapter.output_capabilities(), vec![OutputCapability::Export]);
    assert_eq!(source.root, root);
    assert_eq!(source.format_id, "test.static");
}

struct EmptyAdapter;

impl EngineAdapter for EmptyAdapter {
    type Probe = ();
    type Files = ();

    fn detect(&self, _root: &str, _probe: &()) -> Result<DetectedProject, EngineError> {
        Err(EngineError::UnsupportedProject)
    }

    fn extract(&self, _project: &DetectedProject, _files: ()) -> Result<Vec<Segment>, EngineError> {
        Ok(Vec::new())
    }
}

#[test]
fn adapter_contract_uses_explicit_results() {
    let adapter = EmptyAdapter;
    let error = adapter.detect("unsupported", &()).unwrap_err();

    assert_eq!(error, EngineError::UnsupportedProject);
}

#[test]
fn content_errors_read_as_messages() {
    assert_eq!(
        ContentError::UnsupportedSource.describe(),
        "unsupported content source"
    );
    assert_eq!(
        ContentError::MissingRequiredFile("a/b".to_string()).describe(),
        "missing required file: a/b"
    );
    assert_eq!(
        ContentError::InvalidData { path: "x.xml".to_string(), message: "bad".to_string() }
            .describe(),
        "invalid data in x.xml: bad"
    );
    assert_eq!(
        ContentError::Io { path: "x".to_string(), message: "denied".to_string() }.describe(),
        "failed to read x: denied"
    );
    assert_eq!(
        EngineError::UnsupportedProject.describe(),
        "unsupported game project"
    );
}

#[test]
fn paths_join_like_the_platform() {
    assert_eq!(game_translator::content::join("a", "b"), "a/b");
    assert_eq!(game_translator::content::join("a/", "b"), "a/b");
    assert_eq!(game_translator::content::join("", "b"), "b");
}
