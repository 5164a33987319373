use rawssg::error::{Error, RawssgError};
use rawssg::fs::{IoError, IoErrorKind};

#[test]
fn display_for_config_error() {
    let err = Error::Config("invalid YAML".to_string());
    assert_eq!(err.to_string(), "Configuration error: invalid YAML");
}

#[test]
fn display_for_io_error() {
    let io_err = std::io::Error::new(std::io::ErrorKind::NotFound, "file missing");
    let err = Error::Io(io_err.to_string());
    assert_eq!(err.to_string(), "I/O error: file missing");
}

#[test]
fn display_for_metadata_error() {
    let source = std::io::Error::new(std::io::ErrorKind::InvalidData, "bad front matter");
    let err = Error::Metadata {
        path: "content/page.md".to_string(),
        source: source.to_string(),
    };
    assert_eq!(err.to_string(), "Failed to parse metadata in content/page.md");
}

#[test]
fn display_for_render_error() {
    let err = Error::Render("template not found".to_string());
    assert_eq!(err.to_string(), "Template rendering error: template not found");
}

#[test]
fn display_for_processor_error() {
    let err = Error::Processor("custom processor failed".to_string());
    assert_eq!(err.to_string(), "Content processor error: custom processor failed");
}

#[test]
fn display_for_generator_error() {
    let err = Error::Generator("RSS generation failed".to_string());
    assert_eq!(err.to_string(), "Generator error: RSS generation failed");
}

#[test]
fn display_for_path_traversal_error() {
    let err = Error::PathTraversal("../escape".to_string());
    assert_eq!(err.to_string(), "Path traversal attempt detected: ../escape");
}

#[test]
fn display_for_missing_config_error() {
    let err = Error::MissingConfig("base_url".to_string());
    assert_eq!(err.to_string(), "Missing configuration key: base_url");
}

#[test]
fn display_for_generation_error() {
    let err = Error::Generation("output write failed".to_string());
    assert_eq!(err.to_string(), "Site generation error: output write failed");
}

#[test]
fn display_for_not_found_error() {
    let err = Error::NotFound("asset.css".to_string());
    assert_eq!(err.to_string(), "Resource not found: asset.css");
}

#[test]
fn display_for_serialization_error() {
    let err = Error::Serialization("invalid JSON".to_string());
    assert_eq!(err.to_string(), "Serialization error: invalid JSON");
}

#[test]
fn display_for_validation_error() {
    let err = Error::Validation("name too long".to_string());
    assert_eq!(err.to_string(), "Validation error: name too long");
}

#[test]
fn display_for_duplicate_error() {
    let err = Error::Duplicate("duplicate key".to_string());
    assert_eq!(err.to_string(), "Duplicate value: duplicate key");
}

#[test]
fn display_for_invalid_state_error() {
    let err = Error::InvalidState("unexpected null".to_string());
    assert_eq!(err.to_string(), "Invalid state: unexpected null");
}

#[test]
fn display_for_internal_error() {
    let err = Error::Internal("bug in code".to_string());
    assert_eq!(err.to_string(), "Internal error: bug in code");
}

#[test]
fn implements_std_error_trait() {
    let err = Error::Config("test".to_string());
    assert!(err.source_message().is_none());
}

#[test]
fn metadata_source_is_accessible() {
    let source = std::io::Error::other("source err");
    let err = Error::Metadata {
        path: "test.txt".to_string(),
        source: source.to_string(),
    };
    let source_ref = err.source_message();
    assert!(source_ref.is_some(), "source should exist");
    if let Some(source_ref) = source_ref {
        assert_eq!(source_ref, "source err");
    }
}

#[test]
fn io_error_from_conversion() {
    let io_err = IoError { kind: IoErrorKind::PermissionDenied, message: "denied".to_string() };
    let err: Error = io_err.into();
    assert!(matches!(err, Error::Io(_)));
}

#[test]
fn result_alias_works() {
    let res: rawssg::error::Result<()> = Ok(());
    assert!(res.is_ok());
}

#[test]
fn debug_output_contains_variant_name() {
    let err = Error::Generator("boom".to_string());
    let debug_str = format!("{err:?}");
    assert!(debug_str.contains("Generator"));
}

#[test]
fn metadata_error_can_hold_boxed_dyn_error() {
    let source = std::io::Error::other("bad yaml");
    let err = Error::Metadata {
        path: "content/post.md".to_string(),
        source: source.to_string(),
    };
    assert!(err.to_string().contains("content/post.md"));
    let source_ref = err.source_message();
    assert!(source_ref.is_some(), "source should exist");
    if let Some(source_ref) = source_ref {
        assert_eq!(source_ref, "bad yaml");
    }
}

#[test]
fn config_error_message_preserves_input() {
    let samples = ["", "short", "a very long error message with symbols !@#$%^&*()", "line1\nline2"];
    for sample in samples {
        let err = Error::Config(sample.to_string());
        assert_eq!(err.to_string(), format!("Configuration error: {sample}"));
    }
}

#[test]
fn path_traversal_error_message_preserves_input() {
    let samples = ["../", "..\\..\\windows", "/absolute/path", "sub/../../escape"];
    for sample in samples {
        let err = Error::PathTraversal(sample.to_string());
        assert_eq!(err.to_string(), format!("Path traversal attempt detected: {sample}"));
    }
}

#[test]
fn render_error_message_preserves_input() {
    let samples = ["missing variable `title`", "template not found: base.html", "unclosed tag"];
    for sample in samples {
        let err = Error::Render(sample.to_string());
        assert_eq!(err.to_string(), format!("Template rendering error: {sample}"));
    }
}

#[test]
fn site_builder_errors_display_their_messages() {
    assert_eq!(RawssgError::Io("disk full".to_string()).to_string(), "I/O error");
    assert_eq!(
        RawssgError::Config("markdown renderer not set".to_string()).to_string(),
        "Configuration error: markdown renderer not set"
    );
    let fm = RawssgError::Frontmatter {
        path: "content/a.md".to_string(),
        source: "missing opening '---'".to_string(),
    };
    assert_eq!(fm.to_string(), "Failed to parse frontmatter in content/a.md");
    assert_eq!(fm.source_message().as_deref(), Some("missing opening '---'"));
    assert_eq!(
        RawssgError::PathTraversal("x".to_string()).to_string(),
        "Path traversal attempt detected: x"
    );
    assert_eq!(RawssgError::Template("t".to_string()).to_string(), "Template rendering error: t");
    assert_eq!(RawssgError::MissingConfig("k".to_string()).to_string(), "Missing configuration key: k");
    assert_eq!(RawssgError::Markdown("m".to_string()).to_string(), "Markdown processing error: m");
    assert_eq!(RawssgError::SiteGeneration("s".to_string()).to_string(), "Site generation error: s");
    assert_eq!(RawssgError::NotFound("n".to_string()).to_string(), "Resource not found: n");
    assert_eq!(RawssgError::Internal("i".to_string()).to_string(), "Internal error: i");
    let io: RawssgError = IoError { kind: IoErrorKind::Other, message: "boom".to_string() }.into();
    assert_eq!(io.source_message().as_deref(), Some("boom"));
}
