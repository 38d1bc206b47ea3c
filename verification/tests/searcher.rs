use search::config::file::{DataSource, File};
use search::searcher::{error_response, HighlightRange, SearchError};
use search::text::decimal_string;

#[test]
fn error_messages() {
    assert_eq!(SearchError::IndexParseError.message(), "Could not parse index file.");
    assert_eq!(
        SearchError::JSONSerializationError.message(),
        "Could not format search results."
    );
    assert_eq!(
        SearchError::VersionParseError("unknown version".to_string()).message(),
        "unknown version"
    );
}

#[test]
fn error_replies() {
    assert_eq!(
        error_response(&SearchError::IndexParseError),
        "{error: 'Could not parse index file.'}"
    );
    assert_eq!(
        error_response(&SearchError::VersionParseError("bad".to_string())),
        "{error: 'bad'}"
    );
}

#[test]
fn highlight_ranges_compare_by_bounds() {
    let a = HighlightRange { beginning: 1, end: 4 };
    assert_eq!(a, HighlightRange { beginning: 1, end: 4 });
    assert_ne!(a, HighlightRange { beginning: 1, end: 5 });
}

#[test]
fn default_file_has_empty_inline_contents() {
    let file = File::default();
    assert!(matches!(file.source, DataSource::Contents(ref s) if s.is_empty()));
    assert!(file.id.is_none());
    assert!(file.fields.is_empty());
}

#[test]
fn decimal_rendering() {
    assert_eq!(decimal_string(0), "0");
    assert_eq!(decimal_string(9), "9");
    assert_eq!(decimal_string(10), "10");
    assert_eq!(decimal_string(u64::MAX), u64::MAX.to_string());
}
