use forge_e2e::engine::SpreadsheetEngine;
use forge_e2e::engine::csv_file_name;

#[test]
fn engine_name_is_constant() {
    assert_eq!(SpreadsheetEngine::name(), "Gnumeric (ssconvert)");
}

#[test]
fn engine_holds_its_identity() {
    let e = SpreadsheetEngine::new("ssconvert".to_string(), "1.12.57".to_string());
    assert_eq!(e.path(), "ssconvert");
    assert_eq!(e.version(), "1.12.57");
}

#[test]
fn csv_file_name_appends_extension() {
    assert_eq!(csv_file_name("batch"), "batch.csv");
    assert_eq!(csv_file_name("test"), "test.csv");
}
