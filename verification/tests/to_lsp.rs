use kcl_to_lsp::diag::DiagnosticId;
use kcl_to_lsp::diag::KclDiagnostic;
use kcl_to_lsp::diag::KclPos;
use kcl_to_lsp::diag::Level;
use kcl_to_lsp::diag::Message;
use kcl_to_lsp::protocol::DiagnosticSeverity;
use kcl_to_lsp::protocol::NumberOrString;
use kcl_to_lsp::protocol::Position;
use kcl_to_lsp::protocol::ReplacementData;
use kcl_to_lsp::to_lsp::kcl_diag_id_to_lsp_diag_code;
use kcl_to_lsp::to_lsp::kcl_diag_to_lsp_diags;
use kcl_to_lsp::to_lsp::kcl_diag_to_lsp_diags_by_file;
use kcl_to_lsp::to_lsp::kcl_err_level_to_severity;
use kcl_to_lsp::to_lsp::kcl_msg_to_lsp_diags;
use kcl_to_lsp::to_lsp::lsp_location;
use kcl_to_lsp::to_lsp::lsp_pos;

fn pos(file: &str, line: u64, column: Option<u64>) -> KclPos {
    KclPos { filename: file.to_string(), line, column }
}

fn msg(file: &str, text: &str, suggested: Option<Vec<&str>>) -> Message {
    Message {
        range: (pos(file, 1, Some(0)), pos(file, 1, Some(4))),
        message: text.to_string(),
        suggested_replacement: suggested.map(|v| v.iter().map(|s| s.to_string()).collect()),
    }
}

#[test]
fn position_line_is_shifted_down() {
    let p = lsp_pos(&pos("/a.k", 5, Some(3)));
    assert_eq!(p, Position { line: 4, character: 3 });
}

#[test]
fn position_zero_line_clamps() {
    let p = lsp_pos(&pos("/a.k", 0, Some(7)));
    assert_eq!(p, Position { line: 0, character: 7 });
}

#[test]
fn position_missing_column_defaults() {
    let p = lsp_pos(&pos("/a.k", 2, None));
    assert_eq!(p, Position { line: 1, character: 0 });
}

#[test]
fn position_huge_line_truncates_like_cast() {
    let p = lsp_pos(&pos("/a.k", u64::MAX, None));
    assert_eq!(p.line, (u64::MAX - 1) as u32);
}

#[test]
fn suggested_replacement_empty_list_yields_bare_string() {
    let d = kcl_msg_to_lsp_diags(
        &msg("/a.k", "m", Some(vec![])),
        DiagnosticSeverity::Error,
        vec![],
        None,
    );
    assert_eq!(d.data, Some(ReplacementData::Text(String::new())));
}

#[test]
fn grouping_empty_diagnostic_yields_empty_map() {
    let diag = KclDiagnostic { level: Level::Error, messages: vec![], code: None };
    let grouped = kcl_diag_to_lsp_diags(&diag);
    assert_eq!(grouped.len(), 0);
}

#[test]
fn severity_mapping_is_total() {
    assert_eq!(kcl_err_level_to_severity(Level::Error), DiagnosticSeverity::Error);
    assert_eq!(kcl_err_level_to_severity(Level::Warning), DiagnosticSeverity::Warning);
    assert_eq!(kcl_err_level_to_severity(Level::Note), DiagnosticSeverity::Hint);
    assert_eq!(kcl_err_level_to_severity(Level::Suggestions), DiagnosticSeverity::Hint);
}

#[test]
fn code_mapping_uses_kind_names() {
    assert_eq!(
        kcl_diag_id_to_lsp_diag_code(DiagnosticId::Error("CompileError".to_string())),
        NumberOrString::String("CompileError".to_string())
    );
    assert_eq!(
        kcl_diag_id_to_lsp_diag_code(DiagnosticId::Warning("UnusedImport".to_string())),
        NumberOrString::String("UnusedImport".to_string())
    );
    assert_eq!(
        kcl_diag_id_to_lsp_diag_code(DiagnosticId::Suggestions),
        NumberOrString::String("suggestion".to_string())
    );
}

#[test]
fn location_built_for_convertible_path() {
    let loc = lsp_location("/a.k".to_string(), &pos("/a.k", 3, Some(1)), &pos("/a.k", 3, Some(9)))
        .unwrap();
    assert_eq!(loc.uri, "file:///a.k");
    assert_eq!(loc.range.start, Position { line: 2, character: 1 });
    assert_eq!(loc.range.end, Position { line: 2, character: 9 });
}

#[test]
fn location_absent_for_relative_path() {
    let loc = lsp_location("a.k".to_string(), &pos("a.k", 1, None), &pos("a.k", 1, None));
    assert!(loc.is_none());
}

#[test]
fn suggested_replacement_all_empty_yields_bare_string() {
    let d = kcl_msg_to_lsp_diags(
        &msg("/a.k", "m", Some(vec!["", ""])),
        DiagnosticSeverity::Error,
        vec![],
        None,
    );
    assert_eq!(d.data, Some(ReplacementData::Text(String::new())));
}

#[test]
fn suggested_replacement_filters_empty_entries() {
    let d = kcl_msg_to_lsp_diags(
        &msg("/a.k", "m", Some(vec!["", "foo"])),
        DiagnosticSeverity::Error,
        vec![],
        None,
    );
    assert_eq!(d.data, Some(ReplacementData::List(vec!["foo".to_string()])));
}

#[test]
fn no_suggested_replacement_yields_no_data() {
    let d = kcl_msg_to_lsp_diags(&msg("/a.k", "m", None), DiagnosticSeverity::Error, vec![], None);
    assert_eq!(d.data, None);
}

#[test]
fn message_text_and_range_copied() {
    let d = kcl_msg_to_lsp_diags(
        &msg("/a.k", "expected one of", None),
        DiagnosticSeverity::Warning,
        vec![],
        Some(NumberOrString::String("W1".to_string())),
    );
    assert_eq!(d.message, "expected one of");
    assert_eq!(d.severity, Some(DiagnosticSeverity::Warning));
    assert_eq!(d.code, Some(NumberOrString::String("W1".to_string())));
    assert_eq!(d.range.start, Position { line: 0, character: 0 });
    assert!(d.related_information.is_none());
}

#[test]
fn related_information_entries_for_convertible_siblings() {
    let d = kcl_msg_to_lsp_diags(
        &msg("/a.k", "primary", None),
        DiagnosticSeverity::Error,
        vec![msg("/b.k", "see also", None)],
        None,
    );
    let related = d.related_information.unwrap();
    assert_eq!(related.len(), 1);
    assert_eq!(related[0].location.uri, "file:///b.k");
    assert_eq!(related[0].message, "see also");
}

#[test]
fn related_information_skips_unconvertible_sibling() {
    let d = kcl_msg_to_lsp_diags(
        &msg("/a.k", "primary", None),
        DiagnosticSeverity::Error,
        vec![msg("rel.k", "bad path", None), msg("/c.k", "good", None)],
        None,
    );
    let related = d.related_information.unwrap();
    assert_eq!(related.len(), 1);
    assert_eq!(related[0].location.uri, "file:///c.k");
}

#[test]
fn grouping_two_files_preserves_order() {
    let diag = KclDiagnostic {
        level: Level::Error,
        messages: vec![
            msg("/a.k", "first", None),
            msg("/b.k", "second", None),
            msg("/a.k", "third", None),
        ],
        code: Some(DiagnosticId::Error("CompileError".to_string())),
    };
    let grouped = kcl_diag_to_lsp_diags(&diag);
    assert_eq!(grouped.len(), 2);
    let a = grouped.get("/a.k").unwrap();
    assert_eq!(a.len(), 2);
    assert_eq!(a[0].message, "first");
    assert_eq!(a[1].message, "third");
    let b = grouped.get("/b.k").unwrap();
    assert_eq!(b.len(), 1);
    assert_eq!(b[0].message, "second");
    assert!(grouped.get("/c.k").is_none());
    assert_eq!(a[0].severity, Some(DiagnosticSeverity::Error));
    assert_eq!(a[0].code, Some(NumberOrString::String("CompileError".to_string())));
    let first_related = a[0].related_information.as_ref().unwrap();
    assert_eq!(first_related.len(), 2);
    assert_eq!(first_related[0].message, "second");
    assert_eq!(first_related[1].message, "third");
}

#[test]
fn by_file_keeps_only_that_file() {
    let diag = KclDiagnostic {
        level: Level::Warning,
        messages: vec![msg("/a.k", "first", None), msg("/b.k", "second", None)],
        code: None,
    };
    let only_a = kcl_diag_to_lsp_diags_by_file(&diag, "/a.k");
    assert_eq!(only_a.len(), 1);
    assert_eq!(only_a[0].message, "first");
    assert_eq!(only_a[0].code, None);
    let none = kcl_diag_to_lsp_diags_by_file(&diag, "/z.k");
    assert!(none.is_empty());
}

#[test]
fn by_file_comparison_ignores_verbatim_prefix() {
    let diag = KclDiagnostic {
        level: Level::Error,
        messages: vec![msg("\\\\?\\C:\\a.k", "first", None), msg("C:\\b.k", "second", None)],
        code: None,
    };
    let hits = kcl_diag_to_lsp_diags_by_file(&diag, "C:\\a.k");
    assert_eq!(hits.len(), 1);
    assert_eq!(hits[0].message, "first");
}
