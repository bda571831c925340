use hackathon::app::{extension, normalize_output_path, validate_input_file, validate_output_format};
use hackathon::error::{AppError, PathStatus};
use hackathon::formats::csv_tsv::{apply_cell_results, delimiter_for, translation_jobs};
use hackathon::formats::docx::{
    apply_to_paragraph, collect_all, collect_paragraph, collect_translations, distribute,
    paragraph_updates, BodyBlock, ParagraphModel,
};
use hackathon::formats::{format_for, FormatKind};

fn strings(v: &[&str]) -> Vec<String> {
    v.iter().map(|s| s.to_string()).collect()
}

fn para(runs: &[&[Option<&str>]]) -> ParagraphModel {
    ParagraphModel {
        runs: runs
            .iter()
            .map(|r| r.iter().map(|i| i.map(|s| s.to_string())).collect())
            .collect(),
    }
}

#[test]
fn extension_is_lower_cased() {
    assert_eq!(extension("docs/Report.PDF").unwrap(), "pdf");
    assert_eq!(extension("table.tsv").unwrap(), "tsv");
}

#[test]
fn extension_missing_is_invalid_argument() {
    match extension("README") {
        Err(AppError::InvalidArgument { message }) => {
            assert_eq!(message, "file has no extension: README")
        }
        other => panic!("unexpected {:?}", other),
    }
}

#[test]
fn output_format_must_match_input() {
    assert!(validate_output_format("in.csv", "out.CSV").is_ok());
    match validate_output_format("in.csv", "out.tsv") {
        Err(AppError::MismatchedOutputFormat { input_ext, output_ext }) => {
            assert_eq!(input_ext, "csv");
            assert_eq!(output_ext, "tsv");
        }
        other => panic!("unexpected {:?}", other),
    }
    assert!(matches!(
        validate_output_format("in.csv", "out"),
        Err(AppError::InvalidArgument { .. })
    ));
}

#[test]
fn input_file_checks() {
    assert!(matches!(
        validate_input_file("a.csv", PathStatus::Missing),
        Err(AppError::InputNotFound { path }) if path == "a.csv"
    ));
    assert!(matches!(
        validate_input_file("dir", PathStatus::NotAFile),
        Err(AppError::InputNotFile { path }) if path == "dir"
    ));
    assert!(validate_input_file("a.csv", PathStatus::File { size: 1_000_000 }).is_ok());
    assert!(matches!(
        validate_input_file("a.csv", PathStatus::File { size: 1_000_001 }),
        Err(AppError::FileTooLarge { size: 1_000_001, max: 1_000_000 })
    ));
    assert_eq!(normalize_output_path("out/x.pdf"), "out/x.pdf");
}

#[test]
fn format_handlers() {
    assert_eq!(format_for("csv".to_string()).unwrap(), FormatKind::CsvTsv);
    assert_eq!(format_for("tsv".to_string()).unwrap(), FormatKind::CsvTsv);
    assert_eq!(format_for("docx".to_string()).unwrap(), FormatKind::Docx);
    assert_eq!(format_for("pdf".to_string()).unwrap(), FormatKind::Pdf);
    assert!(matches!(
        format_for("txt".to_string()),
        Err(AppError::UnsupportedFormat { ext }) if ext == "txt"
    ));
}

#[test]
fn csv_delimiters() {
    assert_eq!(delimiter_for("data.TSV").unwrap(), b'\t');
    assert_eq!(delimiter_for("data.csv").unwrap(), b',');
    assert!(matches!(delimiter_for("data"), Err(AppError::InvalidArgument { .. })));
}

#[test]
fn csv_jobs_skip_blank_cells() {
    let rows = vec![strings(&["Hello", "  "]), strings(&["", "Good day", "x"])];
    let jobs = translation_jobs(&rows);
    assert_eq!(
        jobs,
        vec![
            (0, 0, "Hello".to_string()),
            (1, 1, "Good day".to_string()),
            (1, 2, "x".to_string())
        ]
    );
}

#[test]
fn csv_results_replace_cells() {
    let rows = vec![strings(&["a", "b"]), strings(&["c"])];
    let results = vec![(1, 0, Ok("C".to_string())), (0, 1, Ok("B".to_string()))];
    let table = apply_cell_results(rows, results).unwrap();
    assert_eq!(table, vec![strings(&["a", "B"]), strings(&["C"])]);
}

#[test]
fn csv_first_failure_wins() {
    let rows = vec![strings(&["a", "b"])];
    let results = vec![
        (0, 0, Ok("A".to_string())),
        (0, 1, Err(AppError::Network { message: "first".to_string() })),
        (0, 0, Err(AppError::Network { message: "second".to_string() })),
    ];
    match apply_cell_results(rows, results) {
        Err(AppError::Network { message }) => assert_eq!(message, "first"),
        other => panic!("unexpected {:?}", other),
    }
}

#[test]
fn docx_paragraph_text_is_read_run_by_run() {
    let p = para(&[&[Some("Hello "), None, Some("big ")], &[None], &[Some("world")]]);
    let r = collect_paragraph(&p);
    assert_eq!(r.text, "Hello big world");
    assert_eq!(r.run_originals, strings(&["Hello big ", "", "world"]));
}

#[test]
fn docx_body_order_includes_table_cells() {
    let body = vec![
        BodyBlock::Paragraph(para(&[&[Some("one")]])),
        BodyBlock::Other,
        BodyBlock::Table(vec![vec![
            Some(vec![para(&[&[Some("two")]]), para(&[&[Some("three")]])]),
            None,
            Some(vec![para(&[&[Some("four")]])]),
        ]]),
        BodyBlock::Paragraph(para(&[])),
    ];
    let texts: Vec<String> = collect_all(&body).into_iter().map(|r| r.text).collect();
    assert_eq!(texts, strings(&["one", "two", "three", "four", ""]));
}

#[test]
fn docx_jobs_skip_blank_paragraphs() {
    let body = vec![
        BodyBlock::Paragraph(para(&[&[Some("  ")]])),
        BodyBlock::Paragraph(para(&[&[Some("Text")]])),
    ];
    let records = collect_all(&body);
    let jobs = hackathon::formats::docx::translation_jobs(&records);
    assert_eq!(jobs, vec![(1, "Text".to_string())]);
}

#[test]
fn docx_distribution_is_proportional() {
    assert_eq!(distribute("abcdef", &strings(&["ab", "c"])), strings(&["abcd", "ef"]));
    assert_eq!(distribute("abcde", &strings(&["a", "b", "c"])), strings(&["ab", "cd", "e"]));
    assert_eq!(distribute("abc", &strings(&["x", "y"])), strings(&["ab", "c"]));
    assert_eq!(distribute("whole", &strings(&["only"])), strings(&["whole"]));
    assert_eq!(distribute("text", &strings(&["", ""])), strings(&["", ""]));
    assert!(distribute("text", &Vec::new()).is_empty());
}

#[test]
fn docx_empty_runs_are_left_alone() {
    let updates = apply_to_paragraph("abcdef", &strings(&["ab", "", "c"]));
    assert_eq!(
        updates,
        vec![Some("abcd".to_string()), None, Some("ef".to_string())]
    );
    assert!(apply_to_paragraph("abc", &Vec::new()).is_empty());
}

#[test]
fn docx_translations_by_paragraph() {
    let results = vec![(2, Ok("B".to_string())), (0, Ok("A".to_string()))];
    let t = collect_translations(3, results).unwrap();
    assert_eq!(t, vec![Some("A".to_string()), None, Some("B".to_string())]);

    let failing = vec![
        (0, Ok("A".to_string())),
        (1, Err(AppError::TranslationFailed { message: "bad".to_string() })),
    ];
    assert!(matches!(
        collect_translations(2, failing),
        Err(AppError::TranslationFailed { message }) if message == "bad"
    ));
}

#[test]
fn docx_updates_follow_the_translations() {
    let body = vec![
        BodyBlock::Paragraph(para(&[&[Some("ab")], &[Some("c")]])),
        BodyBlock::Paragraph(para(&[&[Some("skip me")]])),
        BodyBlock::Paragraph(para(&[&[Some("x")]])),
    ];
    let records = collect_all(&body);
    let translations = vec![Some("abcdef".to_string()), None];
    let updates = paragraph_updates(&records, &translations);
    assert_eq!(
        updates,
        vec![Some(vec![Some("abcd".to_string()), Some("ef".to_string())]), None, None]
    );
}
