use akuna_core::extraction::pdf::{
    classify_pdf_flat_parts, is_pdf_page_number, merge_pdf_parts, pdf_document, pdf_element_text, pdf_page_parts,
    split_pdf_heading_part, split_pdf_heading_parts, PdfElement,
};
use akuna_core::extraction::sources::{
    document_kind, join_chapters, preferred_parser_mime, split_file_name, text_source, DocumentKind,
    TextSource,
};
use akuna_core::extraction::{
    ExtractionMetadata, ExtractionPart, ExtractionPartProvenance, ExtractionTextRange,
};
use akuna_core::text::lines;

fn text_part(index: usize, text: &str) -> ExtractionPart {
    ExtractionPart {
        index,
        kind: "paragraph".to_owned(),
        text: Some(text.to_owned()),
        range: Some(ExtractionTextRange { start: 0, end: text.len() }),
        provenance: Some(ExtractionPartProvenance {
            method: "pdf".to_owned(),
            engines: vec!["pdf_oxide".to_owned()],
            source_id: None,
            page: Some(3),
            line: None,
        }),
        segments: None,
    }
}

fn metadata(mime_type: &str, is_text: bool) -> ExtractionMetadata {
    ExtractionMetadata {
        stem: None,
        extension: None,
        label: "label".to_owned(),
        mime_type: mime_type.to_owned(),
        description: "description".to_owned(),
        is_text,
    }
}

#[test]
fn splits_book_and_chapter_headings_from_body() {
    let out = split_pdf_heading_part(text_part(4, "Book I\nOn Rest\nBody one\nBody two"));
    assert_eq!(out.len(), 2);
    assert_eq!(out[0].kind, "heading");
    assert_eq!(out[0].text.as_deref(), Some("Book I\nOn Rest"));
    assert!(out[0].range.is_none());
    assert_eq!(out[0].provenance.as_ref().map(|p| p.page), Some(Some(3)));
    assert_eq!(out[1].kind, "paragraph");
    assert_eq!(out[1].text.as_deref(), Some("Body one\nBody two"));
    assert!(out[1].range.is_none());
    assert_eq!(out[0].index, 4);
    assert_eq!(out[1].index, 4);
}

#[test]
fn keeps_parts_without_a_heading_or_without_a_body() {
    let plain = split_pdf_heading_part(text_part(0, "Just text\nOn the next line"));
    assert_eq!(plain.len(), 1);
    assert_eq!(plain[0].text.as_deref(), Some("Just text\nOn the next line"));
    assert!(plain[0].range.is_some());

    let heading_only = split_pdf_heading_part(text_part(0, "On Anger"));
    assert_eq!(heading_only.len(), 1);
    assert_eq!(heading_only[0].kind, "paragraph");

    let single = split_pdf_heading_part(text_part(0, "On Anger\nBody"));
    assert_eq!(single.len(), 2);
    assert_eq!(single[0].text.as_deref(), Some("On Anger"));
    assert_eq!(single[1].text.as_deref(), Some("Body"));
}

#[test]
fn renumbers_split_parts_in_order() {
    let out = split_pdf_heading_parts(vec![
        text_part(0, "Book II\nOn Duty\nFirst body"),
        text_part(1, "12"),
        text_part(2, "On Fate\nSecond body"),
    ]);
    let texts: Vec<_> = out.iter().map(|part| part.text.clone().unwrap()).collect();
    assert_eq!(texts, vec!["Book II\nOn Duty", "First body", "12", "On Fate", "Second body"]);
    let indexes: Vec<_> = out.iter().map(|part| part.index).collect();
    assert_eq!(indexes, vec![0, 1, 2, 3, 4]);
    assert_eq!(out[2].kind, "paragraph");
}

#[test]
fn marks_page_numbers_as_footers() {
    assert!(is_pdf_page_number(&text_part(0, "42")));
    assert!(is_pdf_page_number(&text_part(0, "")));
    assert!(!is_pdf_page_number(&text_part(0, "4 2")));
    assert!(!is_pdf_page_number(&text_part(0, "٣")));
    let mut untitled = text_part(0, "1");
    untitled.text = None;
    assert!(!is_pdf_page_number(&untitled));

    let parts = classify_pdf_flat_parts(vec![text_part(0, "Body"), text_part(1, "7")]);
    assert_eq!(parts[0].kind, "paragraph");
    assert_eq!(parts[1].kind, "footer");
    assert_eq!(parts[1].text.as_deref(), Some("7"));
}

#[test]
fn lines_drop_line_endings_and_a_final_empty_line() {
    assert_eq!(lines("a\r\nb\n\nc\n"), vec!["a", "b", "", "c"]);
    assert_eq!(lines(""), Vec::<&str>::new());
    assert_eq!(lines("x\r"), vec!["x\r"]);
}

#[test]
fn selects_document_extractor_by_mime_type() {
    assert_eq!(document_kind("application/pdf"), DocumentKind::Pdf);
    assert_eq!(document_kind("application/msword"), DocumentKind::Office);
    assert_eq!(
        document_kind("application/vnd.openxmlformats-officedocument.wordprocessingml.document"),
        DocumentKind::Office
    );
    assert_eq!(document_kind("text/plain"), DocumentKind::Text);
}

#[test]
fn selects_text_source_by_mime_type() {
    assert_eq!(text_source(&metadata("application/zip", false)), TextSource::Unsupported);
    assert_eq!(text_source(&metadata("application/epub+zip", false)), TextSource::Epub);
    assert_eq!(text_source(&metadata("text/markdown", true)), TextSource::Structured);
    assert_eq!(text_source(&metadata("text/x-rust", true)), TextSource::Generic);
    assert_eq!(text_source(&metadata("image/png", false)), TextSource::Unsupported);
}

#[test]
fn picks_parser_mime_hint() {
    assert_eq!(preferred_parser_mime(&metadata("text/rtf", true), false), "application/rtf");
    assert_eq!(preferred_parser_mime(&metadata("text/csv", true), true), "text/csv");
    assert_eq!(preferred_parser_mime(&metadata("text/x-go", true), false), "text/plain");
    assert_eq!(preferred_parser_mime(&metadata("image/png", false), false), "image/png");
}

#[test]
fn joins_non_blank_chapters() {
    let chapters = vec![" One ".to_owned(), "  \n".to_owned(), "Two\n".to_owned()];
    assert_eq!(join_chapters(&chapters), "One\n\nTwo");
    assert_eq!(join_chapters(&Vec::new()), "");
}

#[test]
fn splits_file_names_like_paths() {
    assert_eq!(split_file_name("notes.tar.gz"), ("notes.tar".to_owned(), Some("gz".to_owned())));
    assert_eq!(split_file_name(".bashrc"), (".bashrc".to_owned(), None));
    assert_eq!(split_file_name("README"), ("README".to_owned(), None));
    assert_eq!(split_file_name("trailing."), ("trailing".to_owned(), Some(String::new())));
}

#[test]
fn pdf_elements_become_parts_page_by_page() {
    let table = PdfElement::Table(vec![
        vec!["a".to_owned(), "b".to_owned()],
        vec!["c".to_owned(), "d".to_owned()],
    ]);
    assert_eq!(pdf_element_text(&table), ("table".to_owned(), "a\tb\nc\td".to_owned()));
    let list = PdfElement::List(vec!["one".to_owned(), "two".to_owned()]);
    assert_eq!(pdf_element_text(&list), ("list_item".to_owned(), "one\ntwo".to_owned()));

    let parts = pdf_page_parts(vec![
        vec![PdfElement::Header(" Title ".to_owned()), PdfElement::Paragraph("   ".to_owned())],
        vec![],
        vec![PdfElement::Paragraph("Body text.\n".to_owned()), table],
    ]);
    let summary: Vec<_> = parts
        .iter()
        .map(|part| {
            let provenance = part.provenance.as_ref().unwrap();
            (part.index, part.kind.clone(), part.text.clone().unwrap(), provenance.page)
        })
        .collect();
    assert_eq!(
        summary,
        vec![
            (0, "heading".to_owned(), "Title".to_owned(), Some(1)),
            (1, "paragraph".to_owned(), "Body text.".to_owned(), Some(3)),
            (2, "table".to_owned(), "a\tb\nc\td".to_owned(), Some(3)),
        ]
    );
    let provenance = parts[0].provenance.as_ref().unwrap();
    assert_eq!(provenance.method, "structured_pdf");
    assert_eq!(provenance.engines, vec!["pdf_oxide".to_owned()]);
    assert!(parts.iter().all(|part| part.range.is_none() && part.segments.is_none()));

    let document = pdf_document(parts, "whole".to_owned());
    assert_eq!(document.canonical_text.as_deref(), Some("Title\n\nBody text.\n\na\tb\nc\td"));
    assert_eq!(document.parts.len(), 3);

    let single = pdf_document(vec![text_part(0, "only")], "whole text".to_owned());
    assert!(single.canonical_text.is_none());
    assert_eq!(single.parts.len(), 1);
    assert_eq!(single.parts[0].text.as_deref(), Some("whole text"));
    assert_eq!(single.parts[0].kind, "text");
}

#[test]
fn merging_pdf_parts_joins_text_and_extends_range() {
    let mut target = text_part(2, "first");
    target.range = Some(ExtractionTextRange { start: 3, end: 8 });
    let mut source = text_part(5, "second");
    source.range = Some(ExtractionTextRange { start: 9, end: 15 });
    merge_pdf_parts(&mut target, source, " ");
    assert_eq!(target.text.as_deref(), Some("first second"));
    assert_eq!(target.range.map(|r| (r.start, r.end)), Some((3, 15)));
    assert_eq!(target.index, 2);

    let mut untitled = text_part(0, "x");
    untitled.text = None;
    untitled.range = None;
    merge_pdf_parts(&mut untitled, text_part(1, "y"), "\n");
    assert!(untitled.text.is_none());
    assert!(untitled.range.is_none());
}
