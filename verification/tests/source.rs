use std::ops::Range;

use testl::source::{LineCol, Source, SourceSpan, SourceStore, BUILTINS_SOURCE_ID};
use testl::span::{SourceIDSpan, SourceIDSpanWithStore};

#[test]
fn gets_newlines_correctly() {
    let source = Source::new("testfile", "\n\n\nmain(){}\n\nthing(){}\n\n\n");
    assert_eq!(source.linebreaks.as_slice(), [0, 1, 2, 11, 12, 22, 23, 24]);
}

#[test]
fn calculates_line_and_col_correctly() {
    let source = Source::new("testfile1", "\n\n\nmain(){}\n\nthing(){}\n\n\n");
    assert_eq!(source.map_offset(15), LineCol { line: 6, col: 3 });

    let source = Source::new("testfile2", "\n\n\nmain(){}\n\n;\n;thing(){}\n\n\n");
    assert_eq!(source.map_offset(18), LineCol { line: 7, col: 4 });
}

#[test]
fn handles_first_line() {
    let source = Source::new("testfile1", "01234567\n\nthing(){}\n\n\n");
    assert_eq!(source.map_offset(2), LineCol { line: 1, col: 3 });
}

#[test]
fn handles_last_line() {
    let source = Source::new("testfile1", "012345\n\n89A\n\n\nEFG");
    assert_eq!(source.map_offset(15), LineCol { line: 6, col: 2 });
}

#[test]
fn handles_offsets_past_end() {
    let source = Source::new("testfile1", "012345\n\n89A\n\n\nEFG");
    assert_eq!(source.map_offset(115), LineCol { line: 6, col: 102 });
}

#[test]
fn source_handles_empty_source() {
    let source = Source::new("testfile1", "");
    assert_eq!(source.map_offset(115), LineCol { line: 1, col: 116 });
}

#[test]
fn source_calculates_line_and_col_correctly() {
    let mut sources = SourceStore::new();
    let source_id = sources.add_source("testfile", "\n\n\n3456789A\n\nDEFGHIJKL\n\n\n");
    let source_location = sources.map_offset(source_id, 15).unwrap();
    assert_eq!(source_location.line, 6);
    assert_eq!(source_location.col, 3);
    assert_eq!(source_location.source.filename, "testfile");
}

#[test]
fn handles_multiple_files() {
    let mut sources = SourceStore::new();
    let source1_id = sources.add_source("testfile1", "\n\n\n3456789A\n\nDEFGHIJKL\n\n\n");
    let source2_id = sources.add_source("testfile2", "012345\n\n\n");
    let source3_id = sources.add_source("testfile3", "0\n2\n456789ABC\n\n\n");

    let source_location = sources.map_offset(source2_id, 3).unwrap();
    assert_eq!(source_location.line, 1);
    assert_eq!(source_location.col, 4);
    assert_eq!(source_location.source.filename, "testfile2");

    let source_location = sources.map_offset(source3_id, 3).unwrap();
    assert_eq!(source_location.line, 2);
    assert_eq!(source_location.col, 2);
    assert_eq!(source_location.source.filename, "testfile3");

    let source_location = sources.map_offset(source1_id, 3).unwrap();
    assert_eq!(source_location.line, 4);
    assert_eq!(source_location.col, 1);
    assert_eq!(source_location.source.filename, "testfile1");
}

#[test]
fn handles_no_files() {
    let sources = SourceStore::new();
    assert_eq!(sources.map_offset(0, 3), None);
}

#[test]
fn maps_line_and_col_correctly() {
    let mut sources = SourceStore::new();
    let source_id = sources.add_source("testfile", "0\n2\n456789ABC\n\n\n");
    let span = SourceIDSpan::new(source_id, Range { start: 2, end: 6 });

    let SourceSpan { source, start_line, start_col, end_line, end_col } = sources.map_span(&span);

    assert_eq!(source.filename, "testfile");
    assert_eq!(start_line, 2);
    assert_eq!(start_col, 1);
    assert_eq!(end_line, 3);
    assert_eq!(end_col, 3);
}

#[test]
fn first_char_formatted_correctly() {
    let mut sources = SourceStore::new();
    let source_id = sources.add_source("testfile1", "01234567\n\nthing(){}\n\n\n");
    let location = sources.map_offset(source_id, 0).unwrap();
    assert_eq!(location.to_string(), "testfile1: 1:1")
}

#[test]
fn end_of_line_formatted_correctly() {
    let mut sources = SourceStore::new();
    let source_id = sources.add_source("testfile1", "01234567\n\nthing(){}\n\n\n");
    let location = sources.map_offset(source_id, 8).unwrap();
    assert_eq!(location.to_string(), "testfile1: 1:9")
}

#[test]
fn formatted_correctly() {
    let mut sources = SourceStore::new();
    let source_id = sources.add_source("testfile1", "01234567\n\nABCDEFGHI\n\n\n");
    let location = sources.map_offset(source_id, 11).unwrap();
    assert_eq!(location.to_string(), "testfile1: 3:2")
}

#[test]
fn source_first_char_formatted_correctly() {
    let mut sources = SourceStore::new();
    let source_id = sources.add_source("testfile1", "01234567\n\nABCDEFGHI\n\n\n");
    let span = SourceIDSpan::new(source_id, Range { start: 2, end: 15 });

    let source_span = sources.map_span(&span);
    assert_eq!(source_span.to_string(), "testfile1: 1:3-3:6")
}

// The cases below are not from the original test suite.

#[test]
fn added_sources_get_ids_in_order_and_the_builtins_keep_theirs() {
    let mut sources = SourceStore::new();
    assert_eq!(sources.add_source("a", "x"), 1);
    assert_eq!(sources.add_source("b", "y"), 2);
    assert_eq!(sources.get_filename(1).unwrap(), "a");
    assert_eq!(sources.get_filename(2).unwrap(), "b");
    assert_eq!(BUILTINS_SOURCE_ID, 0);
    assert_eq!(sources.get_filename(BUILTINS_SOURCE_ID).unwrap(), "!BUILTINS!");
    assert_eq!(sources.get_filename(3), None);
    assert!(sources.get_source(BUILTINS_SOURCE_ID).is_some());
    // The built-in source has no text: no offset in it maps.
    assert_eq!(sources.map_offset(BUILTINS_SOURCE_ID, 0), None);
}

#[test]
fn newline_byte_belongs_to_the_line_it_ends() {
    // The column of a line break is counted from the previous one.
    let source = Source::new("f", "ab\ncd\n");
    assert_eq!(source.map_offset(0), LineCol { line: 1, col: 1 });
    assert_eq!(source.map_offset(2), LineCol { line: 1, col: 3 });
    assert_eq!(source.map_offset(3), LineCol { line: 2, col: 1 });
    assert_eq!(source.map_offset(5), LineCol { line: 2, col: 3 });
    assert_eq!(source.map_offset(6), LineCol { line: 3, col: 1 });
}

#[test]
fn start_and_end_of_a_span_map_separately() {
    let mut sources = SourceStore::new();
    let id = sources.add_source("f", "ab\ncd\n");
    let span = SourceIDSpan::new(id, Range { start: 1, end: 4 });
    assert_eq!(sources.map_start(&span).to_string(), "f: 1:2");
    assert_eq!(sources.map_end(&span).to_string(), "f: 2:2");
    let mapped = sources.map_span(&span);
    assert_eq!(mapped.get_start().to_string(), "f: 1:2");
    assert_eq!(mapped.get_end().to_string(), "f: 2:2");
    let with_store = SourceIDSpanWithStore { span, sources: &sources };
    assert_eq!(with_store.source_span().to_string(), "f: 1:2-2:2");
}

#[test]
fn union_covers_both_spans() {
    let a = SourceIDSpan::new(4, Range { start: 3, end: 5 });
    let b = SourceIDSpan::new(4, Range { start: 1, end: 4 });
    assert_eq!(a.union(b), SourceIDSpan { context: 4, start: 1, end: 5 });
    assert_eq!(b.union(a), SourceIDSpan { context: 4, start: 1, end: 5 });
    assert_eq!(a.union(a), a);
}

#[test]
fn lines_and_columns_grow_with_the_offset() {
    let source = Source::new("f", "a\n\nbc\nd");
    let mut previous = source.map_offset(0);
    for offset in 1..8 {
        let next = source.map_offset(offset);
        assert!(
            previous.line < next.line || (previous.line == next.line && previous.col < next.col),
            "{:?} then {:?}",
            previous,
            next
        );
        previous = next;
    }
}
