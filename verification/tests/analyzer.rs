use record_analyzer::{
    check_all_qualified, classify, count_char, extract_qualified_values, qualifier_in_record,
    AnalyzeResult, AnalyzerError, PeekResult, RecordsReader, TextFileOptions,
};

fn options(delimiter: char, qualifier: Option<char>) -> TextFileOptions {
    TextFileOptions::new(
        String::from("data.csv"),
        regex::Regex::new(r"^id").unwrap(),
        delimiter,
        qualifier,
    )
    .unwrap()
}

#[test]
fn construction_rejects_qualifier_equal_to_delimiter() {
    let r = TextFileOptions::new(
        String::from("data.csv"),
        regex::Regex::new(r"^id").unwrap(),
        ',',
        Some(','),
    );
    assert!(r.is_err());
}

#[test]
fn construction_derives_patterns() {
    let o = options(',', Some('"'));
    assert_eq!(o.start_pattern, ",\"");
    assert_eq!(o.end_pattern, "\",");
    assert_eq!(o.all_qualified_pattern, "\",\"");
    assert_eq!(o.file_name, "data.csv");
    assert_eq!(o.all_qualified_count, 0);
    assert!(!o.is_all_qualified);
}

#[test]
fn patterns_without_qualifier_use_the_nul_character() {
    let o = options(';', None);
    assert_eq!(o.start_pattern, ";\0");
    assert_eq!(o.end_pattern, "\0;");
    assert_eq!(o.all_qualified_pattern, "\0;\0");
}

#[test]
fn short_record_in_all_qualified_mode_is_not_flagged() {
    // A record shorter than three characters has no inner content to split.
    let mut o = options(',', Some('"'));
    for i in 0..9 {
        o.check_non_escaped_qualifiers(i, &String::from("\"f1\",\"f2\",\"f3\""));
    }
    assert!(o.is_all_qualified);
    let r = o.check_non_escaped_qualifiers(9, &String::from("\""));
    assert!(r.is_empty());
}

#[test]
fn count_char_counts_exactly() {
    let v: Vec<char> = "a,b,,c".chars().collect();
    assert_eq!(count_char(&v, ','), 3);
    assert_eq!(count_char(&v, 'x'), 0);
}

#[test]
fn qualifier_in_record_finds_the_character() {
    assert!(qualifier_in_record(&'"', "a\"b"));
    assert!(!qualifier_in_record(&'"', "a,b"));
}

#[test]
fn check_all_qualified_counts_match() {
    // After stripping the trailing qualifier: "f1","f2","f3 has two commas
    // and two ", " boundaries.
    assert!(check_all_qualified(&',', &'"', "\",\"", "\"f1\",\"f2\",\"f3\""));
    // "x","y,y","z: three commas but only two boundaries.
    assert!(!check_all_qualified(&',', &'"', "\",\"", "\"x\",\"y,y\",\"z\""));
}

#[test]
fn check_all_qualified_method_is_false_without_qualifier() {
    let o = options(',', None);
    assert!(!o.check_all_qualified("\"a\",\"b\""));
    let o2 = options(',', Some('"'));
    assert!(o2.check_all_qualified("\"a\",\"b\""));
}

#[test]
fn extraction_simple_record() {
    // Delimiter `,`, qualifier `"`: one record, three clean fields.
    let fields = extract_qualified_values(&'"', &',', &String::from("\"x\",\"y,y\",\"z\""));
    assert_eq!(fields, vec!["x", "y,y", "z"]);
}

#[test]
fn no_anomalies_in_clean_record() {
    let mut o = options(',', Some('"'));
    let r = o.check_non_escaped_qualifiers(0, &String::from("\"x\",\"y,y\",\"z\""));
    assert!(r.is_empty());
}

#[test]
fn lone_qualifier_inside_field_is_flagged() {
    // The field y"z holds a `"` adjacent to no other qualifier.
    let mut o = options(',', Some('"'));
    let r = o.check_non_escaped_qualifiers(0, &String::from("\"x\",\"y\"z\",\"w\""));
    assert_eq!(r, vec!["y\"z"]);
}

#[test]
fn anomalies_come_longest_first() {
    let mut o = options(',', Some('"'));
    let r = o.check_non_escaped_qualifiers(0, &String::from("\"ab\"c\",\"d\"e\""));
    assert_eq!(r, vec!["ab\"c", "d\"e"]);
}

#[test]
fn no_qualifier_means_no_anomalies() {
    // With no qualifier configured the analyzer never flags anything.
    let mut o = options(',', None);
    let r = o.check_non_escaped_qualifiers(0, &String::from("\"a\",b\"\"c"));
    assert!(r.is_empty());
    assert_eq!(o.all_qualified_count, 0);
    assert!(!o.is_all_qualified);
}

#[test]
fn record_without_qualifier_character_is_skipped() {
    let mut o = options(',', Some('"'));
    let r = o.check_non_escaped_qualifiers(0, &String::from("a,b,c"));
    assert!(r.is_empty());
    assert_eq!(o.all_qualified_count, 0);
}

#[test]
fn all_qualified_mode_becomes_sticky_after_nine_records() {
    let mut o = options(',', Some('"'));
    for i in 0..9 {
        let r = o.check_non_escaped_qualifiers(i, &String::from("\"f1\",\"f2\",\"f3\""));
        assert!(r.is_empty());
        assert_eq!(o.all_qualified_count, (i + 1) as i32);
    }
    assert!(o.is_all_qualified);
    // A later record is split by the pattern even though it is not itself
    // fully qualified: the inner content of a"b,c is "b, one field holding a
    // lone qualifier.
    let r = o.check_non_escaped_qualifiers(9, &String::from("a\"b,c"));
    assert_eq!(r, vec!["\"b"]);
    // The same record analyzed without the primed mode is not flagged.
    let mut fresh = options(',', Some('"'));
    let r2 = fresh.check_non_escaped_qualifiers(0, &String::from("a\"b,c"));
    assert!(r2.is_empty());
}

#[test]
fn sticky_flag_never_resets() {
    let mut o = options(',', Some('"'));
    for i in 0..9 {
        o.check_non_escaped_qualifiers(i, &String::from("\"f1\",\"f2\",\"f3\""));
    }
    assert!(o.is_all_qualified);
    o.check_non_escaped_qualifiers(20, &String::from("\"plain\""));
    assert!(o.is_all_qualified);
}

#[test]
fn reader_consumes_header_and_buffers_first_line() {
    let o = options(',', Some('"'));
    let mut r = RecordsReader::new(&o, String::from("a,b,c"));
    assert_eq!(r.header_delimiter_count, 2);
    assert_eq!(r.push_line(&o, String::from("1,2,3")), None);
    assert_eq!(r.push_line(&o, String::from("4,5,6")), Some(String::from("1,2,3")));
    assert_eq!(r.finish(), Some(String::from("4,5,6")));
}

#[test]
fn open_qualified_value_merges_following_lines() {
    // Header baseline is one delimiter; the quoted value stays open across
    // two line breaks, so three physical lines make one logical record.
    let o = options(',', Some('"'));
    let mut r = RecordsReader::new(&o, String::from("a,b"));
    assert_eq!(r.push_line(&o, String::from("\"1\",\"line1")), None);
    assert_eq!(r.push_line(&o, String::from("line2")), None);
    assert_eq!(r.push_line(&o, String::from("line3")), None);
    assert_eq!(r.finish(), Some(String::from("\"1\",\"line1\rline2\rline3")));
}

#[test]
fn mismatched_delimiter_count_merges_lines() {
    // line2" matches no boundary pattern and has no delimiter while the
    // baseline is one, so it continues the record before field extraction.
    let o = options(',', Some('"'));
    let mut r = RecordsReader::new(&o, String::from("a,b"));
    assert_eq!(r.push_line(&o, String::from("\"1\",\"line1")), None);
    assert_eq!(r.push_line(&o, String::from("line2\"")), None);
    assert_eq!(r.finish(), Some(String::from("\"1\",\"line1\rline2\"")));
}

#[test]
fn matching_delimiter_count_never_merges() {
    let o = options(',', None);
    let mut r = RecordsReader::new(&o, String::from("a,b,c"));
    assert_eq!(r.push_line(&o, String::from("1,2,3")), None);
    assert_eq!(r.push_line(&o, String::from("4,5,6")), Some(String::from("1,2,3")));
    assert_eq!(r.push_line(&o, String::from("7,8,9")), Some(String::from("4,5,6")));
    assert_eq!(r.finish(), Some(String::from("7,8,9")));
}

#[test]
fn empty_line_is_kept_as_embedded_content() {
    let o = options(',', None);
    let mut r = RecordsReader::new(&o, String::from("a,b"));
    assert_eq!(r.push_line(&o, String::from("1,2")), None);
    assert_eq!(r.push_line(&o, String::from("")), None);
    assert_eq!(r.finish(), Some(String::from("1,2\n")));
}

#[test]
fn boundary_pattern_completes_the_pending_record() {
    // The line id2 matches the boundary pattern; with a mismatching
    // delimiter count it would otherwise have been appended, so the emitted
    // record shows the pattern match deciding.
    let o = options(',', None);
    let mut r = RecordsReader::new(&o, String::from("a,b"));
    assert_eq!(r.push_line(&o, String::from("id1,x")), None);
    assert_eq!(r.push_line(&o, String::from("id2")), Some(String::from("id1,x")));
    assert_eq!(r.finish(), Some(String::from("id2")));
}

#[test]
fn non_boundary_line_with_short_count_is_appended() {
    let o = options(',', None);
    let mut r = RecordsReader::new(&o, String::from("a,b"));
    assert_eq!(r.push_line(&o, String::from("id1,x")), None);
    assert_eq!(r.push_line(&o, String::from("zz")), None);
    assert_eq!(r.finish(), Some(String::from("id1,x\rzz")));
}

#[test]
fn reader_is_one_shot_after_finish() {
    let o = options(',', None);
    let mut r = RecordsReader::new(&o, String::from("a,b"));
    assert_eq!(r.push_line(&o, String::from("1,2")), None);
    assert_eq!(r.finish(), Some(String::from("1,2")));
    assert_eq!(r.push_line(&o, String::from("3,4")), None);
    assert_eq!(r.finish(), None);
}

#[test]
fn reconstruction_is_repeatable() {
    // The same static lines give the identical record sequence twice over.
    let lines = ["\"1\",\"a", "still open\"", "2,b", "3,c"];
    let mut runs: Vec<Vec<String>> = Vec::new();
    for _ in 0..2 {
        let o = options(',', Some('"'));
        let mut r = RecordsReader::new(&o, String::from("h,h"));
        let mut records: Vec<String> = Vec::new();
        for line in lines.iter() {
            if let Some(rec) = r.push_line(&o, String::from(*line)) {
                records.push(rec);
            }
        }
        if let Some(rec) = r.finish() {
            records.push(rec);
        }
        runs.push(records);
    }
    assert_eq!(runs[0], runs[1]);
    assert_eq!(runs[0], vec!["\"1\",\"a\rstill open\"", "2,b", "3,c"]);
}

#[test]
fn classify_orders_the_verdicts() {
    assert_eq!(classify(true, true, false, false, false), AnalyzeResult::Both);
    assert_eq!(
        classify(true, false, false, false, false),
        AnalyzeResult::NonEscapedQualifiers
    );
    assert_eq!(
        classify(false, true, true, false, false),
        AnalyzeResult::DelimiterCount { too_many: true, qualifier: false }
    );
    assert_eq!(
        classify(false, false, false, false, true),
        AnalyzeResult::NewLineNoQualifier
    );
    assert_eq!(classify(false, false, false, false, false), AnalyzeResult::Good);
}

#[test]
fn error_from_message_and_from_io() {
    let e = AnalyzerError::from("no header");
    match &e {
        AnalyzerError::Generic(m) => assert_eq!(m, "no header"),
        AnalyzerError::IO(_) => panic!("expected a described failure"),
    }
    assert_eq!(e.generic_message().map(|m| m.as_str()), Some("no header"));
    let io = AnalyzerError::from(std::io::Error::new(
        std::io::ErrorKind::NotFound,
        "gone",
    ));
    assert!(matches!(io, AnalyzerError::IO(_)));
    assert!(io.generic_message().is_none());
}

#[test]
fn peek_result_values_are_distinct() {
    assert_ne!(PeekResult::Success, PeekResult::Failed);
    assert_ne!(PeekResult::FileNotFound, PeekResult::BadEncoding);
}

#[test]
fn empty_record_yields_no_fields() {
    let fields = extract_qualified_values(&'"', &',', &String::from(""));
    assert!(fields.is_empty());
}

#[test]
fn unquoted_run_is_folded_into_the_field() {
    // A qualifier-delimiter pair seen outside a quoted value folds the side
    // buffer, with the leading sentinel delimiter, into the field.
    let fields = extract_qualified_values(&'"', &',', &String::from("x\",\"y"));
    assert_eq!(fields, vec![",x"]);
}
