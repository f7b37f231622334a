//! Record validation: line-type selection, length checks, cell formats,
//! trimming, and the stable diagnostic codes.

use fixedwidth::schema::{LineCondition, Schema};

fn discrimination_schema() -> Schema {
    let xml = String::new()
        + "<fixedwidthschema lineseparator=\"\\n\">"
        + "<line linetype=\"header\" maxlength=\"0\">"
        + "<cell name=\"Type\" length=\"1\">"
        + "<linecondition><match type=\"string\" pattern=\"H\"/></linecondition>"
        + "</cell>"
        + "<cell name=\"Date\" length=\"8\"><format type=\"date\" pattern=\"%Y%m%d\"/></cell>"
        + "</line>"
        + "<line linetype=\"footer\" maxlength=\"0\">"
        + "<cell name=\"Type\" length=\"1\">"
        + "<linecondition><match type=\"string\" pattern=\"F\"/></linecondition>"
        + "</cell>"
        + "<cell name=\"Count\" length=\"5\"/>"
        + "</line>"
        + "<line linetype=\"detail\" maxlength=\"0\">"
        + "<cell name=\"Body\" length=\"9\"/>"
        + "</line>"
        + "</fixedwidthschema>";
    Schema::new(&xml).unwrap()
}

#[test]
fn line_type_discrimination() {
    let schema = discrimination_schema();
    let header = schema.validate_line(1, "H20240101".to_string()).unwrap();
    assert_eq!(header.linetype, "header");
    let footer = schema.validate_line(2, "F00003   ".to_string()).unwrap();
    assert_eq!(footer.linetype, "footer");
    let detail = schema.validate_line(3, "X12345678".to_string()).unwrap();
    assert_eq!(detail.linetype, "detail");
}

#[test]
fn length_mismatch_yields_err_002() {
    let xml = String::new()
        + "<fixedwidthschema>"
        + "<line linetype=\"detail\" maxlength=\"40\">"
        + "<cell name=\"Body\" length=\"40\"/>"
        + "</line>"
        + "</fixedwidthschema>";
    let schema = Schema::new(&xml).unwrap();
    let record: String = std::iter::repeat('x').take(42).collect();
    let err = schema.validate_line(7, record).unwrap_err();
    assert_eq!(err.line_number, 7);
    assert_eq!(
        err.message,
        "[err:002]|line|maxlength|the line has length 42 but was expected 40"
    );
}

#[test]
fn no_matching_line_yields_err_001() {
    // Two unconditioned lines: no default is available, and the conditioned
    // line does not match.
    let xml = String::new()
        + "<fixedwidthschema>"
        + "<line linetype=\"header\" maxlength=\"0\">"
        + "<cell name=\"Type\" length=\"1\">"
        + "<linecondition><match type=\"string\" pattern=\"H\"/></linecondition>"
        + "</cell>"
        + "</line>"
        + "<line linetype=\"a\"><cell name=\"X\" length=\"1\"/></line>"
        + "<line linetype=\"b\"><cell name=\"Y\" length=\"1\"/></line>"
        + "</fixedwidthschema>";
    let schema = Schema::new(&xml).unwrap();
    let err = schema.validate_line(1, "Z".to_string()).unwrap_err();
    assert_eq!(err.message, "[err:001]|line|no match found for schema line type");
}

#[test]
fn out_of_range_cell_yields_err_003() {
    let xml = String::new()
        + "<fixedwidthschema>"
        + "<line linetype=\"detail\" maxlength=\"0\">"
        + "<cell name=\"Body\" length=\"9\"/>"
        + "</line>"
        + "</fixedwidthschema>";
    let schema = Schema::new(&xml).unwrap();
    let err = schema.validate_line(1, "short".to_string()).unwrap_err();
    assert_eq!(err.message, "[err:003]|Body|range|invalid [0]-[9]");
}

#[test]
fn bad_date_yields_err_004() {
    let xml = String::new()
        + "<fixedwidthschema>"
        + "<line linetype=\"detail\" maxlength=\"0\">"
        + "<cell name=\"Date\" length=\"8\"><format type=\"date\" pattern=\"%Y%m%d\"/></cell>"
        + "</line>"
        + "</fixedwidthschema>";
    let schema = Schema::new(&xml).unwrap();
    let ok = schema.validate_line(1, "20240131".to_string()).unwrap();
    assert_eq!(ok.cell_values.get("Date").map(|s| s.as_str()), Some("20240131"));
    let err = schema.validate_line(2, "20241340".to_string()).unwrap_err();
    assert_eq!(err.message, "[err:004]|Date|date|pattern:[%Y%m%d]");
}

#[test]
fn regex_mismatch_yields_err_005() {
    let xml = String::new()
        + "<fixedwidthschema>"
        + "<line linetype=\"detail\" maxlength=\"0\">"
        + "<cell name=\"Code\" length=\"4\"><format type=\"string\" pattern=\"^[A-Z]+$\"/></cell>"
        + "</line>"
        + "</fixedwidthschema>";
    let schema = Schema::new(&xml).unwrap();
    assert!(schema.validate_line(1, "ABCD".to_string()).is_ok());
    let err = schema.validate_line(2, "ab12".to_string()).unwrap_err();
    assert_eq!(err.message, "[err:005]|Code|string|pattern:[^[A-Z]+$]");
}

#[test]
fn number_mismatch_yields_err_007() {
    let xml = String::new()
        + "<fixedwidthschema>"
        + "<line linetype=\"detail\" maxlength=\"0\">"
        + "<cell name=\"Amount\" length=\"8\"><format type=\"number\" pattern=\"0.00\"/></cell>"
        + "</line>"
        + "</fixedwidthschema>";
    let schema = Schema::new(&xml).unwrap();
    let ok = schema.validate_line(1, "    4.20".to_string()).unwrap();
    // Number cells default to right alignment: leading pads are trimmed.
    assert_eq!(ok.cell_values.get("Amount").map(|s| s.as_str()), Some("4.20"));
    let err = schema.validate_line(2, "   4.2x ".to_string()).unwrap_err();
    assert_eq!(err.message, "[err:007]|Amount|number|pattern:[0.00]");
}

#[test]
fn cell_values_keep_declaration_order() {
    let xml = String::new()
        + "<fixedwidthschema>"
        + "<line linetype=\"detail\" maxlength=\"0\">"
        + "<cell name=\"Zeta\" length=\"2\"/>"
        + "<cell name=\"Alpha\" length=\"2\"/>"
        + "<cell name=\"Mid\" length=\"2\"/>"
        + "</line>"
        + "</fixedwidthschema>";
    let schema = Schema::new(&xml).unwrap();
    let ok = schema.validate_line(1, "aabbcc".to_string()).unwrap();
    let keys: Vec<&String> = ok.cell_values.keys().collect();
    assert_eq!(keys, vec!["Zeta", "Alpha", "Mid"]);
    let values: Vec<&String> = ok.cell_values.values().collect();
    assert_eq!(values, vec!["aa", "bb", "cc"]);
}

#[test]
fn padding_is_trimmed_per_alignment() {
    let xml = String::new()
        + "<fixedwidthschema>"
        + "<line linetype=\"detail\" maxlength=\"0\" padcharacter=\"*\">"
        + "<cell name=\"Left\" length=\"4\" alignment=\"left\"/>"
        + "<cell name=\"Right\" length=\"4\" alignment=\"right\"/>"
        + "<cell name=\"Center\" length=\"4\" alignment=\"center\"/>"
        + "</line>"
        + "</fixedwidthschema>";
    let schema = Schema::new(&xml).unwrap();
    let ok = schema.validate_line(1, "ab****cd*ef*".to_string()).unwrap();
    assert_eq!(ok.cell_values.get("Left").map(|s| s.as_str()), Some("ab"));
    assert_eq!(ok.cell_values.get("Right").map(|s| s.as_str()), Some("cd"));
    assert_eq!(ok.cell_values.get("Center").map(|s| s.as_str()), Some("ef"));
}

#[test]
fn condition_cell_with_failing_format_is_skipped() {
    // The header's conditioned cell carries a format that refuses the
    // record, so the condition is skipped and the default line is used.
    let xml = String::new()
        + "<fixedwidthschema>"
        + "<line linetype=\"header\" maxlength=\"0\">"
        + "<cell name=\"Type\" length=\"1\">"
        + "<format type=\"string\" pattern=\"^[0-9]$\"/>"
        + "<linecondition><match type=\"string\" pattern=\"H\"/></linecondition>"
        + "</cell>"
        + "</line>"
        + "<line linetype=\"detail\" maxlength=\"0\">"
        + "<cell name=\"Body\" length=\"1\"/>"
        + "</line>"
        + "</fixedwidthschema>";
    let schema = Schema::new(&xml).unwrap();
    let ok = schema.validate_line(1, "H".to_string()).unwrap();
    assert_eq!(ok.linetype, "detail");
}

#[test]
fn checked_validation_refuses_a_broken_number_pattern() {
    let xml = String::new()
        + "<fixedwidthschema>"
        + "<line linetype=\"detail\" maxlength=\"0\">"
        + "<cell name=\"Amount\" length=\"4\"><format type=\"number\" pattern=\"0q0\"/></cell>"
        + "</line>"
        + "</fixedwidthschema>";
    let schema = Schema::new(&xml).unwrap();
    assert!(schema.validate_line_checked(1, "1234".to_string()).is_none());
}

#[test]
fn checked_validation_agrees_with_validate_line() {
    let schema = discrimination_schema();
    let r = schema
        .validate_line_checked(5, "H20240101".to_string())
        .expect("validation is defined for this schema");
    let ok = r.unwrap();
    assert_eq!(ok.line_number, 5);
    assert_eq!(ok.linetype, "header");
}

#[test]
fn compile_helpers_follow_the_regex_engine() {
    let schema = discrimination_schema();
    let condition = LineCondition { matchpattern: "H.*".to_string() };
    let re = schema.try_compile_line_condition(&condition).unwrap();
    assert!(re.is_match("H123"));
    let bad = LineCondition { matchpattern: "[".to_string() };
    assert!(schema.try_compile_line_condition(&bad).is_none());
    let line = schema.get_line_by_linetype("header").unwrap();
    let format = line.cell[1].format.as_ref().unwrap();
    assert!(schema.try_compile_cell_format(format).is_some());
}

#[test]
fn repadded_values_validate_to_the_same_record() {
    // Lay the validated values out again, padded back to their cells, and
    // validate the rebuilt record: the same values come out.
    let xml = String::new()
        + "<fixedwidthschema>"
        + "<line linetype=\"detail\" maxlength=\"8\" padcharacter=\"*\">"
        + "<cell name=\"Left\" length=\"4\" alignment=\"left\"/>"
        + "<cell name=\"Right\" length=\"4\" alignment=\"right\"/>"
        + "</line>"
        + "</fixedwidthschema>";
    let schema = Schema::new(&xml).unwrap();
    let first = schema.validate_line(1, "ab****cd".to_string()).unwrap();
    let left = first.cell_values.get("Left").unwrap().clone();
    let right = first.cell_values.get("Right").unwrap().clone();
    let rebuilt = format!("{:*<4}{:*>4}", left, right);
    let second = schema.validate_line(2, rebuilt).unwrap();
    assert_eq!(second.cell_values.get("Left"), first.cell_values.get("Left"));
    assert_eq!(second.cell_values.get("Right"), first.cell_values.get("Right"));
}

#[test]
fn find_matching_returns_the_matched_pair() {
    let schema = discrimination_schema();
    let conds = schema.get_line_conditions();
    let (name, line) = schema
        .find_matching_schema_linetype("F00003   ", &conds)
        .unwrap();
    assert_eq!(name, "footer");
    assert_eq!(line.linetype, "footer");
}
