//! Schema loading: XML parsing, offsets, defaults, structural errors.

use fixedwidth::schema::Schema;

fn sample_schema_xml() -> String {
    String::new()
        + "<fixedwidthschema lineseparator=\"\\n\">"
        + "<line linetype=\"header\" maxlength=\"9\">"
        + "<cell name=\"Type\" length=\"1\">"
        + "<linecondition><match type=\"string\" pattern=\"H\"/></linecondition>"
        + "</cell>"
        + "<cell name=\"Date\" length=\"8\"><format type=\"date\" pattern=\"%Y%m%d\"/></cell>"
        + "</line>"
        + "<line linetype=\"detail\" maxlength=\"14\" padcharacter=\" \">"
        + "<cell name=\"Id\" length=\"4\"><format type=\"string\" pattern=\"[A-Z]+\"/></cell>"
        + "<cell name=\"Amount\" length=\"10\" alignment=\"right\">"
        + "<format type=\"number\" pattern=\"#,##0.00\"/>"
        + "</cell>"
        + "</line>"
        + "<line linetype=\"footer\" maxlength=\"0\">"
        + "<cell name=\"Type\" length=\"1\">"
        + "<linecondition><match type=\"string\" pattern=\"F\"/></linecondition>"
        + "</cell>"
        + "<cell name=\"Count\" length=\"5\"/>"
        + "</line>"
        + "</fixedwidthschema>"
}

#[test]
fn test_fixedwidthschema() {
    let schema = Schema::new(&sample_schema_xml()).expect("Failed to load schema");
    assert!(matches!(schema, Schema::FixedWidth(_)));
}

#[test]
fn offsets_accumulate_per_line() {
    let schema = Schema::new(&sample_schema_xml()).unwrap();
    let header = schema.get_line_by_linetype("header").unwrap();
    assert_eq!(header.cell[0].start, 0);
    assert_eq!(header.cell[0].end, 1);
    assert_eq!(header.cell[1].start, 1);
    assert_eq!(header.cell[1].end, 9);
    // Offsets restart for the next line.
    let detail = schema.get_line_by_linetype("detail").unwrap();
    assert_eq!(detail.cell[0].start, 0);
    assert_eq!(detail.cell[1].start, 4);
    assert_eq!(detail.cell[1].end, 14);
}

#[test]
fn newline_characters_keep_the_raw_text() {
    let schema = Schema::new(&sample_schema_xml()).unwrap();
    assert_eq!(schema.get_newline_characters(), "\\n");
    assert_eq!(schema.get_schema_type(), "fixedwidthschema");
}

#[test]
fn default_line_is_the_sole_unconditioned_one() {
    let schema = Schema::new(&sample_schema_xml()).unwrap();
    let (linetype, line) = schema.get_first_line_without_condition().unwrap();
    assert_eq!(linetype, "detail");
    assert_eq!(line.maxlength, 14);
}

#[test]
fn two_unconditioned_lines_leave_no_default() {
    let xml = String::new()
        + "<fixedwidthschema>"
        + "<line linetype=\"a\"><cell name=\"X\" length=\"2\"/></line>"
        + "<line linetype=\"b\"><cell name=\"Y\" length=\"2\"/></line>"
        + "</fixedwidthschema>";
    let schema = Schema::new(&xml).unwrap();
    assert!(schema.get_first_line_without_condition().is_none());
}

#[test]
fn line_conditions_list_conditioned_lines_in_order() {
    let schema = Schema::new(&sample_schema_xml()).unwrap();
    let conds = schema.get_line_conditions();
    assert_eq!(conds.len(), 2);
    assert_eq!(conds[0].0, "header");
    assert_eq!(conds[0].1.len(), 1);
    assert_eq!(conds[0].1[0].linecondition_pattern.as_deref(), Some("H"));
    assert_eq!(conds[1].0, "footer");
}

#[test]
fn duplicate_linetype_is_a_load_error() {
    let xml = String::new()
        + "<fixedwidthschema>"
        + "<line linetype=\"dup\"><cell name=\"X\" length=\"1\"/></line>"
        + "<line linetype=\"dup\"><cell name=\"Y\" length=\"1\"/></line>"
        + "</fixedwidthschema>";
    let err = Schema::new(&xml).unwrap_err();
    assert_eq!(err, "Duplicate linetype: dup");
}

#[test]
fn bad_string_regex_is_a_load_error() {
    let xml = String::new()
        + "<fixedwidthschema>"
        + "<line linetype=\"a\">"
        + "<cell name=\"X\" length=\"1\"><format type=\"string\" pattern=\"[\"/></cell>"
        + "</line>"
        + "</fixedwidthschema>";
    let err = Schema::new(&xml).unwrap_err();
    assert_eq!(err, "Error compiling regex pattern: [");
}

#[test]
fn malformed_xml_is_a_load_error() {
    let err = Schema::new("<fixedwidthschema><line").unwrap_err();
    assert_eq!(err, "Error parsing XML");
}

#[test]
fn missing_root_element_is_a_load_error() {
    let err = Schema::new("<other/>").unwrap_err();
    assert_eq!(err, "no fixedwidthschema element in schema");
}

#[test]
fn format_type_is_lowercased() {
    let xml = String::new()
        + "<fixedwidthschema>"
        + "<line linetype=\"a\">"
        + "<cell name=\"X\" length=\"1\"><format type=\"STRING\" pattern=\"x\"/></cell>"
        + "</line>"
        + "</fixedwidthschema>";
    let schema = Schema::new(&xml).unwrap();
    let line = schema.get_line_by_linetype("a").unwrap();
    let format = line.cell[0].format.as_ref().unwrap();
    assert_eq!(format.ctype, "string");
    // The regex is compiled at load time for string formats.
    assert!(format.regex_pattern.is_some());
}

#[test]
fn unreadable_numeric_attribute_means_no_constraint() {
    let xml = String::new()
        + "<fixedwidthschema>"
        + "<line linetype=\"a\" maxlength=\"abc\"><cell name=\"X\" length=\"7\"/></line>"
        + "</fixedwidthschema>";
    let schema = Schema::new(&xml).unwrap();
    let line = schema.get_line_by_linetype("a").unwrap();
    assert_eq!(line.maxlength, 0);
    assert_eq!(line.cell[0].length, 7);
}
