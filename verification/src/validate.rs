//! The record validator: select a line type through the line conditions,
//! check the record length, then validate every cell — extract its byte
//! range, trim padding by alignment, and check the format — collecting the
//! trimmed values in declaration order, or stopping at the first diagnostic.

use vstd::prelude::*;
use vstd::utf8::encode_utf8;

use crate::cell_values::{im_insert, im_new, index_map_entries, spec_entries_index_of,
    spec_entries_insert};
use crate::decimal_format::{
    DecimalFormat, spec_decimal_ok, spec_negative_regex, spec_positive_regex,
};
use crate::parser::{ProcessedLineError, ProcessedLineOk};
use crate::regex_support::{regex_is_match, regex_matches, regex_new, regex_ok, regex_source};
use crate::schema::{Cell, CellV, Format, Line, LineCondition, LineV, Schema, spec_default_line, spec_find_line,
    spec_line_conditions, spec_unconditioned_lines, view_cells, view_cond_pairs};
use crate::text::{byte_range, chars_to_string, push_all, spec_byte_range, spec_trim_both,
    spec_trim_end, spec_trim_start, spec_usize_chars, str_eq, str_to_chars, trim_both_chars,
    trim_end_chars, trim_start_chars, usize_to_chars};

verus! {

broadcast use vstd::string::group_string_axioms;

/// What `chrono::NaiveDate::parse_from_str` decides for a value and a format
/// pattern: a function of the two strings alone.
pub uninterp spec fn date_matches(value: Seq<char>, pattern: Seq<char>) -> bool;

/// Relies on `chrono::NaiveDate::parse_from_str`: success depends only on
/// the value and the format pattern.
#[verifier::external_body]
fn parse_date_ok(value: &str, pattern: &str) -> (r: bool)
    ensures
        r == date_matches(value@, pattern@),
{
    chrono::NaiveDate::parse_from_str(value, pattern).is_ok()
}

/// The byte length of a text, as `str::len` reports it.
pub open spec fn spec_byte_len(text: Seq<char>) -> usize {
    encode_utf8(text).len() as usize
}

/// What validating one cell yields: the trimmed value, a diagnostic, or no
/// result at all — the latter on a number format whose pattern does not
/// compile, where validation cannot return.
pub enum SpecCellResult {
    Value(Seq<char>),
    Fail(Seq<char>),
    Panic,
}

/// The effective alignment of a cell: its own if non-empty, else `right`
/// for number-format cells, else `left`.
pub open spec fn spec_effective_alignment(c: CellV) -> Seq<char> {
    if c.alignment.len() > 0 {
        c.alignment
    } else if c.format matches Some(f) && f.ctype == "number"@ {
        "right"@
    } else {
        "left"@
    }
}

/// The raw cell text trimmed by the pad characters under an alignment:
/// leading pads go for `right`, trailing for `left`, both for `center`, and
/// any other alignment leaves the text as it is.
pub open spec fn spec_trim_value(raw: Seq<char>, align: Seq<char>, pads: Seq<char>) -> Seq<char> {
    if align == "right"@ {
        spec_trim_start(raw, pads)
    } else if align == "left"@ {
        spec_trim_end(raw, pads)
    } else if align == "center"@ {
        spec_trim_both(raw, pads)
    } else {
        raw
    }
}

/// The diagnostic for a cell range outside the record.
pub open spec fn spec_err_range(name: Seq<char>, start: nat, end: nat) -> Seq<char> {
    "[err:003]|"@ + name + "|range|invalid ["@ + spec_usize_chars(start) + "]-["@
        + spec_usize_chars(end) + "]"@
}

/// The diagnostic for a cell value refused by its format.
pub open spec fn spec_err_format(
    code: Seq<char>,
    name: Seq<char>,
    ctype: Seq<char>,
    pattern: Seq<char>,
) -> Seq<char> {
    code + name + "|"@ + ctype + "|pattern:["@ + pattern + "]"@
}

/// One cell validated against a record: extract the byte range, trim, and
/// check the format.
pub open spec fn spec_validate_cell(c: CellV, text: Seq<char>) -> SpecCellResult {
    match spec_byte_range(text, c.start as int, c.end as int) {
        None => SpecCellResult::Fail(spec_err_range(c.name, c.start, c.end)),
        Some(raw) => {
            let trimmed = spec_trim_value(raw, spec_effective_alignment(c), c.padcharacter);
            match c.format {
                None => SpecCellResult::Value(trimmed),
                Some(f) => {
                    if f.ctype == "date"@ {
                        if date_matches(trimmed, f.pattern) {
                            SpecCellResult::Value(trimmed)
                        } else {
                            SpecCellResult::Fail(
                                spec_err_format("[err:004]|"@, c.name, f.ctype, f.pattern),
                            )
                        }
                    } else if f.ctype == "string"@ {
                        match f.regex_pattern {
                            Some(src) => {
                                if regex_matches(src, trimmed) {
                                    SpecCellResult::Value(trimmed)
                                } else {
                                    SpecCellResult::Fail(
                                        spec_err_format("[err:005]|"@, c.name, f.ctype, f.pattern),
                                    )
                                }
                            },
                            None => SpecCellResult::Fail(
                                spec_err_format("[err:006]|"@, c.name, f.ctype, f.pattern),
                            ),
                        }
                    } else if f.ctype == "number"@ {
                        if !spec_decimal_ok(f.pattern) {
                            SpecCellResult::Panic
                        } else if regex_matches(spec_positive_regex(f.pattern), trimmed)
                            || regex_matches(spec_negative_regex(f.pattern), trimmed) {
                            SpecCellResult::Value(trimmed)
                        } else {
                            SpecCellResult::Fail(
                                spec_err_format("[err:007]|"@, c.name, f.ctype, f.pattern),
                            )
                        }
                    } else {
                        SpecCellResult::Value(trimmed)
                    }
                },
            }
        },
    }
}

/// Build the range diagnostic for a cell.
fn make_err_range(cell: &Cell) -> (r: String)
    ensures
        r@ == spec_err_range(cell@.name, cell@.start, cell@.end),
{
    let mut msg = str_to_chars("[err:003]|");
    let nc = str_to_chars(cell.name.as_str());
    push_all(&mut msg, &nc);
    let mid = str_to_chars("|range|invalid [");
    push_all(&mut msg, &mid);
    let sc = usize_to_chars(cell.start);
    push_all(&mut msg, &sc);
    let dash = str_to_chars("]-[");
    push_all(&mut msg, &dash);
    let ec = usize_to_chars(cell.end);
    push_all(&mut msg, &ec);
    let tail = str_to_chars("]");
    push_all(&mut msg, &tail);
    chars_to_string(&msg)
}

/// Build a format diagnostic for a cell.
fn make_err_format(code: &str, cell: &Cell, ctype: &str, pattern: &str) -> (r: String)
    ensures
        r@ == spec_err_format(code@, cell@.name, ctype@, pattern@),
{
    let mut msg = str_to_chars(code);
    let nc = str_to_chars(cell.name.as_str());
    push_all(&mut msg, &nc);
    let bar = str_to_chars("|");
    push_all(&mut msg, &bar);
    let tc = str_to_chars(ctype);
    push_all(&mut msg, &tc);
    let mid = str_to_chars("|pattern:[");
    push_all(&mut msg, &mid);
    let pc = str_to_chars(pattern);
    push_all(&mut msg, &pc);
    let tail = str_to_chars("]");
    push_all(&mut msg, &tail);
    chars_to_string(&msg)
}

impl Schema {
    /// Validate one cell against the record text: the trimmed value, or the
    /// first diagnostic.
    fn validate_cell(cell: &Cell, line_text: &str) -> (r: Result<String, String>)
        requires
            !(spec_validate_cell(cell@, line_text@) is Panic),
        ensures
            r is Ok <==> spec_validate_cell(cell@, line_text@) is Value,
            r is Ok ==> r->Ok_0@ == spec_validate_cell(cell@, line_text@)->Value_0,
            r is Err ==> r->Err_0@ == spec_validate_cell(cell@, line_text@)->Fail_0,
    {
        let raw = match byte_range(line_text, cell.start, cell.end) {
            Some(raw) => raw,
            None => {
                return Err(make_err_range(cell));
            },
        };
        let number_format = match &cell.format {
            Some(f) => str_eq(f.ctype.as_str(), "number"),
            None => false,
        };
        let alignment: &str = if !cell.alignment.as_str().is_empty() {
            cell.alignment.as_str()
        } else if number_format {
            "right"
        } else {
            "left"
        };
        let raw_chars = str_to_chars(raw);
        let pads = str_to_chars(cell.padcharacter.as_str());
        let trimmed_chars = if str_eq(alignment, "right") {
            trim_start_chars(&raw_chars, &pads)
        } else if str_eq(alignment, "left") {
            trim_end_chars(&raw_chars, &pads)
        } else if str_eq(alignment, "center") {
            trim_both_chars(&raw_chars, &pads)
        } else {
            raw_chars
        };
        let trimmed = chars_to_string(&trimmed_chars);
        match &cell.format {
            None => Ok(trimmed),
            Some(f) => {
                if str_eq(f.ctype.as_str(), "date") {
                    if parse_date_ok(trimmed.as_str(), f.pattern.as_str()) {
                        Ok(trimmed)
                    } else {
                        Err(
                            make_err_format("[err:004]|", cell, f.ctype.as_str(), f.pattern.as_str()),
                        )
                    }
                } else if str_eq(f.ctype.as_str(), "string") {
                    match &f.regex_pattern {
                        Some(re) => {
                            if regex_is_match(re, trimmed.as_str()) {
                                Ok(trimmed)
                            } else {
                                Err(
                                    make_err_format(
                                        "[err:005]|",
                                        cell,
                                        f.ctype.as_str(),
                                        f.pattern.as_str(),
                                    ),
                                )
                            }
                        },
                        None => Err(
                            make_err_format("[err:006]|", cell, f.ctype.as_str(), f.pattern.as_str()),
                        ),
                    }
                } else if str_eq(f.ctype.as_str(), "number") {
                    let formatter = match DecimalFormat::new(f.pattern.as_str()) {
                        Ok(df) => df,
                        Err(_) => {
                            proof {
                                assert(false);
                            }
                            unreached()
                        },
                    };
                    match formatter.validate_number(trimmed.as_str()) {
                        Ok(_) => Ok(trimmed),
                        Err(_) => Err(
                            make_err_format("[err:007]|", cell, f.ctype.as_str(), f.pattern.as_str()),
                        ),
                    }
                } else {
                    Ok(trimmed)
                }
            },
        }
    }
}

/// The condition cells of one candidate line evaluated in order from `i`,
/// carrying the running outcome: the final flag, or no result where the
/// evaluation cannot return (a range outside the record, a number
/// pattern that does not compile, a condition type other than `string`, or
/// a conditioned cell without a pattern).
pub open spec fn spec_cond_cells(cells: Seq<CellV>, text: Seq<char>, i: int, met: bool) -> Result<
    bool,
    (),
>
    decreases cells.len() - i,
{
    if i < 0 || i >= cells.len() {
        Ok(met)
    } else {
        let c = cells[i];
        if spec_byte_range(text, c.start as int, c.end as int) is None {
            Err(())
        } else {
            match spec_validate_cell(c, text) {
                SpecCellResult::Panic => Err(()),
                SpecCellResult::Fail(m) => spec_cond_cells(cells, text, i + 1, met),
                SpecCellResult::Value(v) => {
                    if c.linecondition_type is None || c.linecondition_type == Some("string"@) {
                        if c.linecondition_pattern is None {
                            Err(())
                        } else {
                            spec_cond_cells(
                                cells,
                                text,
                                i + 1,
                                spec_byte_range(text, c.start as int, c.end as int)->0
                                    == c.linecondition_pattern->0,
                            )
                        }
                    } else {
                        Err(())
                    }
                },
            }
        }
    }
}

/// The first conditioned line, from `i` on, whose last evaluated condition
/// held.
pub open spec fn spec_select_lines(
    conds: Seq<(Seq<char>, Seq<CellV>)>,
    text: Seq<char>,
    i: int,
) -> Result<Option<Seq<char>>, ()>
    decreases conds.len() - i,
{
    if i < 0 || i >= conds.len() {
        Ok(None)
    } else {
        match spec_cond_cells(conds[i].1, text, 0, false) {
            Err(e) => Err(e),
            Ok(met) => {
                if met {
                    Ok(Some(conds[i].0))
                } else {
                    spec_select_lines(conds, text, i + 1)
                }
            },
        }
    }
}

/// The line selected for a record: the first conditioned line whose
/// condition held, found again by its type; failing that — or for an empty
/// selected type — the schema's default line.
pub open spec fn spec_find_matching(
    lines: Seq<LineV>,
    conds: Seq<(Seq<char>, Seq<CellV>)>,
    text: Seq<char>,
) -> Result<Option<(Seq<char>, LineV)>, ()> {
    match spec_select_lines(conds, text, 0) {
        Err(e) => Err(e),
        Ok(sel) => {
            let name = match sel {
                Some(n) => n,
                None => Seq::<char>::empty(),
            };
            if name.len() == 0 {
                match spec_default_line(lines) {
                    Some(l) => Ok(Some((l.linetype, l))),
                    None => Ok(None),
                }
            } else {
                match spec_find_line(lines, name) {
                    Some(l) => Ok(Some((name, l))),
                    None => Ok(None),
                }
            }
        },
    }
}

impl Schema {
    /// The line type matching the record, judged by the line conditions of
    /// each candidate, with the schema's default line as fallback.
    pub fn find_matching_schema_linetype(
        &self,
        line_text: &str,
        schema_lines_with_condition: &Vec<(String, Vec<Cell>)>,
    ) -> (r: Option<(String, Line)>)
        requires
            self is FixedWidth,
            !(spec_find_matching(
                self.spec_fixed().lines,
                view_cond_pairs(schema_lines_with_condition@),
                line_text@,
            ) is Err),
        ensures
            ({
                let sr = spec_find_matching(
                    self.spec_fixed().lines,
                    view_cond_pairs(schema_lines_with_condition@),
                    line_text@,
                )->Ok_0;
                &&& (r is Some <==> sr is Some)
                &&& (r is Some ==> (r->0).0@ == (sr->0).0 && (r->0).1@ == (sr->0).1)
            }),
    {
        let ghost condsv = view_cond_pairs(schema_lines_with_condition@);
        let ghost text = line_text@;
        let mut selected: Option<String> = None;
        let mut i: usize = 0;
        while i < schema_lines_with_condition.len()
            invariant_except_break
                0 <= i <= schema_lines_with_condition@.len(),
                condsv == view_cond_pairs(schema_lines_with_condition@),
                text == line_text@,
                selected is None,
                !(spec_select_lines(condsv, text, 0) is Err),
                spec_select_lines(condsv, text, 0) == spec_select_lines(condsv, text, i as int),
            ensures
                condsv == view_cond_pairs(schema_lines_with_condition@),
                text == line_text@,
                match selected {
                    Some(n) => spec_select_lines(condsv, text, 0) == Ok::<Option<Seq<char>>, ()>(
                        Some(n@),
                    ),
                    None => spec_select_lines(condsv, text, 0) == Ok::<Option<Seq<char>>, ()>(None),
                },
            decreases schema_lines_with_condition@.len() - i,
        {
            let pair = &schema_lines_with_condition[i];
            let cells = &pair.1;
            let ghost cellsv = condsv[i as int].1;
            proof {
                assert(condsv[i as int] == (pair.0@, view_cells(pair.1@)));
            }
            let mut line_condition_met = false;
            let mut j: usize = 0;
            while j < cells.len()
                invariant
                    0 <= j <= cells@.len(),
                    cellsv == view_cells(cells@),
                    text == line_text@,
                    !(spec_cond_cells(cellsv, text, 0, false) is Err),
                    spec_cond_cells(cellsv, text, 0, false) == spec_cond_cells(
                        cellsv,
                        text,
                        j as int,
                        line_condition_met,
                    ),
                decreases cells@.len() - j,
            {
                let cell = &cells[j];
                proof {
                    assert(cellsv[j as int] == cell@);
                }
                match byte_range(line_text, cell.start, cell.end) {
                    None => {
                        proof {
                            assert(false);
                        }
                    },
                    Some(raw) => {
                        match Self::validate_cell(cell, line_text) {
                            Err(_) => {},
                            Ok(_) => {
                                let type_ok = match &cell.linecondition_type {
                                    None => true,
                                    Some(t) => str_eq(t.as_str(), "string"),
                                };
                                if !type_ok {
                                    proof {
                                        assert(false);
                                    }
                                } else {
                                    match &cell.linecondition_pattern {
                                        None => {
                                            proof {
                                                assert(false);
                                            }
                                        },
                                        Some(p) => {
                                            line_condition_met = str_eq(raw, p.as_str());
                                        },
                                    }
                                }
                            },
                        }
                    },
                }
                j += 1;
            }
            if line_condition_met {
                proof {
                    assert(spec_cond_cells(cellsv, text, cells@.len() as int, true) == Ok::<
                        bool,
                        (),
                    >(true));
                }
                selected = Some(pair.0.clone());
                break ;
            }
            i += 1;
        }
        let name_is_empty = match &selected {
            Some(n) => n.as_str().is_empty(),
            None => true,
        };
        if name_is_empty {
            self.get_first_line_without_condition()
        } else {
            let name = match selected {
                Some(n) => n,
                None => {
                    proof {
                        assert(false);
                    }
                    unreached()
                },
            };
            match self.get_line_by_linetype(name.as_str()) {
                Some(line) => Some((name, line)),
                None => None,
            }
        }
    }
}

/// What validating a record yields: the selected line type with the cell
/// values in declaration order, a diagnostic, or no result at all (see
/// `SpecCellResult`).
pub enum SpecLineResult {
    Done((Seq<char>, Seq<(Seq<char>, Seq<char>)>)),
    Fail(Seq<char>),
    Panic,
}

/// What folding the selected line's cells yields.
pub enum SpecValuesResult {
    Values(Seq<(Seq<char>, Seq<char>)>),
    Fail(Seq<char>),
    Panic,
}

/// The selected line's cells validated in declaration order from `i`,
/// inserting each trimmed value under the cell's name; the first diagnostic
/// stops the fold.
pub open spec fn spec_cells_fold(
    cells: Seq<CellV>,
    text: Seq<char>,
    i: int,
    acc: Seq<(Seq<char>, Seq<char>)>,
) -> SpecValuesResult
    decreases cells.len() - i,
{
    if i < 0 || i >= cells.len() {
        SpecValuesResult::Values(acc)
    } else {
        match spec_validate_cell(cells[i], text) {
            SpecCellResult::Panic => SpecValuesResult::Panic,
            SpecCellResult::Fail(m) => SpecValuesResult::Fail(m),
            SpecCellResult::Value(v) => spec_cells_fold(
                cells,
                text,
                i + 1,
                spec_entries_insert(acc, cells[i].name, v),
            ),
        }
    }
}

/// The diagnostic for a record whose length differs from the line's
/// `maxlength`.
pub open spec fn spec_err_maxlength(len: nat, maxlength: nat) -> Seq<char> {
    "[err:002]|line|maxlength|the line has length "@ + spec_usize_chars(len)
        + " but was expected "@ + spec_usize_chars(maxlength)
}

/// A record validated against a schema: select the line type, check the
/// length bound, then validate every cell.
pub open spec fn spec_validate_line(lines: Seq<LineV>, text: Seq<char>) -> SpecLineResult {
    match spec_find_matching(lines, spec_line_conditions(lines), text) {
        Err(e) => SpecLineResult::Panic,
        Ok(None) => SpecLineResult::Fail("[err:001]|line|no match found for schema line type"@),
        Ok(Some(sel)) => {
            let name = sel.0;
            let line = sel.1;
            if line.maxlength > 0 && spec_byte_len(text) as nat != line.maxlength {
                SpecLineResult::Fail(
                    spec_err_maxlength(spec_byte_len(text) as nat, line.maxlength),
                )
            } else {
                match spec_cells_fold(line.cell, text, 0, Seq::<(Seq<char>, Seq<char>)>::empty()) {
                    SpecValuesResult::Panic => SpecLineResult::Panic,
                    SpecValuesResult::Fail(m) => SpecLineResult::Fail(m),
                    SpecValuesResult::Values(vs) => SpecLineResult::Done((name, vs)),
                }
            }
        },
    }
}

/// The record outcome a cells fold determines, once a line type is chosen.
pub open spec fn spec_fold_to_line(name: Seq<char>, f: SpecValuesResult) -> SpecLineResult {
    match f {
        SpecValuesResult::Panic => SpecLineResult::Panic,
        SpecValuesResult::Fail(m) => SpecLineResult::Fail(m),
        SpecValuesResult::Values(vs) => SpecLineResult::Done((name, vs)),
    }
}

impl Schema {
    /// Validate one record: the selected line type and its trimmed cell
    /// values in declaration order, or the first diagnostic, each with the
    /// record number.
    pub fn validate_line(&self, line_number: usize, line_text: String) -> (r: Result<
        ProcessedLineOk,
        ProcessedLineError,
    >)
        requires
            self is FixedWidth,
            !(spec_validate_line(self.spec_fixed().lines, line_text@) is Panic),
        ensures
            r is Ok <==> spec_validate_line(self.spec_fixed().lines, line_text@) is Done,
            r is Ok ==> r->Ok_0.line_number == line_number && r->Ok_0.linetype@
                == (spec_validate_line(self.spec_fixed().lines, line_text@)->Done_0).0
                && index_map_entries(r->Ok_0.cell_values) == (spec_validate_line(
                self.spec_fixed().lines,
                line_text@,
            )->Done_0).1,
            r is Err ==> r->Err_0.line_number == line_number && r->Err_0.message@
                == spec_validate_line(self.spec_fixed().lines, line_text@)->Fail_0,
    {
        let ghost lines = self.spec_fixed().lines;
        let ghost text = line_text@;
        let schema_lines_with_condition = self.get_line_conditions();
        if !str_eq(self.get_schema_type(), "fixedwidthschema") {
            proof {
                assert(false);
            }
            return unreached();
        }
        let match_line = self.find_matching_schema_linetype(
            line_text.as_str(),
            &schema_lines_with_condition,
        );
        let (linetype, match_line) = match match_line {
            Some(pair) => pair,
            None => {
                return Err(
                    ProcessedLineError {
                        line_number,
                        message: chars_to_string(
                            &str_to_chars("[err:001]|line|no match found for schema line type"),
                        ),
                    },
                );
            },
        };
        if match_line.maxlength > 0 && line_text.as_str().len() != match_line.maxlength {
            let mut msg = str_to_chars("[err:002]|line|maxlength|the line has length ");
            let lc = usize_to_chars(line_text.as_str().len());
            push_all(&mut msg, &lc);
            let mid = str_to_chars(" but was expected ");
            push_all(&mut msg, &mid);
            let mc = usize_to_chars(match_line.maxlength);
            push_all(&mut msg, &mc);
            return Err(ProcessedLineError { line_number, message: chars_to_string(&msg) });
        }
        let mut cell_values = im_new();
        let ghost cellsv = match_line@.cell;
        proof {
            assert(spec_validate_line(lines, text) == spec_fold_to_line(
                linetype@,
                spec_cells_fold(cellsv, text, 0, Seq::<(Seq<char>, Seq<char>)>::empty()),
            ));
        }
        let mut j: usize = 0;
        while j < match_line.cell.len()
            invariant
                0 <= j <= match_line.cell@.len(),
                self is FixedWidth,
                lines == self.spec_fixed().lines,
                cellsv == view_cells(match_line.cell@),
                text == line_text@,
                spec_validate_line(lines, text) == spec_fold_to_line(
                    linetype@,
                    spec_cells_fold(cellsv, text, 0, Seq::<(Seq<char>, Seq<char>)>::empty()),
                ),
                !(spec_cells_fold(cellsv, text, 0, Seq::<(Seq<char>, Seq<char>)>::empty())
                    is Panic),
                spec_cells_fold(cellsv, text, 0, Seq::<(Seq<char>, Seq<char>)>::empty())
                    == spec_cells_fold(cellsv, text, j as int, index_map_entries(cell_values)),
            decreases match_line.cell@.len() - j,
        {
            let cell = &match_line.cell[j];
            proof {
                assert(cellsv[j as int] == cell@);
            }
            match Self::validate_cell(cell, line_text.as_str()) {
                Ok(cell_value) => {
                    let name = cell.name.clone();
                    im_insert(&mut cell_values, name, cell_value);
                },
                Err(err) => {
                    proof {
                        assert(spec_cells_fold(cellsv, text, j as int, index_map_entries(cell_values))
                            == SpecValuesResult::Fail(err@));
                    }
                    return Err(ProcessedLineError { line_number, message: err });
                },
            }
            j += 1;
        }
        Ok(ProcessedLineOk { line_number, cell_values, linetype })
    }
}

/// Whether a cell's number format, if any, compiles.
pub open spec fn spec_cell_number_ok(c: CellV) -> bool {
    (c.format matches Some(f) && f.ctype == "number"@) ==> spec_decimal_ok(c.format->0.pattern)
}

/// Whether the validator can evaluate a conditioned cell on this record:
/// its range is well-formed, its condition is of the `string` kind and has
/// a pattern, and a number format compiles.
pub open spec fn spec_cond_cell_safe(c: CellV, text: Seq<char>) -> bool {
    &&& spec_byte_range(text, c.start as int, c.end as int) is Some
    &&& (c.linecondition_type is None || c.linecondition_type == Some("string"@))
    &&& c.linecondition_pattern is Some
    &&& spec_cell_number_ok(c)
}

/// Whether validating this record against this schema is everywhere
/// defined: every conditioned cell can be evaluated and every number
/// format compiles.
pub open spec fn spec_line_safe(lines: Seq<LineV>, text: Seq<char>) -> bool {
    &&& (forall|i: int, j: int|
        0 <= i < spec_line_conditions(lines).len() && 0 <= j < spec_line_conditions(
            lines,
        )[i].1.len() ==> spec_cond_cell_safe(#[trigger] spec_line_conditions(lines)[i].1[j], text))
    &&& (forall|i: int, j: int|
        0 <= i < lines.len() && 0 <= j < lines[i].cell.len() ==> spec_cell_number_ok(
            #[trigger] lines[i].cell[j],
        ))
}

/// A cell whose number format compiles never leaves validation undefined.
proof fn lemma_cell_no_panic(c: CellV, text: Seq<char>)
    requires
        spec_cell_number_ok(c),
    ensures
        !(spec_validate_cell(c, text) is Panic),
{
}

/// Safe conditioned cells keep the condition fold defined.
proof fn lemma_cond_cells_no_panic(cells: Seq<CellV>, text: Seq<char>, i: int, met: bool)
    requires
        forall|j: int| 0 <= j < cells.len() ==> spec_cond_cell_safe(#[trigger] cells[j], text),
    ensures
        !(spec_cond_cells(cells, text, i, met) is Err),
    decreases cells.len() - i,
{
    if 0 <= i < cells.len() {
        let c = cells[i];
        lemma_cell_no_panic(c, text);
        match spec_validate_cell(c, text) {
            SpecCellResult::Panic => {},
            SpecCellResult::Fail(m) => {
                lemma_cond_cells_no_panic(cells, text, i + 1, met);
            },
            SpecCellResult::Value(v) => {
                lemma_cond_cells_no_panic(
                    cells,
                    text,
                    i + 1,
                    spec_byte_range(text, c.start as int, c.end as int)->0
                        == c.linecondition_pattern->0,
                );
            },
        }
    }
}

/// Safe conditioned cells keep the line selection defined.
proof fn lemma_select_no_panic(conds: Seq<(Seq<char>, Seq<CellV>)>, text: Seq<char>, i: int)
    requires
        forall|k: int, j: int|
            0 <= k < conds.len() && 0 <= j < conds[k].1.len() ==> spec_cond_cell_safe(
                #[trigger] conds[k].1[j],
                text,
            ),
    ensures
        !(spec_select_lines(conds, text, i) is Err),
    decreases conds.len() - i,
{
    if 0 <= i < conds.len() {
        assert forall|j: int| 0 <= j < conds[i].1.len() implies spec_cond_cell_safe(
            #[trigger] conds[i].1[j],
            text,
        ) by {
            assert(spec_cond_cell_safe(conds[i].1[j], text));
        }
        lemma_cond_cells_no_panic(conds[i].1, text, 0, false);
        match spec_cond_cells(conds[i].1, text, 0, false) {
            Err(e) => {},
            Ok(met) => {
                if !met {
                    lemma_select_no_panic(conds, text, i + 1);
                }
            },
        }
    }
}

/// Compiling number formats keep the cells fold defined.
proof fn lemma_fold_no_panic(
    cells: Seq<CellV>,
    text: Seq<char>,
    i: int,
    acc: Seq<(Seq<char>, Seq<char>)>,
)
    requires
        forall|j: int| 0 <= j < cells.len() ==> spec_cell_number_ok(#[trigger] cells[j]),
    ensures
        !(spec_cells_fold(cells, text, i, acc) is Panic),
    decreases cells.len() - i,
{
    if 0 <= i < cells.len() {
        lemma_cell_no_panic(cells[i], text);
        match spec_validate_cell(cells[i], text) {
            SpecCellResult::Panic => {},
            SpecCellResult::Fail(m) => {},
            SpecCellResult::Value(v) => {
                lemma_fold_no_panic(
                    cells,
                    text,
                    i + 1,
                    spec_entries_insert(acc, cells[i].name, v),
                );
            },
        }
    }
}

/// A line found by type is one of the schema's lines.
proof fn lemma_find_line_in(lines: Seq<LineV>, t: Seq<char>)
    requires
        spec_find_line(lines, t) is Some,
    ensures
        exists|i: int| 0 <= i < lines.len() && lines[i] == spec_find_line(lines, t)->0,
    decreases lines.len(),
{
    if lines.len() > 0 {
        if lines[0].linetype == t {
            assert(lines[0] == spec_find_line(lines, t)->0);
        } else {
            lemma_find_line_in(lines.drop_first(), t);
            let i = choose|i: int|
                0 <= i < lines.drop_first().len() && lines.drop_first()[i] == spec_find_line(
                    lines.drop_first(),
                    t,
                )->0;
            assert(lines[i + 1] == spec_find_line(lines, t)->0);
        }
    }
}

/// Every line free of conditions is one of the schema's lines.
proof fn lemma_unconditioned_in(lines: Seq<LineV>)
    ensures
        forall|k: int|
            0 <= k < spec_unconditioned_lines(lines).len() ==> exists|i: int|
                0 <= i < lines.len() && lines[i] == #[trigger] spec_unconditioned_lines(lines)[k],
    decreases lines.len(),
{
    if lines.len() > 0 {
        let prefix = lines.drop_last();
        lemma_unconditioned_in(prefix);
        assert forall|k: int|
            0 <= k < spec_unconditioned_lines(lines).len() implies exists|i: int|
            0 <= i < lines.len() && lines[i] == #[trigger] spec_unconditioned_lines(lines)[k] by {
            if k < spec_unconditioned_lines(prefix).len() {
                let i = choose|i: int|
                    0 <= i < prefix.len() && prefix[i] == spec_unconditioned_lines(prefix)[k];
                assert(lines[i] == spec_unconditioned_lines(lines)[k]);
            } else {
                assert(lines[lines.len() - 1] == spec_unconditioned_lines(lines)[k]);
            }
        }
    }
}

/// A safe record and schema keep the whole validation defined.
pub proof fn lemma_line_safe_no_panic(lines: Seq<LineV>, text: Seq<char>)
    requires
        spec_line_safe(lines, text),
    ensures
        !(spec_validate_line(lines, text) is Panic),
{
    let conds = spec_line_conditions(lines);
    lemma_select_no_panic(conds, text, 0);
    match spec_find_matching(lines, conds, text) {
        Err(e) => {},
        Ok(None) => {},
        Ok(Some(sel)) => {
            let line = sel.1;
            let exists_in: bool = exists|i: int| 0 <= i < lines.len() && lines[i] == line;
            match spec_select_lines(conds, text, 0) {
                Err(e) => {},
                Ok(selname) => {
                    let name = match selname {
                        Some(n) => n,
                        None => Seq::<char>::empty(),
                    };
                    if name.len() == 0 {
                        lemma_unconditioned_in(lines);
                        assert(line == spec_unconditioned_lines(lines)[0]);
                        assert(exists_in);
                    } else {
                        lemma_find_line_in(lines, name);
                        assert(exists_in);
                    }
                },
            }
            let i = choose|i: int| 0 <= i < lines.len() && lines[i] == line;
            assert forall|j: int| 0 <= j < line.cell.len() implies spec_cell_number_ok(
                #[trigger] line.cell[j],
            ) by {
                assert(spec_cell_number_ok(lines[i].cell[j]));
            }
            lemma_fold_no_panic(line.cell, text, 0, Seq::<(Seq<char>, Seq<char>)>::empty());
        },
    }
}

impl Schema {
    /// Whether one cell passes the safety checks made for conditioned
    /// cells.
    fn check_cond_cell(cell: &Cell, line_text: &str) -> (r: bool)
        ensures
            r == spec_cond_cell_safe(cell@, line_text@),
    {
        if byte_range(line_text, cell.start, cell.end).is_none() {
            return false;
        }
        let type_ok = match &cell.linecondition_type {
            None => true,
            Some(t) => str_eq(t.as_str(), "string"),
        };
        if !type_ok {
            return false;
        }
        if cell.linecondition_pattern.is_none() {
            return false;
        }
        Self::check_number_format(cell)
    }

    /// Whether a cell's number format, if any, compiles.
    fn check_number_format(cell: &Cell) -> (r: bool)
        ensures
            r == spec_cell_number_ok(cell@),
    {
        match &cell.format {
            None => true,
            Some(f) => {
                if str_eq(f.ctype.as_str(), "number") {
                    DecimalFormat::new(f.pattern.as_str()).is_ok()
                } else {
                    true
                }
            },
        }
    }

    /// Validate one record after testing that validation is everywhere
    /// defined for it: `None` when a conditioned cell cannot be evaluated
    /// or a number format's pattern does not compile, else the verdict of
    /// `validate_line`.
    pub fn validate_line_checked(&self, line_number: usize, line_text: String) -> (r: Option<
        Result<ProcessedLineOk, ProcessedLineError>,
    >)
        requires
            self is FixedWidth,
        ensures
            r is Some <==> spec_line_safe(self.spec_fixed().lines, line_text@),
            r is Some ==> (r->0 is Ok <==> spec_validate_line(
                self.spec_fixed().lines,
                line_text@,
            ) is Done),
            r matches Some(Ok(ok)) ==> ok.line_number == line_number && ok.linetype@
                == (spec_validate_line(self.spec_fixed().lines, line_text@)->Done_0).0
                && index_map_entries(ok.cell_values) == (spec_validate_line(
                self.spec_fixed().lines,
                line_text@,
            )->Done_0).1,
            r matches Some(Err(e)) ==> e.line_number == line_number && e.message@
                == spec_validate_line(self.spec_fixed().lines, line_text@)->Fail_0,
    {
        let ghost lines = self.spec_fixed().lines;
        let ghost text = line_text@;
        let ghost condsv = spec_line_conditions(lines);
        let conds = self.get_line_conditions();
        let mut i: usize = 0;
        while i < conds.len()
            invariant
                0 <= i <= conds@.len(),
                self is FixedWidth,
                condsv == spec_line_conditions(self.spec_fixed().lines),
                view_cond_pairs(conds@) == condsv,
                text == line_text@,
                forall|k: int, j: int|
                    0 <= k < i && 0 <= j < condsv[k].1.len() ==> spec_cond_cell_safe(
                        #[trigger] condsv[k].1[j],
                        text,
                    ),
            decreases conds@.len() - i,
        {
            let cells = &conds[i].1;
            proof {
                assert(condsv[i as int] == (conds@[i as int].0@, view_cells(conds@[i as int].1@)));
            }
            let mut j: usize = 0;
            while j < cells.len()
                invariant
                    0 <= j <= cells@.len(),
                    self is FixedWidth,
                    condsv == spec_line_conditions(self.spec_fixed().lines),
                    0 <= i < condsv.len(),
                    condsv[i as int].1 == view_cells(cells@),
                    text == line_text@,
                    forall|j2: int|
                        0 <= j2 < j ==> spec_cond_cell_safe(
                            #[trigger] view_cells(cells@)[j2],
                            text,
                        ),
                decreases cells@.len() - j,
            {
                let cell = &cells[j];
                proof {
                    assert(view_cells(cells@)[j as int] == cell@);
                }
                if !Self::check_cond_cell(cell, line_text.as_str()) {
                    proof {
                        assert(!spec_cond_cell_safe(condsv[i as int].1[j as int], text));
                    }
                    return None;
                }
                j += 1;
            }
            i += 1;
        }
        let binding = self.get_binding();
        let ghost linesv = lines;
        let mut li: usize = 0;
        while li < binding.lines.len()
            invariant
                0 <= li <= binding.lines@.len(),
                binding@ == self.spec_fixed(),
                self is FixedWidth,
                linesv == self.spec_fixed().lines,
                linesv == crate::schema::view_lines(binding.lines@),
                forall|k: int, j: int|
                    0 <= k < li && 0 <= j < linesv[k].cell.len() ==> spec_cell_number_ok(
                        #[trigger] linesv[k].cell[j],
                    ),
            decreases binding.lines@.len() - li,
        {
            let line = &binding.lines[li];
            proof {
                assert(linesv[li as int] == line@);
            }
            let mut j: usize = 0;
            while j < line.cell.len()
                invariant
                    0 <= j <= line.cell@.len(),
                    self is FixedWidth,
                    linesv == self.spec_fixed().lines,
                    0 <= li < linesv.len(),
                    linesv[li as int].cell == view_cells(line.cell@),
                    forall|j2: int|
                        0 <= j2 < j ==> spec_cell_number_ok(#[trigger] view_cells(line.cell@)[j2]),
                decreases line.cell@.len() - j,
            {
                let cell = &line.cell[j];
                proof {
                    assert(view_cells(line.cell@)[j as int] == cell@);
                }
                if !Self::check_number_format(cell) {
                    proof {
                        assert(!spec_cell_number_ok(linesv[li as int].cell[j as int]));
                    }
                    return None;
                }
                j += 1;
            }
            li += 1;
        }
        proof {
            assert(spec_line_safe(lines, text));
            lemma_line_safe_no_panic(lines, text);
        }
        Some(self.validate_line(line_number, line_text))
    }

    /// The compiled regex of a line condition's match pattern.
    pub fn compile_line_condition(&self, line_condition: &LineCondition) -> (r: regex::Regex)
        requires
            regex_ok(line_condition.matchpattern@),
        ensures
            regex_source(r) == line_condition.matchpattern@,
    {
        match regex_new(line_condition.matchpattern.as_str()) {
            Some(re) => re,
            None => {
                proof {
                    assert(false);
                }
                unreached()
            },
        }
    }

    /// `compile_line_condition` behind a validity test: `None` when the
    /// regex engine refuses the pattern.
    pub fn try_compile_line_condition(&self, line_condition: &LineCondition) -> (r: Option<
        regex::Regex,
    >)
        ensures
            r is Some <==> regex_ok(line_condition.matchpattern@),
            r is Some ==> regex_source(r->0) == line_condition.matchpattern@,
    {
        match regex_new(line_condition.matchpattern.as_str()) {
            Some(_) => Some(self.compile_line_condition(line_condition)),
            None => None,
        }
    }

    /// The compiled regex of a cell format's pattern.
    pub fn compile_cell_format(&self, format: &Format) -> (r: regex::Regex)
        requires
            regex_ok(format.pattern@),
        ensures
            regex_source(r) == format.pattern@,
    {
        match regex_new(format.pattern.as_str()) {
            Some(re) => re,
            None => {
                proof {
                    assert(false);
                }
                unreached()
            },
        }
    }

    /// `compile_cell_format` behind a validity test: `None` when the regex
    /// engine refuses the pattern.
    pub fn try_compile_cell_format(&self, format: &Format) -> (r: Option<regex::Regex>)
        ensures
            r is Some <==> regex_ok(format.pattern@),
            r is Some ==> regex_source(r->0) == format.pattern@,
    {
        match regex_new(format.pattern.as_str()) {
            Some(_) => Some(self.compile_cell_format(format)),
            None => None,
        }
    }
}

/// The line selected for a record, with its type name.
pub open spec fn spec_selected_line(lines: Seq<LineV>, text: Seq<char>) -> (Seq<char>, LineV)
    recommends
        spec_find_matching(lines, spec_line_conditions(lines), text) matches Ok(Some(sel)),
{
    spec_find_matching(lines, spec_line_conditions(lines), text)->Ok_0->0
}

proof fn lemma_index_of_absent(es: Seq<(Seq<char>, Seq<char>)>, k: Seq<char>)
    requires
        forall|m: int| 0 <= m < es.len() ==> (#[trigger] es[m]).0 != k,
    ensures
        spec_entries_index_of(es, k) is None,
    decreases es.len(),
{
    if es.len() > 0 {
        lemma_index_of_absent(es.drop_first(), k);
    }
}

/// A cell that validated yields exactly its trimmed byte range.
proof fn lemma_cell_value_trimmed(c: CellV, text: Seq<char>)
    requires
        spec_validate_cell(c, text) is Value,
    ensures
        spec_byte_range(text, c.start as int, c.end as int) is Some,
        spec_validate_cell(c, text)->Value_0 == spec_trim_value(
            spec_byte_range(text, c.start as int, c.end as int)->0,
            spec_effective_alignment(c),
            c.padcharacter,
        ),
{
}

proof fn lemma_fold_append(
    cells: Seq<CellV>,
    text: Seq<char>,
    i: int,
    acc: Seq<(Seq<char>, Seq<char>)>,
)
    requires
        0 <= i <= cells.len(),
        spec_cells_fold(cells, text, i, acc) is Values,
        forall|a: int, b: int|
            0 <= a < b < cells.len() ==> (#[trigger] cells[a]).name != (#[trigger] cells[b]).name,
        acc.len() == i,
        forall|k: int| 0 <= k < i ==> (#[trigger] acc[k]).0 == cells[k].name,
    ensures
        ({
            let vs = spec_cells_fold(cells, text, i, acc)->Values_0;
            &&& vs.len() == cells.len()
            &&& (forall|k: int| 0 <= k < i ==> #[trigger] vs[k] == acc[k])
            &&& (forall|k: int|
                i <= k < cells.len() ==> (#[trigger] vs[k]).0 == cells[k].name
                    && spec_validate_cell(cells[k], text) is Value && vs[k].1 == spec_validate_cell(
                    cells[k],
                    text,
                )->Value_0)
        }),
    decreases cells.len() - i,
{
    if i < cells.len() {
        match spec_validate_cell(cells[i], text) {
            SpecCellResult::Panic => {},
            SpecCellResult::Fail(m) => {},
            SpecCellResult::Value(v) => {
                assert forall|m: int| 0 <= m < acc.len() implies (#[trigger] acc[m]).0
                    != cells[i].name by {
                    assert(acc[m].0 == cells[m].name);
                }
                lemma_index_of_absent(acc, cells[i].name);
                let acc2 = acc.push((cells[i].name, v));
                lemma_fold_append(cells, text, i + 1, acc2);
            },
        }
    }
}

/// For every record that validates, the collected values carry the
/// selected line's cell names in declaration order — provided those names
/// are distinct — and each value is the record's byte range for its cell,
/// trimmed by the pad characters under the effective alignment.
pub proof fn lemma_validated_record_values(lines: Seq<LineV>, text: Seq<char>)
    requires
        spec_validate_line(lines, text) is Done,
        forall|a: int, b: int|
            0 <= a < b < spec_selected_line(lines, text).1.cell.len() ==> (
            #[trigger] spec_selected_line(lines, text).1.cell[a]).name != (
            #[trigger] spec_selected_line(lines, text).1.cell[b]).name,
    ensures
        ({
            let vs = (spec_validate_line(lines, text)->Done_0).1;
            let cells = spec_selected_line(lines, text).1.cell;
            &&& vs.len() == cells.len()
            &&& (forall|k: int| 0 <= k < cells.len() ==> (#[trigger] vs[k]).0 == cells[k].name)
            &&& (forall|k: int|
                0 <= k < cells.len() ==> spec_byte_range(
                    text,
                    (#[trigger] cells[k]).start as int,
                    cells[k].end as int,
                ) is Some)
            &&& (forall|k: int|
                0 <= k < cells.len() ==> (#[trigger] vs[k]).1 == spec_trim_value(
                    spec_byte_range(text, cells[k].start as int, cells[k].end as int)->0,
                    spec_effective_alignment(cells[k]),
                    cells[k].padcharacter,
                ))
        }),
{
    let cells = spec_selected_line(lines, text).1.cell;
    lemma_fold_append(cells, text, 0, Seq::<(Seq<char>, Seq<char>)>::empty());
    let vs = (spec_validate_line(lines, text)->Done_0).1;
    assert forall|k: int| 0 <= k < cells.len() implies spec_byte_range(
        text,
        (#[trigger] cells[k]).start as int,
        cells[k].end as int,
    ) is Some && (vs[k]).1 == spec_trim_value(
        spec_byte_range(text, cells[k].start as int, cells[k].end as int)->0,
        spec_effective_alignment(cells[k]),
        cells[k].padcharacter,
    ) by {
        assert((vs[k]).1 == spec_validate_cell(cells[k], text)->Value_0);
        lemma_cell_value_trimmed(cells[k], text);
    }
}

proof fn lemma_trim_start_no_leading(s: Seq<char>, pads: Seq<char>)
    ensures
        spec_trim_start(s, pads).len() > 0 ==> !pads.contains(spec_trim_start(s, pads)[0]),
    decreases s.len(),
{
    if s.len() > 0 && pads.contains(s[0]) {
        lemma_trim_start_no_leading(s.drop_first(), pads);
    }
}

proof fn lemma_trim_end_no_trailing(s: Seq<char>, pads: Seq<char>)
    ensures
        spec_trim_end(s, pads).len() > 0 ==> !pads.contains(
            spec_trim_end(s, pads)[spec_trim_end(s, pads).len() - 1],
        ),
    decreases s.len(),
{
    if s.len() > 0 && pads.contains(s[s.len() - 1]) {
        lemma_trim_end_no_trailing(s.drop_last(), pads);
    }
}

proof fn lemma_trim_start_of_padded(lead: Seq<char>, v: Seq<char>, pads: Seq<char>)
    requires
        forall|m: int| 0 <= m < lead.len() ==> pads.contains(#[trigger] lead[m]),
        v.len() > 0 ==> !pads.contains(v[0]),
    ensures
        spec_trim_start(lead + v, pads) == v,
    decreases lead.len(),
{
    if lead.len() == 0 {
        assert(lead + v =~= v);
    } else {
        assert((lead + v)[0] == lead[0]);
        assert((lead + v).drop_first() =~= lead.drop_first() + v);
        lemma_trim_start_of_padded(lead.drop_first(), v, pads);
    }
}

proof fn lemma_trim_end_of_padded(v: Seq<char>, tail: Seq<char>, pads: Seq<char>)
    requires
        forall|m: int| 0 <= m < tail.len() ==> pads.contains(#[trigger] tail[m]),
        v.len() > 0 ==> !pads.contains(v[v.len() - 1]),
    ensures
        spec_trim_end(v + tail, pads) == v,
    decreases tail.len(),
{
    if tail.len() == 0 {
        assert(v + tail =~= v);
    } else {
        assert((v + tail)[(v + tail).len() - 1] == tail[tail.len() - 1]);
        assert((v + tail).drop_last() =~= v + tail.drop_last());
        lemma_trim_end_of_padded(v, tail.drop_last(), pads);
    }
}

/// Laying a validated cell value out again — padded back to its range with
/// the cell's pad characters under its effective alignment — and
/// validating the cell against the rebuilt record yields the same value.
/// Alignments other than `right`, `left` and `center` trim nothing and are
/// left out, as is padding on the side an alignment does not trim.
pub proof fn lemma_cell_value_round_trip(
    c: CellV,
    text: Seq<char>,
    lead: Seq<char>,
    tail: Seq<char>,
    rebuilt: Seq<char>,
)
    requires
        spec_validate_cell(c, text) is Value,
        forall|m: int| 0 <= m < lead.len() ==> c.padcharacter.contains(#[trigger] lead[m]),
        forall|m: int| 0 <= m < tail.len() ==> c.padcharacter.contains(#[trigger] tail[m]),
        spec_effective_alignment(c) == "right"@ || spec_effective_alignment(c) == "left"@
            || spec_effective_alignment(c) == "center"@,
        spec_effective_alignment(c) == "right"@ ==> tail.len() == 0,
        spec_effective_alignment(c) == "left"@ ==> lead.len() == 0,
        spec_byte_range(rebuilt, c.start as int, c.end as int) == Some(
            lead + spec_validate_cell(c, text)->Value_0 + tail,
        ),
    ensures
        spec_validate_cell(c, rebuilt) == spec_validate_cell(c, text),
{
    let pads = c.padcharacter;
    let al = spec_effective_alignment(c);
    let raw = spec_byte_range(text, c.start as int, c.end as int)->0;
    let v = spec_validate_cell(c, text)->Value_0;
    lemma_cell_value_trimmed(c, text);
    let raw2 = lead + v + tail;
    if al == "right"@ {
        lemma_trim_start_no_leading(raw, pads);
        assert(raw2 =~= lead + v);
        lemma_trim_start_of_padded(lead, v, pads);
        assert(spec_trim_value(raw2, al, pads) == v);
    } else if al == "left"@ {
        lemma_trim_end_no_trailing(raw, pads);
        assert(raw2 =~= v + tail);
        lemma_trim_end_of_padded(v, tail, pads);
        assert(spec_trim_value(raw2, al, pads) == v);
    } else {
        let started = spec_trim_start(raw, pads);
        lemma_trim_start_no_leading(raw, pads);
        lemma_trim_end_no_trailing(started, pads);
        if v.len() == 0 {
            assert forall|m: int| 0 <= m < (lead + tail).len() implies pads.contains(
                #[trigger] (lead + tail)[m],
            ) by {
                if m < lead.len() {
                    assert((lead + tail)[m] == lead[m]);
                } else {
                    assert((lead + tail)[m] == tail[m - lead.len()]);
                }
            }
            assert(raw2 =~= (lead + tail) + Seq::<char>::empty());
            lemma_trim_start_of_padded(lead + tail, Seq::<char>::empty(), pads);
            assert(spec_trim_start(raw2, pads) =~= Seq::<char>::empty());
            assert(spec_trim_value(raw2, al, pads) == v);
        } else {
            assert(v[0] == started[0]) by {
                assert(v == spec_trim_end(started, pads));
                assert(spec_trim_end(started, pads).len() > 0);
                lemma_trim_end_prefix(started, pads);
            }
            assert(!pads.contains(v[0]));
            assert(raw2 =~= lead + (v + tail));
            lemma_trim_start_of_padded(lead, v + tail, pads);
            assert((v + tail)[0] == v[0]);
            assert(spec_trim_start(raw2, pads) == v + tail);
            lemma_trim_end_of_padded(v, tail, pads);
            assert(spec_trim_value(raw2, al, pads) == v);
        }
    }
}

/// The end trim yields a prefix: element for element.
proof fn lemma_trim_end_prefix(s: Seq<char>, pads: Seq<char>)
    ensures
        spec_trim_end(s, pads).len() <= s.len(),
        forall|m: int|
            0 <= m < spec_trim_end(s, pads).len() ==> #[trigger] spec_trim_end(s, pads)[m] == s[m],
    decreases s.len(),
{
    if s.len() > 0 && pads.contains(s[s.len() - 1]) {
        lemma_trim_end_prefix(s.drop_last(), pads);
    }
}

/// How one cell of a rebuilt record is laid out again: its validated value
/// padded with the cell's pad characters on the side its alignment trims,
/// sitting at the cell's own byte range of the rebuilt record.
pub open spec fn spec_cell_relaid(
    c: CellV,
    text: Seq<char>,
    rebuilt: Seq<char>,
    lead: Seq<char>,
    tail: Seq<char>,
) -> bool {
    &&& (forall|m: int| 0 <= m < lead.len() ==> c.padcharacter.contains(#[trigger] lead[m]))
    &&& (forall|m: int| 0 <= m < tail.len() ==> c.padcharacter.contains(#[trigger] tail[m]))
    &&& (spec_effective_alignment(c) == "right"@ || spec_effective_alignment(c) == "left"@
        || spec_effective_alignment(c) == "center"@)
    &&& (spec_effective_alignment(c) == "right"@ ==> tail.len() == 0)
    &&& (spec_effective_alignment(c) == "left"@ ==> lead.len() == 0)
    &&& spec_byte_range(rebuilt, c.start as int, c.end as int) == Some(
        lead + spec_validate_cell(c, text)->Value_0 + tail,
    )
}

/// In a fold that succeeds, every cell validated.
proof fn lemma_fold_all_value(
    cells: Seq<CellV>,
    text: Seq<char>,
    i: int,
    acc: Seq<(Seq<char>, Seq<char>)>,
)
    requires
        0 <= i,
        spec_cells_fold(cells, text, i, acc) is Values,
    ensures
        forall|k: int|
            i <= k < cells.len() ==> spec_validate_cell(#[trigger] cells[k], text) is Value,
    decreases cells.len() - i,
{
    if 0 <= i < cells.len() {
        match spec_validate_cell(cells[i], text) {
            SpecCellResult::Panic => {},
            SpecCellResult::Fail(m) => {},
            SpecCellResult::Value(v) => {
                lemma_fold_all_value(
                    cells,
                    text,
                    i + 1,
                    spec_entries_insert(acc, cells[i].name, v),
                );
            },
        }
    }
}

/// Cells that validate alike fold alike.
proof fn lemma_fold_equal(
    cells: Seq<CellV>,
    text: Seq<char>,
    rebuilt: Seq<char>,
    i: int,
    acc: Seq<(Seq<char>, Seq<char>)>,
)
    requires
        forall|k: int|
            0 <= k < cells.len() ==> spec_validate_cell(#[trigger] cells[k], rebuilt)
                == spec_validate_cell(cells[k], text),
    ensures
        spec_cells_fold(cells, rebuilt, i, acc) == spec_cells_fold(cells, text, i, acc),
    decreases cells.len() - i,
{
    if 0 <= i < cells.len() {
        match spec_validate_cell(cells[i], text) {
            SpecCellResult::Panic => {},
            SpecCellResult::Fail(m) => {},
            SpecCellResult::Value(v) => {
                lemma_fold_equal(
                    cells,
                    text,
                    rebuilt,
                    i + 1,
                    spec_entries_insert(acc, cells[i].name, v),
                );
            },
        }
    }
}

/// Reconstructing a validated record — every cell's value laid out again
/// at its own range, padded under its alignment — and validating the
/// reconstruction returns the same line type and the same cell values.
/// The reconstruction must select the same line (a rebuilt conditioned
/// cell can otherwise change the choice), must keep the record length
/// where the line bounds it, and cells of the `right`, `left` and `center`
/// alignments alone are covered: any other alignment trims nothing, so
/// only the identical text re-validates.
pub proof fn lemma_record_round_trip(
    lines: Seq<LineV>,
    text: Seq<char>,
    rebuilt: Seq<char>,
    leads: Seq<Seq<char>>,
    tails: Seq<Seq<char>>,
)
    requires
        spec_validate_line(lines, text) is Done,
        spec_find_matching(lines, spec_line_conditions(lines), rebuilt) == spec_find_matching(
            lines,
            spec_line_conditions(lines),
            text,
        ),
        spec_selected_line(lines, text).1.maxlength > 0 ==> spec_byte_len(rebuilt) as nat
            == spec_selected_line(lines, text).1.maxlength,
        leads.len() == spec_selected_line(lines, text).1.cell.len(),
        tails.len() == spec_selected_line(lines, text).1.cell.len(),
        forall|k: int|
            0 <= k < spec_selected_line(lines, text).1.cell.len() ==> spec_cell_relaid(
                #[trigger] spec_selected_line(lines, text).1.cell[k],
                text,
                rebuilt,
                leads[k],
                tails[k],
            ),
    ensures
        spec_validate_line(lines, rebuilt) == spec_validate_line(lines, text),
{
    let cells = spec_selected_line(lines, text).1.cell;
    lemma_fold_all_value(cells, text, 0, Seq::<(Seq<char>, Seq<char>)>::empty());
    assert forall|k: int| 0 <= k < cells.len() implies spec_validate_cell(
        #[trigger] cells[k],
        rebuilt,
    ) == spec_validate_cell(cells[k], text) by {
        assert(spec_cell_relaid(cells[k], text, rebuilt, leads[k], tails[k]));
        lemma_cell_value_round_trip(cells[k], text, leads[k], tails[k], rebuilt);
    }
    lemma_fold_equal(cells, text, rebuilt, 0, Seq::<(Seq<char>, Seq<char>)>::empty());
}

} // verus!
