//! The schema loader: an XML event stream is reduced, event by event, to a
//! `Schema`. Element and attribute handling, offset computation and the
//! structural checks (duplicate line types, string-format regexes) are
//! verified against a specification fold over the token sequence; only the
//! XML tokenisation itself is trusted.

use vstd::prelude::*;

use crate::regex_support::{regex_new, regex_ok};
use crate::schema::{
    Cell, CellV, FixedWidthSchema, FixedWidthSchemaV, Format, FormatV, Line, LineV, Schema, SchemaV,
    view_cells, view_lines,
};
use crate::text::{chars_to_string, lower_of, lowercase, parse_usize_or_zero, push_all,
    spec_parse_usize, str_eq, str_to_chars};

verus! {

broadcast use vstd::string::group_string_axioms;

/// One event of the XML stream, reduced to what the loader reads: element
/// starts with their attributes, element ends, parse errors, and anything
/// else.
pub enum XmlToken {
    Start { name: String, attrs: Vec<(String, String)> },
    End { name: String },
    Error,
    Other,
}

/// The abstract value of an `XmlToken`.
pub enum XmlTokenV {
    Start { name: Seq<char>, attrs: Seq<(Seq<char>, Seq<char>)> },
    End { name: Seq<char> },
    Error,
    Other,
}

/// The abstract values of an attribute list.
pub open spec fn view_attrs(attrs: Seq<(String, String)>) -> Seq<(Seq<char>, Seq<char>)> {
    Seq::new(attrs.len(), |i: int| (attrs[i].0@, attrs[i].1@))
}

impl View for XmlToken {
    type V = XmlTokenV;

    open spec fn view(&self) -> XmlTokenV {
        match self {
            XmlToken::Start { name, attrs } => XmlTokenV::Start {
                name: name@,
                attrs: view_attrs(attrs@),
            },
            XmlToken::End { name } => XmlTokenV::End { name: name@ },
            XmlToken::Error => XmlTokenV::Error,
            XmlToken::Other => XmlTokenV::Other,
        }
    }
}

/// The abstract values of a token list.
pub open spec fn view_tokens(ts: Seq<XmlToken>) -> Seq<XmlTokenV> {
    Seq::new(ts.len(), |i: int| ts[i]@)
}

/// The token stream the XML parser produces for a schema text: a function
/// of the text alone.
pub uninterp spec fn xml_events(text: Seq<char>) -> Seq<XmlTokenV>;

/// Relies on `xml::reader::EventReader`: parsing the text yields a stream
/// of events, ending at the first error or at the end of the document.
#[verifier::external_body]
fn read_xml_tokens(text: &str) -> (r: Vec<XmlToken>)
    ensures
        view_tokens(r@) == xml_events(text@),
{
    let mut out = Vec::new();
    for e in xml::reader::EventReader::from_str(text) {
        out.push(match e {
            Ok(xml::reader::XmlEvent::StartElement { name, attributes, .. }) => XmlToken::Start {
                name: name.local_name,
                attrs: attributes.into_iter().map(|a| (a.name.local_name, a.value)).collect(),
            },
            Ok(xml::reader::XmlEvent::EndElement { name }) => XmlToken::End {
                name: name.local_name,
            },
            Ok(_) => XmlToken::Other,
            Err(_) => XmlToken::Error,
        });
    }
    out
}

/// The loader's running state while it folds over the token stream.
#[verifier::ext_equal]
pub struct BuildStateV {
    pub fixed: Option<FixedWidthSchemaV>,
    pub temp_line: LineV,
    pub in_line: bool,
    pub in_cell: bool,
    pub temp_format: Option<FormatV>,
    pub end_cell: nat,
    pub seen: Seq<Seq<char>>,
}

/// A fresh line under construction: empty fields and a single-space pad.
pub open spec fn spec_fresh_line() -> LineV {
    LineV {
        linetype: Seq::<char>::empty(),
        maxlength: 0,
        occurs: Seq::<char>::empty(),
        cell: Seq::<CellV>::empty(),
        minlength: 0,
        padcharacter: seq![' '],
    }
}

/// The loader's state before the first token.
pub open spec fn spec_initial_state() -> BuildStateV {
    BuildStateV {
        fixed: None,
        temp_line: spec_fresh_line(),
        in_line: false,
        in_cell: false,
        temp_format: None,
        end_cell: 0,
        seen: Seq::<Seq<char>>::empty(),
    }
}

/// The value of the last attribute named `key`, from position `i` on, with
/// `cur` carried in.
pub open spec fn spec_attr_value_from(
    attrs: Seq<(Seq<char>, Seq<char>)>,
    i: int,
    key: Seq<char>,
    cur: Seq<char>,
) -> Seq<char>
    decreases attrs.len() - i,
{
    if i < 0 || i >= attrs.len() {
        cur
    } else {
        spec_attr_value_from(
            attrs,
            i + 1,
            key,
            if attrs[i].0 == key {
                attrs[i].1
            } else {
                cur
            },
        )
    }
}

/// The value of the last attribute named `key`, or `dflt`.
pub open spec fn spec_attr_value(
    attrs: Seq<(Seq<char>, Seq<char>)>,
    key: Seq<char>,
    dflt: Seq<char>,
) -> Seq<char> {
    spec_attr_value_from(attrs, 0, key, dflt)
}

/// The lowercased value of the last attribute named `key`, from `i` on.
pub open spec fn spec_attr_lower_from(
    attrs: Seq<(Seq<char>, Seq<char>)>,
    i: int,
    key: Seq<char>,
    cur: Seq<char>,
) -> Seq<char>
    decreases attrs.len() - i,
{
    if i < 0 || i >= attrs.len() {
        cur
    } else {
        spec_attr_lower_from(
            attrs,
            i + 1,
            key,
            if attrs[i].0 == key {
                lower_of(attrs[i].1)
            } else {
                cur
            },
        )
    }
}

/// The lowercased value of the last attribute named `key`, or empty.
pub open spec fn spec_attr_lower(attrs: Seq<(Seq<char>, Seq<char>)>, key: Seq<char>) -> Seq<char> {
    spec_attr_lower_from(attrs, 0, key, Seq::<char>::empty())
}

/// `str::parse::<usize>` with `0` for any failure.
pub open spec fn spec_parse0(s: Seq<char>) -> nat {
    match spec_parse_usize(s) {
        Some(v) => v,
        None => 0,
    }
}

/// The `line` element's attributes applied in order to a fresh line,
/// checking each `linetype` against the types already seen.
pub open spec fn spec_line_attrs_from(
    attrs: Seq<(Seq<char>, Seq<char>)>,
    i: int,
    line: LineV,
    seen: Seq<Seq<char>>,
) -> Result<(LineV, Seq<Seq<char>>), Seq<char>>
    decreases attrs.len() - i,
{
    if i < 0 || i >= attrs.len() {
        Ok((line, seen))
    } else {
        let key = attrs[i].0;
        let value = attrs[i].1;
        if key == "linetype"@ {
            if seen.contains(value) {
                Err("Duplicate linetype: "@ + value)
            } else {
                spec_line_attrs_from(
                    attrs,
                    i + 1,
                    LineV { linetype: value, ..line },
                    seen.push(value),
                )
            }
        } else if key == "occurs"@ {
            spec_line_attrs_from(attrs, i + 1, LineV { occurs: value, ..line }, seen)
        } else if key == "maxlength"@ {
            spec_line_attrs_from(attrs, i + 1, LineV { maxlength: spec_parse0(value), ..line }, seen)
        } else if key == "minlength"@ {
            spec_line_attrs_from(attrs, i + 1, LineV { minlength: spec_parse0(value), ..line }, seen)
        } else if key == "padcharacter"@ {
            spec_line_attrs_from(attrs, i + 1, LineV { padcharacter: value, ..line }, seen)
        } else {
            spec_line_attrs_from(attrs, i + 1, line, seen)
        }
    }
}

/// The cell a `cell` element's attributes describe, before offsets.
pub open spec fn spec_cell_of_attrs(attrs: Seq<(Seq<char>, Seq<char>)>, line_pad: Seq<char>) -> (
    Seq<char>,
    nat,
    Seq<char>,
    Seq<char>,
) {
    (
        spec_attr_value(attrs, "name"@, Seq::<char>::empty()),
        spec_parse0(spec_attr_value(attrs, "length"@, Seq::<char>::empty())),
        spec_attr_value(attrs, "alignment"@, Seq::<char>::empty()),
        spec_attr_value(attrs, "padcharacter"@, line_pad),
    )
}

/// One token applied to the loader's state.
pub open spec fn spec_build_step(st: BuildStateV, t: XmlTokenV) -> Result<BuildStateV, Seq<char>> {
    match t {
        XmlTokenV::Error => Err("Error parsing XML"@),
        XmlTokenV::Other => Ok(st),
        XmlTokenV::Start { name, attrs } => {
            if name == "fixedwidthschema"@ {
                Ok(
                    BuildStateV {
                        fixed: Some(
                            FixedWidthSchemaV {
                                lineseparator: spec_attr_value(attrs, "lineseparator"@, "\n"@),
                                lines: Seq::<LineV>::empty(),
                            },
                        ),
                        ..st
                    },
                )
            } else if name == "line"@ {
                match spec_line_attrs_from(attrs, 0, spec_fresh_line(), st.seen) {
                    Err(e) => Err(e),
                    Ok((line, seen)) => Ok(
                        BuildStateV { in_line: true, temp_line: line, seen, ..st },
                    ),
                }
            } else if name == "cell"@ && st.in_line {
                let (cname, clen, calign, cpad) = spec_cell_of_attrs(
                    attrs,
                    st.temp_line.padcharacter,
                );
                if st.end_cell + clen > usize::MAX {
                    Err("cell offsets exceed the machine limit"@)
                } else {
                    let cell = CellV {
                        name: cname,
                        length: clen,
                        start: st.end_cell,
                        end: st.end_cell + clen,
                        format: None,
                        linecondition_type: None,
                        linecondition_pattern: None,
                        alignment: calign,
                        padcharacter: cpad,
                    };
                    Ok(
                        BuildStateV {
                            in_cell: true,
                            end_cell: st.end_cell + clen,
                            temp_line: LineV {
                                cell: st.temp_line.cell.push(cell),
                                ..st.temp_line
                            },
                            ..st
                        },
                    )
                }
            } else if name == "format"@ && st.in_cell {
                let ctype = spec_attr_lower(attrs, "type"@);
                let pattern = spec_attr_value(attrs, "pattern"@, Seq::<char>::empty());
                if ctype == "string"@ {
                    if regex_ok(pattern) {
                        Ok(
                            BuildStateV {
                                temp_format: Some(
                                    FormatV { ctype, pattern, regex_pattern: Some(pattern) },
                                ),
                                ..st
                            },
                        )
                    } else {
                        Err("Error compiling regex pattern: "@ + pattern)
                    }
                } else {
                    Ok(
                        BuildStateV {
                            temp_format: Some(FormatV { ctype, pattern, regex_pattern: None }),
                            ..st
                        },
                    )
                }
            } else if name == "match"@ && st.in_cell {
                let mtype = spec_attr_lower(attrs, "type"@);
                let mpattern = spec_attr_value(attrs, "pattern"@, Seq::<char>::empty());
                if st.temp_line.cell.len() > 0 {
                    let li = st.temp_line.cell.len() - 1;
                    let updated = CellV {
                        linecondition_type: Some(mtype),
                        linecondition_pattern: Some(mpattern),
                        ..st.temp_line.cell.last()
                    };
                    Ok(
                        BuildStateV {
                            temp_line: LineV {
                                cell: st.temp_line.cell.update(li, updated),
                                ..st.temp_line
                            },
                            ..st
                        },
                    )
                } else {
                    Ok(st)
                }
            } else {
                Ok(st)
            }
        },
        XmlTokenV::End { name } => {
            if name == "cell"@ {
                if st.in_cell {
                    if st.temp_line.cell.len() > 0 {
                        let li = st.temp_line.cell.len() - 1;
                        let updated = CellV {
                            format: st.temp_format,
                            ..st.temp_line.cell.last()
                        };
                        Ok(
                            BuildStateV {
                                in_cell: false,
                                temp_format: None,
                                temp_line: LineV {
                                    cell: st.temp_line.cell.update(li, updated),
                                    ..st.temp_line
                                },
                                ..st
                            },
                        )
                    } else {
                        Ok(BuildStateV { in_cell: false, ..st })
                    }
                } else {
                    Ok(st)
                }
            } else if name == "line"@ {
                if st.in_line {
                    match st.fixed {
                        Some(f) => Ok(
                            BuildStateV {
                                fixed: Some(
                                    FixedWidthSchemaV {
                                        lines: f.lines.push(st.temp_line),
                                        ..f
                                    },
                                ),
                                in_line: false,
                                end_cell: 0,
                                ..st
                            },
                        ),
                        None => Ok(BuildStateV { in_line: false, end_cell: 0, ..st }),
                    }
                } else {
                    Ok(st)
                }
            } else {
                Ok(st)
            }
        },
    }
}

/// The loader's fold from token `i` on.
pub open spec fn spec_build_from(tokens: Seq<XmlTokenV>, i: int, st: BuildStateV) -> Result<
    BuildStateV,
    Seq<char>,
>
    decreases tokens.len() - i,
{
    if i < 0 || i >= tokens.len() {
        Ok(st)
    } else {
        match spec_build_step(st, tokens[i]) {
            Err(e) => Err(e),
            Ok(st2) => spec_build_from(tokens, i + 1, st2),
        }
    }
}

/// The schema a token stream describes, or the loader's error.
pub open spec fn spec_build(tokens: Seq<XmlTokenV>) -> Result<SchemaV, Seq<char>> {
    match spec_build_from(tokens, 0, spec_initial_state()) {
        Err(e) => Err(e),
        Ok(st) => match st.fixed {
            Some(f) => Ok(SchemaV::FixedWidth(f)),
            None => Err("no fixedwidthschema element in schema"@),
        },
    }
}

/// The abstract values of a vector of strings.
pub open spec fn view_strings(ss: Seq<String>) -> Seq<Seq<char>> {
    Seq::new(ss.len(), |i: int| ss[i]@)
}

/// The loader state a set of executable locals stands for.
pub open spec fn st_of(
    fixed: Option<FixedWidthSchema>,
    temp_line: Line,
    in_line: bool,
    in_cell: bool,
    temp_format: Option<Format>,
    end_cell: usize,
    seen: Seq<String>,
) -> BuildStateV {
    BuildStateV {
        fixed: match fixed {
            Some(f) => Some(f@),
            None => None,
        },
        temp_line: temp_line@,
        in_line,
        in_cell,
        temp_format: match temp_format {
            Some(f) => Some(f@),
            None => None,
        },
        end_cell: end_cell as nat,
        seen: view_strings(seen),
    }
}

/// The value of the last attribute named `key`, or `dflt`.
fn attr_value(attrs: &Vec<(String, String)>, key: &str, dflt: String) -> (r: String)
    ensures
        r@ == spec_attr_value(view_attrs(attrs@), key@, dflt@),
{
    let ghost avs = view_attrs(attrs@);
    let mut cur = dflt;
    let mut j: usize = 0;
    while j < attrs.len()
        invariant
            0 <= j <= attrs@.len(),
            avs == view_attrs(attrs@),
            spec_attr_value_from(avs, j as int, key@, cur@) == spec_attr_value(avs, key@, dflt@),
        decreases attrs@.len() - j,
    {
        if str_eq(attrs[j].0.as_str(), key) {
            cur = attrs[j].1.clone();
        }
        j += 1;
    }
    cur
}

/// The lowercased value of the last attribute named `key`, or empty.
fn attr_lower(attrs: &Vec<(String, String)>, key: &str) -> (r: String)
    ensures
        r@ == spec_attr_lower(view_attrs(attrs@), key@),
{
    let ghost avs = view_attrs(attrs@);
    let mut cur = String::new();
    let mut j: usize = 0;
    while j < attrs.len()
        invariant
            0 <= j <= attrs@.len(),
            avs == view_attrs(attrs@),
            spec_attr_lower_from(avs, j as int, key@, cur@) == spec_attr_lower(avs, key@),
        decreases attrs@.len() - j,
    {
        if str_eq(attrs[j].0.as_str(), key) {
            cur = lowercase(attrs[j].1.as_str());
        }
        j += 1;
    }
    cur
}

/// Whether any string of `seen` holds the characters of `value`.
fn seen_contains(seen: &Vec<String>, value: &str) -> (r: bool)
    ensures
        r == view_strings(seen@).contains(value@),
{
    let mut j: usize = 0;
    while j < seen.len()
        invariant
            0 <= j <= seen@.len(),
            forall|k: int| 0 <= k < j ==> view_strings(seen@)[k] != value@,
        decreases seen@.len() - j,
    {
        if str_eq(seen[j].as_str(), value) {
            proof {
                assert(view_strings(seen@)[j as int] == value@);
            }
            return true;
        }
        j += 1;
    }
    proof {
        assert(!view_strings(seen@).contains(value@)) by {
            if view_strings(seen@).contains(value@) {
                let k = choose|k: int|
                    0 <= k < view_strings(seen@).len() && view_strings(seen@)[k] == value@;
                assert(view_strings(seen@)[k] != value@);
            }
        }
    }
    false
}

/// Apply a `line` element's attributes to a fresh line, recording each new
/// line type and refusing a duplicate.
fn apply_line_attrs(attrs: &Vec<(String, String)>, seen: &mut Vec<String>) -> (r: Result<
    Line,
    String,
>)
    ensures
        r is Ok <==> spec_line_attrs_from(
            view_attrs(attrs@),
            0,
            spec_fresh_line(),
            view_strings(old(seen)@),
        ) is Ok,
        r is Ok ==> (r->Ok_0@, view_strings(final(seen)@)) == spec_line_attrs_from(
            view_attrs(attrs@),
            0,
            spec_fresh_line(),
            view_strings(old(seen)@),
        )->Ok_0,
        r is Err ==> r->Err_0@ == spec_line_attrs_from(
            view_attrs(attrs@),
            0,
            spec_fresh_line(),
            view_strings(old(seen)@),
        )->Err_0,
{
    let ghost avs = view_attrs(attrs@);
    let ghost total = spec_line_attrs_from(avs, 0, spec_fresh_line(), view_strings(seen@));
    let mut space: Vec<char> = Vec::new();
    space.push(' ');
    let mut line = Line {
        linetype: String::new(),
        maxlength: 0,
        occurs: String::new(),
        cell: Vec::new(),
        minlength: 0,
        padcharacter: chars_to_string(&space),
    };
    proof {
        assert(space@ =~= seq![' ']);
    }
    proof {
        assert(view_cells(line.cell@) =~= Seq::<CellV>::empty());
        assert(line@ =~= spec_fresh_line());
    }
    let mut j: usize = 0;
    while j < attrs.len()
        invariant
            0 <= j <= attrs@.len(),
            avs == view_attrs(attrs@),
            total == spec_line_attrs_from(
                view_attrs(attrs@),
                0,
                spec_fresh_line(),
                view_strings(old(seen)@),
            ),
            total == spec_line_attrs_from(avs, j as int, line@, view_strings(seen@)),
        decreases attrs@.len() - j,
    {
        let key = &attrs[j].0;
        let value = &attrs[j].1;
        let ghost prev_line = line@;
        let ghost prev_seen = view_strings(seen@);
        proof {
            assert(avs[j as int] == (attrs@[j as int].0@, attrs@[j as int].1@));
        }
        if str_eq(key.as_str(), "linetype") {
            if seen_contains(seen, value.as_str()) {
                let mut msg = str_to_chars("Duplicate linetype: ");
                let vc = str_to_chars(value.as_str());
                push_all(&mut msg, &vc);
                proof {
                    assert(spec_line_attrs_from(avs, j as int, line@, view_strings(seen@))
                        == Err::<(LineV, Seq<Seq<char>>), Seq<char>>("Duplicate linetype: "@ + value@));
                    assert(msg@ == "Duplicate linetype: "@ + value@);
                }
                return Err(chars_to_string(&msg));
            }
            seen.push(value.clone());
            line.linetype = value.clone();
            proof {
                assert(view_strings(seen@) =~= prev_seen.push(value@));
                assert(line@ =~= LineV { linetype: value@, ..prev_line });
            }
        } else if str_eq(key.as_str(), "occurs") {
            line.occurs = value.clone();
            proof {
                assert(line@ =~= LineV { occurs: value@, ..prev_line });
            }
        } else if str_eq(key.as_str(), "maxlength") {
            let vc = str_to_chars(value.as_str());
            line.maxlength = parse_usize_or_zero(&vc);
            proof {
                assert(line@ =~= LineV { maxlength: spec_parse0(value@), ..prev_line });
            }
        } else if str_eq(key.as_str(), "minlength") {
            let vc = str_to_chars(value.as_str());
            line.minlength = parse_usize_or_zero(&vc);
            proof {
                assert(line@ =~= LineV { minlength: spec_parse0(value@), ..prev_line });
            }
        } else if str_eq(key.as_str(), "padcharacter") {
            line.padcharacter = value.clone();
            proof {
                assert(line@ =~= LineV { padcharacter: value@, ..prev_line });
            }
        }
        j += 1;
    }
    Ok(line)
}

impl Schema {
    /// Reduce a token stream to a schema: elements open and close the
    /// current line and cell, offsets accumulate, duplicate line types and
    /// bad string-format regexes abort the load.
    pub fn build_from_tokens(tokens: &Vec<XmlToken>) -> (r: Result<Schema, String>)
        ensures
            r is Ok <==> spec_build(view_tokens(tokens@)) is Ok,
            r is Ok ==> r->Ok_0@ == spec_build(view_tokens(tokens@))->Ok_0,
            r is Err ==> r->Err_0@ == spec_build(view_tokens(tokens@))->Err_0,
    {
        let ghost toks = view_tokens(tokens@);
        let mut schema_fixed: Option<FixedWidthSchema> = None;
        let mut space: Vec<char> = Vec::new();
        space.push(' ');
        proof {
            assert(space@ =~= seq![' ']);
        }
        let mut temp_line = Line {
            linetype: String::new(),
            maxlength: 0,
            occurs: String::new(),
            cell: Vec::new(),
            minlength: 0,
            padcharacter: chars_to_string(&space),
        };
        let mut in_line = false;
        let mut in_cell = false;
        let mut temp_format: Option<Format> = None;
        let mut end_cell: usize = 0;
        let mut seen: Vec<String> = Vec::new();
        proof {
            assert(view_cells(temp_line.cell@) =~= Seq::<CellV>::empty());
            assert(view_strings(seen@) =~= Seq::<Seq<char>>::empty());
            assert(st_of(schema_fixed, temp_line, in_line, in_cell, temp_format, end_cell, seen@)
                =~~= spec_initial_state());
        }
        let mut i: usize = 0;
        while i < tokens.len()
            invariant
                0 <= i <= tokens@.len(),
                toks == view_tokens(tokens@),
                spec_build_from(
                    toks,
                    i as int,
                    st_of(schema_fixed, temp_line, in_line, in_cell, temp_format, end_cell, seen@),
                ) == spec_build_from(toks, 0, spec_initial_state()),
            decreases tokens@.len() - i,
        {
            let ghost prev = st_of(
                schema_fixed,
                temp_line,
                in_line,
                in_cell,
                temp_format,
                end_cell,
                seen@,
            );
            proof {
                assert(toks[i as int] == tokens@[i as int]@);
                reveal_strlit("fixedwidthschema");
                reveal_strlit("line");
                reveal_strlit("cell");
                reveal_strlit("format");
                reveal_strlit("match");
            }
            match &tokens[i] {
                XmlToken::Error => {
                    proof {
                        assert(spec_build_from(toks, i as int, prev) == Err::<
                            BuildStateV,
                            Seq<char>,
                        >("Error parsing XML"@));
                    }
                    return Err(chars_to_string(&str_to_chars("Error parsing XML")));
                },
                XmlToken::Other => {
                    proof {
                        assert(spec_build_step(prev, toks[i as int]) == Ok::<
                            BuildStateV,
                            Seq<char>,
                        >(prev));
                    }
                },
                XmlToken::End { name } => {
                    if str_eq(name.as_str(), "cell") {
                        if in_cell {
                            if temp_line.cell.len() > 0 {
                                let f = temp_format;
                                temp_format = None;
                                let mut c = temp_line.cell.pop().unwrap();
                                c.format = f;
                                temp_line.cell.push(c);
                                proof {
                                    assert(view_cells(temp_line.cell@) =~= prev.temp_line.cell
                                        .update(
                                        prev.temp_line.cell.len() - 1,
                                        CellV {
                                            format: prev.temp_format,
                                            ..prev.temp_line.cell.last()
                                        },
                                    ));
                                }
                            }
                            in_cell = false;
                        }
                    } else if str_eq(name.as_str(), "line") {
                        if in_line {
                            let sf = schema_fixed;
                            schema_fixed = match sf {
                                Some(mut f) => {
                                    let l = temp_line.clone();
                                    f.lines.push(l);
                                    proof {
                                        assert(view_lines(f.lines@) =~= prev.fixed->0.lines.push(
                                            prev.temp_line,
                                        ));
                                    }
                                    Some(f)
                                },
                                None => None,
                            };
                            in_line = false;
                            end_cell = 0;
                        }
                    }
                    proof {
                let cur = st_of(schema_fixed, temp_line, in_line, in_cell, temp_format, end_cell, seen@);
                assert(spec_build_step(prev, toks[i as int]) matches Ok(st2) && st2 =~~= cur);
            }
                },
                XmlToken::Start { name, attrs } => {
                    if str_eq(name.as_str(), "fixedwidthschema") {
                        let sep = attr_value(
                            attrs,
                            "lineseparator",
                            chars_to_string(&str_to_chars("\n")),
                        );
                        schema_fixed = Some(FixedWidthSchema { lineseparator: sep, lines: Vec::new() });
                        proof {
                            assert(view_lines(schema_fixed->0.lines@) =~= Seq::<LineV>::empty());
                        }
                        proof {
                            let cur = st_of(schema_fixed, temp_line, in_line, in_cell, temp_format, end_cell, seen@);
                            assert(spec_build_step(prev, toks[i as int]) matches Ok(st2) && st2 =~~= cur);
                        }
                    } else if str_eq(name.as_str(), "line") {
                        match apply_line_attrs(attrs, &mut seen) {
                            Ok(l) => {
                                temp_line = l;
                                in_line = true;
                                proof {
                            let cur = st_of(schema_fixed, temp_line, in_line, in_cell, temp_format, end_cell, seen@);
                            assert(spec_build_step(prev, toks[i as int]) matches Ok(st2) && st2 =~~= cur);
                        }
                            },
                            Err(e) => {
                                proof {
                                    assert(spec_build_from(toks, i as int, prev) == Err::<
                                        BuildStateV,
                                        Seq<char>,
                                    >(e@));
                                }
                                return Err(e);
                            },
                        }
                    } else if str_eq(name.as_str(), "cell") {
                        if !in_line {
                            proof {
                                assert("cell"@.len() == 4 && "format"@.len() == 6 && "match"@.len()
                                    == 5);
                                assert("cell"@ != "format"@);
                                assert("cell"@ != "match"@);
                                assert(spec_build_step(prev, toks[i as int]) == Ok::<BuildStateV, Seq<char>>(prev));
                            }
                        }
                        if in_line {
                            let cname = attr_value(attrs, "name", String::new());
                            let clen_s = attr_value(attrs, "length", String::new());
                            let clen_v = str_to_chars(clen_s.as_str());
                            let clen = parse_usize_or_zero(&clen_v);
                            let calign = attr_value(attrs, "alignment", String::new());
                            let cpad = attr_value(attrs, "padcharacter", temp_line.padcharacter.clone());
                            match end_cell.checked_add(clen) {
                                None => {
                                    proof {
                                        assert(spec_build_from(toks, i as int, prev) == Err::<
                                            BuildStateV,
                                            Seq<char>,
                                        >("cell offsets exceed the machine limit"@));
                                    }
                                    return Err(
                                        chars_to_string(
                                            &str_to_chars("cell offsets exceed the machine limit"),
                                        ),
                                    );
                                },
                                Some(ne) => {
                                    let cell = Cell {
                                        name: cname,
                                        length: clen,
                                        start: end_cell,
                                        end: ne,
                                        format: None,
                                        linecondition_type: None,
                                        linecondition_pattern: None,
                                        alignment: calign,
                                        padcharacter: cpad,
                                    };
                                    let ghost cellv = cell@;
                                    temp_line.cell.push(cell);
                                    end_cell = ne;
                                    in_cell = true;
                                    proof {
                                        assert(view_cells(temp_line.cell@) =~= prev.temp_line.cell
                                            .push(cellv));
                                    }
                                    proof {
                            let cur = st_of(schema_fixed, temp_line, in_line, in_cell, temp_format, end_cell, seen@);
                            assert(spec_build_step(prev, toks[i as int]) matches Ok(st2) && st2 =~~= cur);
                        }
                                },
                            }
                        }
                    } else if str_eq(name.as_str(), "format") {
                        if !in_cell {
                            proof {
                                assert("format"@.len() == 6 && "match"@.len() == 5);
                                assert("format"@ != "match"@);
                                assert(spec_build_step(prev, toks[i as int]) == Ok::<BuildStateV, Seq<char>>(prev));
                            }
                        }
                        if in_cell {
                            let ctype = attr_lower(attrs, "type");
                            let pattern = attr_value(attrs, "pattern", String::new());
                            if str_eq(ctype.as_str(), "string") {
                                match regex_new(pattern.as_str()) {
                                    Some(re) => {
                                        temp_format = Some(
                                            Format { ctype, pattern, regex_pattern: Some(re) },
                                        );
                                        proof {
                            let cur = st_of(schema_fixed, temp_line, in_line, in_cell, temp_format, end_cell, seen@);
                            assert(spec_build_step(prev, toks[i as int]) matches Ok(st2) && st2 =~~= cur);
                        }
                                    },
                                    None => {
                                        let mut msg = str_to_chars("Error compiling regex pattern: ");
                                        let pc = str_to_chars(pattern.as_str());
                                        push_all(&mut msg, &pc);
                                        proof {
                                            assert(spec_build_from(toks, i as int, prev) == Err::<
                                                BuildStateV,
                                                Seq<char>,
                                            >("Error compiling regex pattern: "@ + pattern@));
                                        }
                                        return Err(chars_to_string(&msg));
                                    },
                                }
                            } else {
                                temp_format = Some(Format { ctype, pattern, regex_pattern: None });
                                proof {
                            let cur = st_of(schema_fixed, temp_line, in_line, in_cell, temp_format, end_cell, seen@);
                            assert(spec_build_step(prev, toks[i as int]) matches Ok(st2) && st2 =~~= cur);
                        }
                            }
                        }
                    } else if str_eq(name.as_str(), "match") {
                        if !in_cell {
                            proof {
                                assert(spec_build_step(prev, toks[i as int]) == Ok::<BuildStateV, Seq<char>>(prev));
                            }
                        }
                        if in_cell {
                            let mtype = attr_lower(attrs, "type");
                            let mpattern = attr_value(attrs, "pattern", String::new());
                            if temp_line.cell.len() == 0 {
                                proof {
                                    assert(spec_build_step(prev, toks[i as int]) == Ok::<BuildStateV, Seq<char>>(prev));
                                }
                            }
                            if temp_line.cell.len() > 0 {
                                let mut c = temp_line.cell.pop().unwrap();
                                c.linecondition_type = Some(mtype);
                                c.linecondition_pattern = Some(mpattern);
                                temp_line.cell.push(c);
                                proof {
                                    assert(view_cells(temp_line.cell@) =~= prev.temp_line.cell
                                        .update(
                                        prev.temp_line.cell.len() - 1,
                                        CellV {
                                            linecondition_type: Some(
                                                spec_attr_lower(view_attrs(attrs@), "type"@),
                                            ),
                                            linecondition_pattern: Some(
                                                spec_attr_value(
                                                    view_attrs(attrs@),
                                                    "pattern"@,
                                                    Seq::<char>::empty(),
                                                ),
                                            ),
                                            ..prev.temp_line.cell.last()
                                        },
                                    ));
                                }
                            }
                        }
                    } else {
                        proof {
                            assert(name@ != "fixedwidthschema"@ && name@ != "line"@ && name@
                                != "cell"@ && name@ != "format"@ && name@ != "match"@);
                            assert(spec_build_step(prev, toks[i as int]) == Ok::<BuildStateV, Seq<char>>(prev));
                        }
                    }
                    proof {
                let cur = st_of(schema_fixed, temp_line, in_line, in_cell, temp_format, end_cell, seen@);
                assert(spec_build_step(prev, toks[i as int]) matches Ok(st2) && st2 =~~= cur);
            }
                },
            }
            proof {
                let cur = st_of(
                    schema_fixed,
                    temp_line,
                    in_line,
                    in_cell,
                    temp_format,
                    end_cell,
                    seen@,
                );
                assert(spec_build_from(toks, i as int, prev) == spec_build_from(
                    toks,
                    i + 1,
                    cur,
                ));
            }
            i += 1;
        }
        proof {
            let cur = st_of(
                schema_fixed,
                temp_line,
                in_line,
                in_cell,
                temp_format,
                end_cell,
                seen@,
            );
            assert(spec_build_from(toks, 0, spec_initial_state()) == Ok::<BuildStateV, Seq<char>>(cur));
        }
        match schema_fixed {
            Some(f) => Ok(Schema::FixedWidth(f)),
            None => Err(chars_to_string(&str_to_chars("no fixedwidthschema element in schema"))),
        }
    }

    /// Load a schema from its XML text.
    pub fn new(xml_text: &str) -> (r: Result<Schema, String>)
        ensures
            r is Ok <==> spec_build(xml_events(xml_text@)) is Ok,
            r is Ok ==> r->Ok_0@ == spec_build(xml_events(xml_text@))->Ok_0,
            r is Err ==> r->Err_0@ == spec_build(xml_events(xml_text@))->Err_0,
    {
        let tokens = read_xml_tokens(xml_text);
        Self::build_from_tokens(&tokens)
    }
}

} // verus!
