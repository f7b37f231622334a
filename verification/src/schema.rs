//! The schema model: line definitions made of fixed-width cells, with
//! optional per-cell formats and line conditions, plus the query operations
//! the validator relies on. A schema holds either a fixed-width layout or
//! the reserved CSV variant.

use vstd::prelude::*;

use crate::regex_support::{regex_clone, regex_source};

verus! {

/// A cell format: its kind (`date`, `string` or `number`), the pattern
/// text, and, for `string` formats, the regex compiled at load time.
#[derive(Debug)]
pub struct Format {
    pub ctype: String,
    pub pattern: String,
    pub regex_pattern: Option<regex::Regex>,
}

/// The abstract value of a `Format`: the compiled regex is represented by
/// the pattern it was built from.
#[verifier::ext_equal]
pub struct FormatV {
    pub ctype: Seq<char>,
    pub pattern: Seq<char>,
    pub regex_pattern: Option<Seq<char>>,
}

impl View for Format {
    type V = FormatV;

    open spec fn view(&self) -> FormatV {
        FormatV {
            ctype: self.ctype@,
            pattern: self.pattern@,
            regex_pattern: match self.regex_pattern {
                Some(re) => Some(regex_source(re)),
                None => None,
            },
        }
    }
}

impl Clone for Format {
    fn clone(&self) -> (r: Self)
        ensures
            r@ == self@,
    {
        Format {
            ctype: self.ctype.clone(),
            pattern: self.pattern.clone(),
            regex_pattern: match &self.regex_pattern {
                Some(re) => Some(regex_clone(re)),
                None => None,
            },
        }
    }
}

/// A line condition taken on its own: the text a conditioned cell must hold.
#[derive(Debug, Clone)]
pub struct LineCondition {
    pub matchpattern: String,
}

/// One fixed byte range of a record, with its format and condition.
#[derive(Debug)]
pub struct Cell {
    pub name: String,
    pub length: usize,
    pub start: usize,
    pub end: usize,
    pub format: Option<Format>,
    pub linecondition_type: Option<String>,
    pub linecondition_pattern: Option<String>,
    pub alignment: String,
    pub padcharacter: String,
}

/// The abstract value of a `Cell`.
#[verifier::ext_equal]
pub struct CellV {
    pub name: Seq<char>,
    pub length: nat,
    pub start: nat,
    pub end: nat,
    pub format: Option<FormatV>,
    pub linecondition_type: Option<Seq<char>>,
    pub linecondition_pattern: Option<Seq<char>>,
    pub alignment: Seq<char>,
    pub padcharacter: Seq<char>,
}

impl View for Cell {
    type V = CellV;

    open spec fn view(&self) -> CellV {
        CellV {
            name: self.name@,
            length: self.length as nat,
            start: self.start as nat,
            end: self.end as nat,
            format: match self.format {
                Some(f) => Some(f@),
                None => None,
            },
            linecondition_type: match self.linecondition_type {
                Some(t) => Some(t@),
                None => None,
            },
            linecondition_pattern: match self.linecondition_pattern {
                Some(p) => Some(p@),
                None => None,
            },
            alignment: self.alignment@,
            padcharacter: self.padcharacter@,
        }
    }
}

impl Clone for Cell {
    fn clone(&self) -> (r: Self)
        ensures
            r@ == self@,
    {
        Cell {
            name: self.name.clone(),
            length: self.length,
            start: self.start,
            end: self.end,
            format: match &self.format {
                Some(f) => Some(f.clone()),
                None => None,
            },
            linecondition_type: match &self.linecondition_type {
                Some(t) => Some(t.clone()),
                None => None,
            },
            linecondition_pattern: match &self.linecondition_pattern {
                Some(p) => Some(p.clone()),
                None => None,
            },
            alignment: self.alignment.clone(),
            padcharacter: self.padcharacter.clone(),
        }
    }
}

/// One line type: a named record shape with its cells in declaration order.
#[derive(Debug)]
pub struct Line {
    pub linetype: String,
    pub maxlength: usize,
    pub occurs: String,
    pub cell: Vec<Cell>,
    pub minlength: usize,
    pub padcharacter: String,
}

/// The abstract value of a `Line`.
#[verifier::ext_equal]
pub struct LineV {
    pub linetype: Seq<char>,
    pub maxlength: nat,
    pub occurs: Seq<char>,
    pub cell: Seq<CellV>,
    pub minlength: nat,
    pub padcharacter: Seq<char>,
}

/// The abstract values of a sequence of cells.
pub open spec fn view_cells(cs: Seq<Cell>) -> Seq<CellV> {
    Seq::new(cs.len(), |i: int| cs[i]@)
}

impl View for Line {
    type V = LineV;

    open spec fn view(&self) -> LineV {
        LineV {
            linetype: self.linetype@,
            maxlength: self.maxlength as nat,
            occurs: self.occurs@,
            cell: view_cells(self.cell@),
            minlength: self.minlength as nat,
            padcharacter: self.padcharacter@,
        }
    }
}

impl Clone for Line {
    fn clone(&self) -> (r: Self)
        ensures
            r@ == self@,
    {
        let mut cells: Vec<Cell> = Vec::new();
        let mut i: usize = 0;
        while i < self.cell.len()
            invariant
                0 <= i <= self.cell@.len(),
                cells@.len() == i,
                forall|j: int| 0 <= j < i ==> cells@[j]@ == #[trigger] self.cell@[j]@,
            decreases self.cell@.len() - i,
        {
            let c = (&self.cell[i]).clone();
            cells.push(c);
            i += 1;
        }
        let r = Line {
            linetype: self.linetype.clone(),
            maxlength: self.maxlength,
            occurs: self.occurs.clone(),
            cell: cells,
            minlength: self.minlength,
            padcharacter: self.padcharacter.clone(),
        };
        proof {
            assert(view_cells(r.cell@) =~= view_cells(self.cell@));
        }
        r
    }
}

/// The implemented schema variant: the record separator and the line types.
#[derive(Debug)]
pub struct FixedWidthSchema {
    pub lineseparator: String,
    pub lines: Vec<Line>,
}

/// The abstract value of a `FixedWidthSchema`.
#[verifier::ext_equal]
pub struct FixedWidthSchemaV {
    pub lineseparator: Seq<char>,
    pub lines: Seq<LineV>,
}

/// The abstract values of a sequence of lines.
pub open spec fn view_lines(ls: Seq<Line>) -> Seq<LineV> {
    Seq::new(ls.len(), |i: int| ls[i]@)
}

impl View for FixedWidthSchema {
    type V = FixedWidthSchemaV;

    open spec fn view(&self) -> FixedWidthSchemaV {
        FixedWidthSchemaV { lineseparator: self.lineseparator@, lines: view_lines(self.lines@) }
    }
}

impl Clone for FixedWidthSchema {
    fn clone(&self) -> (r: Self)
        ensures
            r@ == self@,
    {
        let mut lines: Vec<Line> = Vec::new();
        let mut i: usize = 0;
        while i < self.lines.len()
            invariant
                0 <= i <= self.lines@.len(),
                lines@.len() == i,
                forall|j: int| 0 <= j < i ==> lines@[j]@ == #[trigger] self.lines@[j]@,
            decreases self.lines@.len() - i,
        {
            let l = (&self.lines[i]).clone();
            lines.push(l);
            i += 1;
        }
        let r = FixedWidthSchema { lineseparator: self.lineseparator.clone(), lines };
        proof {
            assert(view_lines(r.lines@) =~= view_lines(self.lines@));
        }
        r
    }
}

/// The reserved CSV variant; no loader builds it yet.
#[derive(Debug)]
pub struct CsvSchema {
    pub lines: Vec<Line>,
}

/// The abstract value of a `CsvSchema`.
#[verifier::ext_equal]
pub struct CsvSchemaV {
    pub lines: Seq<LineV>,
}

impl View for CsvSchema {
    type V = CsvSchemaV;

    open spec fn view(&self) -> CsvSchemaV {
        CsvSchemaV { lines: view_lines(self.lines@) }
    }
}

impl Clone for CsvSchema {
    fn clone(&self) -> (r: Self)
        ensures
            r@ == self@,
    {
        let mut lines: Vec<Line> = Vec::new();
        let mut i: usize = 0;
        while i < self.lines.len()
            invariant
                0 <= i <= self.lines@.len(),
                lines@.len() == i,
                forall|j: int| 0 <= j < i ==> lines@[j]@ == #[trigger] self.lines@[j]@,
            decreases self.lines@.len() - i,
        {
            let l = (&self.lines[i]).clone();
            lines.push(l);
            i += 1;
        }
        let r = CsvSchema { lines };
        proof {
            assert(view_lines(r.lines@) =~= view_lines(self.lines@));
        }
        r
    }
}

/// A schema holds exactly one variant: the fixed-width layout that the
/// loader builds, or the reserved CSV layout.
#[derive(Debug)]
pub enum Schema {
    FixedWidth(FixedWidthSchema),
    Csv(CsvSchema),
}

/// The abstract value of a `Schema`.
#[verifier::ext_equal]
pub enum SchemaV {
    FixedWidth(FixedWidthSchemaV),
    Csv(CsvSchemaV),
}

impl View for Schema {
    type V = SchemaV;

    open spec fn view(&self) -> SchemaV {
        match self {
            Schema::FixedWidth(f) => SchemaV::FixedWidth(f@),
            Schema::Csv(c) => SchemaV::Csv(c@),
        }
    }
}

impl Clone for Schema {
    fn clone(&self) -> (r: Self)
        ensures
            r@ == self@,
    {
        match self {
            Schema::FixedWidth(f) => Schema::FixedWidth(f.clone()),
            Schema::Csv(c) => Schema::Csv(c.clone()),
        }
    }
}

/// Whether a cell carries a line condition.
pub open spec fn spec_cell_has_condition(c: CellV) -> bool {
    c.linecondition_pattern is Some
}

/// The cells of `cs` that carry a line condition, in order.
pub open spec fn spec_conditioned_cells(cs: Seq<CellV>) -> Seq<CellV>
    decreases cs.len(),
{
    if cs.len() == 0 {
        seq![]
    } else {
        spec_conditioned_cells(cs.drop_last()) + (if spec_cell_has_condition(cs.last()) {
            seq![cs.last()]
        } else {
            seq![]
        })
    }
}

/// Whether any cell of the line carries a condition.
pub open spec fn spec_line_has_condition(l: LineV) -> bool {
    spec_conditioned_cells(l.cell).len() > 0
}

/// The conditioned lines of a schema: each line with at least one
/// conditioned cell, paired with those cells, in schema order.
pub open spec fn spec_line_conditions(lines: Seq<LineV>) -> Seq<(Seq<char>, Seq<CellV>)>
    decreases lines.len(),
{
    if lines.len() == 0 {
        seq![]
    } else {
        spec_line_conditions(lines.drop_last()) + (if spec_line_has_condition(lines.last()) {
            seq![(lines.last().linetype, spec_conditioned_cells(lines.last().cell))]
        } else {
            seq![]
        })
    }
}

/// The lines of a schema without any conditioned cell, in order.
pub open spec fn spec_unconditioned_lines(lines: Seq<LineV>) -> Seq<LineV>
    decreases lines.len(),
{
    if lines.len() == 0 {
        seq![]
    } else {
        spec_unconditioned_lines(lines.drop_last()) + (if !spec_line_has_condition(lines.last()) {
            seq![lines.last()]
        } else {
            seq![]
        })
    }
}

/// The schema's default line: the sole line without conditions, if exactly
/// one exists.
pub open spec fn spec_default_line(lines: Seq<LineV>) -> Option<LineV> {
    if spec_unconditioned_lines(lines).len() == 1 {
        Some(spec_unconditioned_lines(lines)[0])
    } else {
        None
    }
}

/// The first line with the given line type, if any.
pub open spec fn spec_find_line(lines: Seq<LineV>, t: Seq<char>) -> Option<LineV>
    decreases lines.len(),
{
    if lines.len() == 0 {
        None
    } else if lines[0].linetype == t {
        Some(lines[0])
    } else {
        spec_find_line(lines.drop_first(), t)
    }
}

/// A schema with more than one line free of line conditions offers no
/// default line.
pub proof fn lemma_multiple_unconditioned_no_default(lines: Seq<LineV>)
    requires
        spec_unconditioned_lines(lines).len() > 1,
    ensures
        spec_default_line(lines) is None,
{
}

/// The view of the pairs `get_line_conditions` returns.
pub open spec fn view_cond_pairs(ps: Seq<(String, Vec<Cell>)>) -> Seq<(Seq<char>, Seq<CellV>)> {
    Seq::new(ps.len(), |i: int| (ps[i].0@, view_cells(ps[i].1@)))
}

impl Schema {
    /// The fixed-width layout of this schema.
    pub open spec fn spec_fixed(self) -> FixedWidthSchemaV
        recommends
            self is FixedWidth,
    {
        self@->FixedWidth_0
    }

    /// The fixed-width layout; the reserved CSV variant has none.
    pub(crate) fn get_binding(&self) -> (r: &FixedWidthSchema)
        requires
            self is FixedWidth,
        ensures
            r@ == self.spec_fixed(),
    {
        match self {
            Schema::FixedWidth(f) => f,
            Schema::Csv(_) => {
                proof {
                    assert(false);
                }
                unreached()
            },
        }
    }

    /// The kind of the schema; only the fixed-width kind is implemented.
    pub fn get_schema_type(&self) -> (r: &'static str)
        requires
            self is FixedWidth,
        ensures
            r@ == "fixedwidthschema"@,
    {
        "fixedwidthschema"
    }

    /// The raw record separator text of the schema.
    pub fn get_newline_characters(&self) -> (r: &str)
        requires
            self is FixedWidth,
        ensures
            r@ == self.spec_fixed().lineseparator,
    {
        self.get_binding().lineseparator.as_str()
    }

    /// Every line with at least one conditioned cell, paired with its
    /// conditioned cells, in schema order.
    pub fn get_line_conditions(&self) -> (r: Vec<(String, Vec<Cell>)>)
        requires
            self is FixedWidth,
        ensures
            view_cond_pairs(r@) == spec_line_conditions(self.spec_fixed().lines),
    {
        let binding = self.get_binding();
        let mut out: Vec<(String, Vec<Cell>)> = Vec::new();
        let mut i: usize = 0;
        while i < binding.lines.len()
            invariant
                0 <= i <= binding.lines@.len(),
                binding@ == self.spec_fixed(),
                self is FixedWidth,
                view_cond_pairs(out@) == spec_line_conditions(
                    view_lines(binding.lines@).take(i as int),
                ),
            decreases binding.lines@.len() - i,
        {
            let line = &binding.lines[i];
            let mut cells_with_condition: Vec<Cell> = Vec::new();
            let mut j: usize = 0;
            while j < line.cell.len()
                invariant
                    0 <= j <= line.cell@.len(),
                    view_cells(cells_with_condition@) == spec_conditioned_cells(
                        view_cells(line.cell@).take(j as int),
                    ),
                decreases line.cell@.len() - j,
            {
                let ghost cvs = view_cells(line.cell@);
                let cell = &line.cell[j];
                if cell.linecondition_pattern.is_some() {
                    let c = cell.clone();
                    cells_with_condition.push(c);
                }
                proof {
                    assert(cvs.take(j + 1 as int).drop_last() =~= cvs.take(j as int));
                    assert(cvs.take(j + 1 as int).last() == cvs[j as int]);
                    if spec_cell_has_condition(cvs[j as int]) {
                        assert(view_cells(cells_with_condition@) =~= spec_conditioned_cells(
                            cvs.take(j as int),
                        ) + seq![cvs[j as int]]);
                    } else {
                        assert(view_cells(cells_with_condition@) =~= spec_conditioned_cells(
                            cvs.take(j as int),
                        ));
                    }
                }
                j += 1;
            }
            proof {
                assert(view_cells(line.cell@).take(line.cell@.len() as int) =~= view_cells(
                    line.cell@,
                ));
            }
            let ghost lvs = view_lines(binding.lines@);
            if cells_with_condition.len() > 0 {
                let t = line.linetype.clone();
                out.push((t, cells_with_condition));
            }
            proof {
                assert(lvs.take(i + 1 as int).drop_last() =~= lvs.take(i as int));
                assert(lvs.take(i + 1 as int).last() == lvs[i as int]);
                assert(lvs[i as int] == line@);
                assert(line@.cell == view_cells(line.cell@));
                if spec_line_has_condition(lvs[i as int]) {
                    assert(view_cond_pairs(out@) =~= spec_line_conditions(lvs.take(i as int))
                        + seq![
                        (lvs[i as int].linetype, spec_conditioned_cells(lvs[i as int].cell)),
                    ]);
                } else {
                    assert(view_cond_pairs(out@) =~= spec_line_conditions(lvs.take(i as int)));
                }
                assert(view_cond_pairs(out@) == spec_line_conditions(lvs.take(i + 1 as int)));
            }
            i += 1;
        }
        proof {
            assert(view_lines(binding.lines@).take(binding.lines@.len() as int) =~= view_lines(
                binding.lines@,
            ));
        }
        out
    }

    /// The sole line without conditioned cells, with its line type; `None`
    /// when no line or more than one line is free of conditions.
    pub fn get_first_line_without_condition(&self) -> (r: Option<(String, Line)>)
        requires
            self is FixedWidth,
        ensures
            r is Some <==> spec_default_line(self.spec_fixed().lines) is Some,
            r is Some ==> (r->0).1@ == spec_default_line(self.spec_fixed().lines)->0 && (r->0).0@
                == spec_default_line(self.spec_fixed().lines)->0.linetype,
    {
        let binding = self.get_binding();
        let mut found: Option<&Line> = None;
        let mut count: usize = 0;
        let mut i: usize = 0;
        while i < binding.lines.len()
            invariant
                0 <= i <= binding.lines@.len(),
                binding@ == self.spec_fixed(),
                self is FixedWidth,
                count <= i,
                count == spec_unconditioned_lines(view_lines(binding.lines@).take(i as int)).len(),
                count >= 1 <==> found is Some,
                count >= 1 ==> (found matches Some(l) && l@ == spec_unconditioned_lines(
                    view_lines(binding.lines@).take(i as int),
                )[0]),
            decreases binding.lines@.len() - i,
        {
            let ghost lvs = view_lines(binding.lines@);
            let line = &binding.lines[i];
            let mut has_condition = false;
            let mut j: usize = 0;
            while j < line.cell.len()
                invariant
                    0 <= j <= line.cell@.len(),
                    has_condition == (spec_conditioned_cells(
                        view_cells(line.cell@).take(j as int),
                    ).len() > 0),
                decreases line.cell@.len() - j,
            {
                let ghost cvs = view_cells(line.cell@);
                let cell = &line.cell[j];
                if cell.linecondition_pattern.is_some() {
                    has_condition = true;
                }
                proof {
                    assert(cvs.take(j + 1 as int).drop_last() =~= cvs.take(j as int));
                    assert(cvs.take(j + 1 as int).last() == cvs[j as int]);
                }
                j += 1;
            }
            proof {
                assert(view_cells(line.cell@).take(line.cell@.len() as int) =~= view_cells(
                    line.cell@,
                ));
                assert(line@.cell == view_cells(line.cell@));
                assert(lvs.take(i + 1 as int).drop_last() =~= lvs.take(i as int));
                assert(lvs.take(i + 1 as int).last() == lvs[i as int]);
                assert(lvs[i as int] == line@);
            }
            if !has_condition {
                if count == 0 {
                    found = Some(line);
                }
                count = count + 1;
                proof {
                    assert(spec_unconditioned_lines(lvs.take(i + 1 as int))
                        =~= spec_unconditioned_lines(lvs.take(i as int)) + seq![lvs[i as int]]);
                }
            } else {
                proof {
                    assert(spec_unconditioned_lines(lvs.take(i + 1 as int))
                        =~= spec_unconditioned_lines(lvs.take(i as int)));
                }
            }
            i += 1;
        }
        proof {
            assert(view_lines(binding.lines@).take(binding.lines@.len() as int) =~= view_lines(
                binding.lines@,
            ));
        }
        if count == 1 {
            match found {
                Some(line) => {
                    let t = line.linetype.clone();
                    let l = line.clone();
                    Some((t, l))
                },
                None => {
                    proof {
                        assert(false);
                    }
                    unreached()
                },
            }
        } else {
            None
        }
    }

    /// The first line with the given line type, if any.
    pub fn get_line_by_linetype(&self, linetype: &str) -> (r: Option<Line>)
        requires
            self is FixedWidth,
        ensures
            r is Some <==> spec_find_line(self.spec_fixed().lines, linetype@) is Some,
            r is Some ==> r->0@ == spec_find_line(self.spec_fixed().lines, linetype@)->0,
    {
        let binding = self.get_binding();
        let mut i: usize = 0;
        while i < binding.lines.len()
            invariant
                0 <= i <= binding.lines@.len(),
                binding@ == self.spec_fixed(),
                self is FixedWidth,
                forall|j: int| 0 <= j < i ==> (#[trigger] view_lines(binding.lines@)[j]).linetype
                    != linetype@,
            decreases binding.lines@.len() - i,
        {
            let line = &binding.lines[i];
            if crate::text::str_eq(line.linetype.as_str(), linetype) {
                proof {
                    lemma_find_line_at(view_lines(binding.lines@), linetype@, i as int);
                }
                return Some(line.clone());
            }
            i += 1;
        }
        proof {
            lemma_find_line_none(view_lines(binding.lines@), linetype@);
        }
        None
    }
}

/// When every line before `i` misses the type and line `i` hits it, the
/// search finds line `i`.
proof fn lemma_find_line_at(lines: Seq<LineV>, t: Seq<char>, i: int)
    requires
        0 <= i < lines.len(),
        forall|j: int| 0 <= j < i ==> (#[trigger] lines[j]).linetype != t,
        lines[i].linetype == t,
    ensures
        spec_find_line(lines, t) == Some(lines[i]),
    decreases i,
{
    if i == 0 {
    } else {
        lemma_find_line_at(lines.drop_first(), t, i - 1);
    }
}

/// When no line has the type, the search finds none.
proof fn lemma_find_line_none(lines: Seq<LineV>, t: Seq<char>)
    requires
        forall|j: int| 0 <= j < lines.len() ==> (#[trigger] lines[j]).linetype != t,
    ensures
        spec_find_line(lines, t) is None,
    decreases lines.len(),
{
    if lines.len() > 0 {
        lemma_find_line_none(lines.drop_first(), t);
    }
}

} // verus!
