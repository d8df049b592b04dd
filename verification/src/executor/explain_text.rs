//! The answer of `EXPLAIN` as text, and as rows.

use crate::executor::any_operator::AnyOperator;
use crate::executor::explain::{AccessModel, NodeAccess};
use crate::executor::handle_rows;
use crate::executor::index_lookup;
use crate::executor::index_lookup::{IndexRangeSpec, RangeBound, RangeBoundModel, RangeModel};
use crate::executor::operator;
use crate::executor::operator::Relation;
use crate::executor::plan_text;
use crate::executor::query::Executor;
use crate::executor::semantics;
use crate::executor::sources;
use crate::executor::sources::Env;
use crate::executor::storage_view::StorageView;
use crate::logical_plan::{ExplainFormatOption, ExplainOptions, LogicalPlan, PlanModel};
use crate::schema;
use crate::schema::{Column, ColumnModel, Error, ErrorModel, Schema, Tuple, TupleModel};
use crate::text;
use crate::value::{DataType, Value, ValueModel};
use std::sync::Arc;
use vstd::prelude::*;
use vstd::string::*;

verus! {

/// A bound of a range with its spelling. A lower bound that only keeps NULL out
/// is none.
pub open spec fn spelled_bound(b: Option<RangeBoundModel>, spelling: Seq<char>) -> Option<
    (Seq<char>, bool),
> {
    match b {
        Some(RangeBoundModel::At(_, inclusive)) => Some((spelling, inclusive)),
        _ => None,
    }
}

/// A range in words; `lower` and `upper` spell its bounds.
pub open spec fn range_words(range: RangeModel, lower: Seq<char>, upper: Seq<char>) -> Seq<char> {
    index_lookup::range_text(
        range.column_name,
        spelled_bound(range.lower, lower),
        spelled_bound(range.upper, upper),
    )
}

fn spell_bound<'s>(b: &Option<RangeBound>, spelling: &'s str) -> (r: Option<(&'s str, bool)>)
    ensures
        index_lookup::shown_bound(r) == spelled_bound(
            index_lookup::opt_range_bound(*b),
            spelling@,
        ),
{
    match b {
        Some(RangeBound::At(_, inclusive)) => Some((spelling, *inclusive)),
        _ => None,
    }
}

/// A range in words.
pub fn describe_range(range: &IndexRangeSpec, lower: &str, upper: &str) -> (r: String)
    ensures
        r@ == range_words(range@, lower@, upper@),
{
    index_lookup::range_display(
        range.column_name.as_str(),
        spell_bound(&range.lower, lower),
        spell_bound(&range.upper, upper),
    )
}

/// What is shown of a node that an index serves: what it does, and more of it
/// under names.
#[verifier::ext_equal]
pub struct ShownModel {
    pub operation: Seq<char>,
    pub details: Seq<(Seq<char>, Seq<char>)>,
}

/// What is shown of a node that an index serves.
#[derive(Debug)]
pub struct ShownAccess {
    pub operation: String,
    pub details: Vec<(String, String)>,
}

pub open spec fn details_model(s: Seq<(String, String)>) -> Seq<(Seq<char>, Seq<char>)> {
    Seq::new(s.len(), |i: int| (s[i].0@, s[i].1@))
}

impl View for ShownAccess {
    type V = ShownModel;

    open spec fn view(&self) -> ShownModel {
        ShownModel { operation: self.operation@, details: details_model(self.details@) }
    }
}

/// What is shown of a node that an index serves; `lower` and `upper` spell the
/// bounds of a range.
pub open spec fn shown_access(a: AccessModel, lower: Seq<char>, upper: Seq<char>) -> ShownModel {
    match a {
        AccessModel::Point { index, table } => ShownModel {
            operation: "Index Point Lookup using "@ + index + " on "@ + table,
            details: seq![("index"@, index)],
        },
        AccessModel::InList { index, table, values } => ShownModel {
            operation: "Index IN Probe ("@ + text::decimal(values as nat) + " values) using "@
                + index + " on "@ + table,
            details: seq![("index"@, index)],
        },
        AccessModel::Range { range, table } => ShownModel {
            operation: "Index Range Scan using "@ + range.index_name + " on "@ + table + " ("@
                + range_words(range, lower, upper) + ")"@,
            details: seq![
                ("index"@, range.index_name),
                ("range"@, range_words(range, lower, upper)),
            ],
        },
        AccessModel::Ordered { index, table, column } => ShownModel {
            operation: "Index Ordered Scan using "@ + index + " on "@ + table + " (ORDER BY "@
                + column + " ASC, no sort)"@,
            details: seq![("index"@, index), ("order"@, column + " ASC"@)],
        },
    }
}

/// What is shown of a node that an index serves.
pub fn show_access(a: &NodeAccess, lower: &str, upper: &str) -> (r: ShownAccess)
    ensures
        r@ == shown_access(a@, lower@, upper@),
{
    let mut details: Vec<(String, String)> = Vec::new();
    match a {
        NodeAccess::Point { index, table } => {
            let mut operation: String = text::concat3(
                "Index Point Lookup using ",
                index.as_str(),
                " on ",
            );
            operation.append(table.as_str());
            details.push(("index".to_owned(), index.clone()));
            assert(details_model(details@) =~= seq![("index"@, index@)]);
            ShownAccess { operation, details }
        },
        NodeAccess::InList { index, table, values } => {
            let mut operation: String = text::concat_number(
                "Index IN Probe (",
                *values as u128,
                " values) using ",
            );
            operation.append(index.as_str());
            operation.append(" on ");
            operation.append(table.as_str());
            details.push(("index".to_owned(), index.clone()));
            assert(details_model(details@) =~= seq![("index"@, index@)]);
            ShownAccess { operation, details }
        },
        NodeAccess::Range { range, table } => {
            let mut operation: String = text::concat3(
                "Index Range Scan using ",
                range.index_name.as_str(),
                " on ",
            );
            let words: String = describe_range(range, lower, upper);
            operation.append(table.as_str());
            operation.append(" (");
            operation.append(words.as_str());
            operation.append(")");
            let ghost w = words@;
            details.push(("index".to_owned(), range.index_name.clone()));
            details.push(("range".to_owned(), words));
            assert(details_model(details@) =~= seq![
                ("index"@, range.index_name@),
                ("range"@, w),
            ]);
            ShownAccess { operation, details }
        },
        NodeAccess::Ordered { index, table, column } => {
            let mut operation: String = text::concat3(
                "Index Ordered Scan using ",
                index.as_str(),
                " on ",
            );
            operation.append(table.as_str());
            operation.append(" (ORDER BY ");
            operation.append(column.as_str());
            operation.append(" ASC, no sort)");
            let mut order: String = column.clone();
            order.append(" ASC");
            let ghost o = order@;
            details.push(("index".to_owned(), index.clone()));
            details.push(("order".to_owned(), order));
            assert(details_model(details@) =~= seq![("index"@, index@), ("order"@, o)]);
            ShownAccess { operation, details }
        },
    }
}

/// The name of an output format.
pub open spec fn format_text(f: ExplainFormatOption) -> Seq<char> {
    match f {
        ExplainFormatOption::Text => "TEXT"@,
        ExplainFormatOption::Json => "JSON"@,
        ExplainFormatOption::Yaml => "YAML"@,
        ExplainFormatOption::Tree => "TREE"@,
    }
}

/// The name of an output format.
pub fn format_name(f: ExplainFormatOption) -> (r: &'static str)
    ensures
        r@ == format_text(f),
{
    match f {
        ExplainFormatOption::Text => "TEXT",
        ExplainFormatOption::Json => "JSON",
        ExplainFormatOption::Yaml => "YAML",
        ExplainFormatOption::Tree => "TREE",
    }
}

/// The words of the header: the options that are on, and the format where it is
/// not the usual one.
pub open spec fn header_words(o: ExplainOptions) -> Seq<Seq<char>> {
    let w = seq!["EXPLAIN"@];
    let w = push_if(w, o.analyze, "ANALYZE"@);
    let w = push_if(w, o.verbose, "VERBOSE"@);
    let w = push_if(w, o.storage, "STORAGE"@);
    let w = push_if(w, o.ai, "AI"@);
    let w = push_if(w, o.why_not, "WHY_NOT"@);
    push_if(w, o.format != ExplainFormatOption::Text, "FORMAT "@ + format_text(o.format))
}

pub open spec fn push_if(words: Seq<Seq<char>>, on: bool, word: Seq<char>) -> Seq<Seq<char>> {
    if on {
        words.push(word)
    } else {
        words
    }
}

pub open spec fn header_text(o: ExplainOptions) -> Seq<char> {
    plan_text::joined(header_words(o), header_words(o).len(), " "@)
}

fn add_if(words: &mut Vec<String>, on: bool, word: String)
    ensures
        schema::texts(final(words)@) == push_if(schema::texts(old(words)@), on, word@),
{
    if on {
        let ghost was = schema::texts(words@);
        let ghost w = word@;
        words.push(word);
        assert(schema::texts(words@) =~= was.push(w));
    }
}

/// The header of the answer.
pub fn build_header(options: &ExplainOptions) -> (r: String)
    ensures
        r@ == header_text(*options),
{
    let mut words: Vec<String> = Vec::new();
    words.push("EXPLAIN".to_owned());
    assert(schema::texts(words@) =~= seq!["EXPLAIN"@]);
    add_if(&mut words, options.analyze, "ANALYZE".to_owned());
    add_if(&mut words, options.verbose, "VERBOSE".to_owned());
    add_if(&mut words, options.storage, "STORAGE".to_owned());
    add_if(&mut words, options.ai, "AI".to_owned());
    add_if(&mut words, options.why_not, "WHY_NOT".to_owned());
    let mut format: String = "FORMAT ".to_owned();
    format.append(format_name(options.format));
    let other: bool = match options.format {
        ExplainFormatOption::Text => false,
        _ => true,
    };
    add_if(&mut words, other, format);
    assert(schema::texts(words@).len() == words@.len());
    plan_text::join_texts(&words, " ")
}

/// What is known of a plan and of its run: estimates, and what was measured.
/// Times, costs and percentages are spelled out by whoever measured them.
#[derive(Debug)]
pub struct ExplainReport {
    pub total_rows: usize,
    pub total_cost: String,
    pub planning_time: String,
    pub actual_rows: Option<usize>,
    pub actual_time: Option<String>,
    pub row_accuracy: String,
    pub execution_error: Option<String>,
    pub warnings: Vec<String>,
    pub suggestions: Vec<String>,
}

#[verifier::ext_equal]
pub struct ReportModel {
    pub total_rows: usize,
    pub total_cost: Seq<char>,
    pub planning_time: Seq<char>,
    pub actual_rows: Option<usize>,
    pub actual_time: Option<Seq<char>>,
    pub row_accuracy: Seq<char>,
    pub execution_error: Option<Seq<char>>,
    pub warnings: Seq<Seq<char>>,
    pub suggestions: Seq<Seq<char>>,
}

impl View for ExplainReport {
    type V = ReportModel;

    open spec fn view(&self) -> ReportModel {
        ReportModel {
            total_rows: self.total_rows,
            total_cost: self.total_cost@,
            planning_time: self.planning_time@,
            actual_rows: self.actual_rows,
            actual_time: schema::opt_text(self.actual_time),
            row_accuracy: self.row_accuracy@,
            execution_error: schema::opt_text(self.execution_error),
            warnings: schema::texts(self.warnings@),
            suggestions: schema::texts(self.suggestions@),
        }
    }
}

/// A line of the answer, where there is something to say.
pub open spec fn line_if(head: Seq<char>, what: Option<Seq<char>>, end: Seq<char>) -> Seq<char> {
    match what {
        Some(w) => head + w + end,
        None => Seq::empty(),
    }
}

fn write_line_if(head: &str, what: Option<&str>, end: &str) -> (r: String)
    ensures
        r@ == line_if(head@, schema::opt_str(what), end@),
{
    match what {
        Some(w) => text::concat3(head, w, end),
        None => String::new(),
    }
}

pub open spec fn rows_line(rows: Option<usize>) -> Seq<char> {
    match rows {
        Some(n) => "  Actual Rows    : "@ + text::decimal(n as nat) + "\n"@,
        None => Seq::empty(),
    }
}

fn write_rows_line(rows: Option<usize>) -> (r: String)
    ensures
        r@ == rows_line(rows),
{
    match rows {
        Some(n) => text::concat_number("  Actual Rows    : ", n as u128, "\n"),
        None => String::new(),
    }
}

/// The section on how a plan ran.
pub open spec fn results_text(r: ReportModel) -> Seq<char> {
    "───────────────────────────────────────────────────────────────────────────────\n"@
        + "Execution Results\n"@
        + "───────────────────────────────────────────────────────────────────────────────\n"@
        + line_if("  Execution Error: "@, r.execution_error, "\n"@) + line_if(
        "  Execution Time : "@,
        r.actual_time,
        " ms\n"@,
    ) + rows_line(r.actual_rows) + ("  Planning Time  : "@ + r.planning_time + " ms\n"@) + (
    "  Estimated Rows : "@ + text::decimal(r.total_rows as nat) + "\n"@) + (
    "  Estimated Cost : "@ + r.total_cost + "\n"@)
}

/// The section on how a plan ran.
pub fn format_execution_results(r: &ExplainReport) -> (out: String)
    ensures
        out@ == results_text(r@),
{
    let mut out: String =
        "───────────────────────────────────────────────────────────────────────────────\n".to_owned();
    out.append("Execution Results\n");
    out.append(
        "───────────────────────────────────────────────────────────────────────────────\n",
    );
    out.append(
        write_line_if("  Execution Error: ", schema::as_str(&r.execution_error), "\n").as_str(),
    );
    out.append(
        write_line_if("  Execution Time : ", schema::as_str(&r.actual_time), " ms\n").as_str(),
    );
    out.append(write_rows_line(r.actual_rows).as_str());
    out.append(text::concat3("  Planning Time  : ", r.planning_time.as_str(), " ms\n").as_str());
    out.append(text::concat_number("  Estimated Rows : ", r.total_rows as u128, "\n").as_str());
    out.append(text::concat3("  Estimated Cost : ", r.total_cost.as_str(), "\n").as_str());
    out
}

/// The first `n` texts, each on a line of a list.
pub open spec fn listed(s: Seq<Seq<char>>, n: nat) -> Seq<char>
    decreases n,
{
    if n == 0 || n > s.len() {
        Seq::empty()
    } else {
        listed(s, (n - 1) as nat) + ("    - "@ + s[n - 1] + "\n"@)
    }
}

/// A list under a heading, where there is something in it.
pub open spec fn list_text(heading: Seq<char>, s: Seq<Seq<char>>) -> Seq<char> {
    if s.len() == 0 {
        Seq::empty()
    } else {
        heading + listed(s, s.len())
    }
}

fn write_list(heading: &str, v: &Vec<String>) -> (r: String)
    ensures
        r@ == list_text(heading@, schema::texts(v@)),
{
    let ghost model = schema::texts(v@);
    if v.len() == 0 {
        return String::new();
    }
    let mut out: String = String::new();
    let mut i: usize = 0;
    while i < v.len()
        invariant
            model == schema::texts(v@),
            i <= v@.len(),
            out@ == listed(model, i as nat),
        decreases v.len() - i,
    {
        assert(model[i as int] == v@[i as int]@);
        out.append(text::concat3("    - ", v[i].as_str(), "\n").as_str());
        i += 1;
    }
    let head: String = heading.to_owned();
    head.concat(out.as_str())
}

/// How good the estimates were, where the plan ran and gave rows.
pub open spec fn accuracy_text(r: ReportModel, analyze: bool) -> Seq<char> {
    match (r.actual_rows, r.actual_time) {
        (Some(rows), Some(time)) => if analyze {
            "  Estimate Accuracy:\n    Rows: "@ + text::decimal(rows as nat) + " actual vs "@
                + text::decimal(r.total_rows as nat) + " estimated ("@ + r.row_accuracy
                + "%)\n    Time: "@ + time + " ms\n"@
        } else {
            Seq::empty()
        },
        _ => Seq::empty(),
    }
}

fn write_accuracy(r: &ExplainReport, analyze: bool) -> (out: String)
    ensures
        out@ == accuracy_text(r@, analyze),
{
    if !analyze {
        return String::new();
    }
    match (r.actual_rows, &r.actual_time) {
        (Some(rows), Some(time)) => {
            let mut out: String = text::concat_number(
                "  Estimate Accuracy:\n    Rows: ",
                rows as u128,
                " actual vs ",
            );
            text::append_decimal(&mut out, r.total_rows as u128);
            out.append(" estimated (");
            out.append(r.row_accuracy.as_str());
            out.append("%)\n    Time: ");
            out.append(time.as_str());
            out.append(" ms\n");
            out
        },
        _ => String::new(),
    }
}

/// The closing section.
pub open spec fn summary_text(r: ReportModel, o: ExplainOptions) -> Seq<char> {
    "\n"@ + "═══════════════════════════════════════════════════════════════════════════════\n"@
        + "                                  SUMMARY                                     \n"@
        + "═══════════════════════════════════════════════════════════════════════════════\n\n"@
        + accuracy_text(r, o.analyze) + list_text("\n  Warnings:\n"@, r.warnings) + list_text(
        "\n  Suggestions:\n"@,
        r.suggestions,
    )
}

/// The closing section.
pub fn format_summary(r: &ExplainReport, options: &ExplainOptions) -> (out: String)
    ensures
        out@ == summary_text(r@, *options),
{
    let mut out: String = "\n".to_owned();
    out.append(
        "═══════════════════════════════════════════════════════════════════════════════\n",
    );
    out.append(
        "                                  SUMMARY                                     \n",
    );
    out.append(
        "═══════════════════════════════════════════════════════════════════════════════\n\n",
    );
    out.append(write_accuracy(r, options.analyze).as_str());
    out.append(write_list("\n  Warnings:\n", &r.warnings).as_str());
    out.append(write_list("\n  Suggestions:\n", &r.suggestions).as_str());
    out
}

/// The whole answer as text; `plan` is the plan as it is shown, `features` what
/// there is to say of the storage.
pub open spec fn answer_text(
    plan: Seq<char>,
    features: Option<Seq<char>>,
    r: ReportModel,
    o: ExplainOptions,
) -> Seq<char> {
    header_text(o) + "\n\n"@ + plan + (if o.analyze {
        "\n"@ + results_text(r)
    } else {
        Seq::empty()
    }) + (match features {
        Some(f) => if o.storage {
            f
        } else {
            Seq::empty()
        },
        None => Seq::empty(),
    }) + (if o.summary {
        summary_text(r, o)
    } else {
        Seq::empty()
    })
}

/// The whole answer as text.
pub fn format_text_output(
    plan: &str,
    features: Option<&str>,
    r: &ExplainReport,
    options: &ExplainOptions,
) -> (out: String)
    ensures
        out@ == answer_text(plan@, schema::opt_str(features), r@, *options),
{
    let mut out: String = build_header(options);
    out.append("\n\n");
    out.append(plan);
    let run: String = if options.analyze {
        let head: String = "\n".to_owned();
        head.concat(format_execution_results(r).as_str())
    } else {
        String::new()
    };
    out.append(run.as_str());
    let storage: String = match features {
        Some(f) => if options.storage {
            f.to_owned()
        } else {
            String::new()
        },
        None => String::new(),
    };
    out.append(storage.as_str());
    let summary: String = if options.summary {
        format_summary(r, options)
    } else {
        String::new()
    };
    out.append(summary.as_str());
    out
}

/// Where the first line of a text ends, from a position on.
pub open spec fn line_end(s: Seq<char>, from: nat) -> nat
    decreases s.len() - from,
{
    if from >= s.len() {
        s.len()
    } else if s[from as int] == '\n' {
        from
    } else {
        line_end(s, from + 1)
    }
}

/// A line without the carriage return before its end.
pub open spec fn without_return(line: Seq<char>) -> Seq<char> {
    if line.len() > 0 && line.last() == '\r' {
        line.drop_last()
    } else {
        line
    }
}

/// The lines of a text from a position on. An end of line closes a line; the text
/// behind the last one is a line where it is not empty.
pub open spec fn lines_of(s: Seq<char>, from: nat) -> Seq<Seq<char>>
    decreases s.len() - from,
{
    if from >= s.len() {
        Seq::empty()
    } else {
        proof {
            lemma_line_end(s, from);
        }
        let end = line_end(s, from);
        let line = s.subrange(from as int, end as int);
        if end >= s.len() {
            seq![line]
        } else {
            seq![without_return(line)] + lines_of(s, end + 1)
        }
    }
}

/// The end of a line lies in the text, and not before its beginning.
pub proof fn lemma_line_end(s: Seq<char>, from: nat)
    requires
        from <= s.len(),
    ensures
        from <= line_end(s, from) <= s.len(),
    decreases s.len() - from,
{
    if from < s.len() && s[from as int] != '\n' {
        lemma_line_end(s, from + 1);
    }
}

fn find_line_end(x: &Vec<char>, from: usize) -> (r: usize)
    requires
        from <= x@.len(),
    ensures
        r == line_end(x@, from as nat),
        from <= r <= x@.len(),
{
    let mut i: usize = from;
    while i < x.len() && x[i] != '\n'
        invariant
            from <= i <= x@.len(),
            line_end(x@, from as nat) == line_end(x@, i as nat),
        decreases x.len() - i,
    {
        i += 1;
    }
    i
}

/// The lines of a text.
pub fn split_lines(s: &str) -> (r: Vec<String>)
    ensures
        schema::texts(r@) == lines_of(s@, 0),
{
    let x: Vec<char> = text::chars_of(s);
    let mut out: Vec<String> = Vec::new();
    assert(schema::texts(out@) =~= Seq::<Seq<char>>::empty());
    let mut from: usize = 0;
    assert(Seq::<Seq<char>>::empty() + lines_of(s@, 0) =~= lines_of(s@, 0));
    while from < x.len()
        invariant
            x@ == s@,
            from <= x@.len(),
            lines_of(s@, 0) == schema::texts(out@) + lines_of(s@, from as nat),
        decreases x.len() - from,
    {
        let ghost was = schema::texts(out@);
        let end: usize = find_line_end(&x, from);
        let ghost line = s@.subrange(from as int, end as int);
        if end == x.len() {
            let l: String = s.substring_char(from, end).to_owned();
            out.push(l);
            assert(schema::texts(out@) =~= was + seq![line]);
            assert(lines_of(s@, 0) == was + seq![line]);
            return out;
        }
        let mut stop: usize = end;
        if end > from && x[end - 1] == '\r' {
            stop = end - 1;
            assert(line.last() == '\r');
            assert(s@.subrange(from as int, stop as int) =~= line.drop_last());
        } else {
            assert(line.len() > 0 ==> line.last() == x@[end - 1]);
        }
        let l: String = s.substring_char(from, stop).to_owned();
        assert(l@ == without_return(line));
        out.push(l);
        assert(schema::texts(out@) =~= was + seq![without_return(line)]);
        assert(was + (seq![without_return(line)] + lines_of(s@, (end + 1) as nat)) =~= (was + seq![
            without_return(line),
        ]) + lines_of(s@, (end + 1) as nat));
        from = end + 1;
    }
    assert(schema::texts(out@) + Seq::<Seq<char>>::empty() =~= schema::texts(out@));
    out
}

/// The column of the answer.
pub open spec fn answer_column() -> ColumnModel {
    ColumnModel { nullable: false, ..schema::plain_column("QUERY PLAN"@, DataType::Text) }
}

/// The rows of the answer: one for each line.
pub open spec fn answer_rows(lines: Seq<Seq<char>>) -> Seq<TupleModel> {
    Seq::new(lines.len(), |i: int| schema::loose_row(seq![ValueModel::String(lines[i])]))
}

/// The answer as rows: one for each line.
pub open spec fn answer(output: Seq<char>) -> Relation {
    semantics::at_hand(seq![answer_column()], answer_rows(lines_of(output, 0)))
}

/// The answer as rows.
pub fn explain_rows(output: &str) -> (r: AnyOperator)
    ensures
        r.gives(answer(output@), None),
{
    let lines: Vec<String> = split_lines(output);
    let ghost all = answer_rows(schema::texts(lines@));
    let mut rows: Vec<Tuple> = Vec::new();
    assert(schema::rows_model(rows@) =~= all.take(0));
    let mut i: usize = 0;
    while i < lines.len()
        invariant
            all == answer_rows(schema::texts(lines@)),
            i <= lines@.len(),
            schema::rows_model(rows@) == all.take(i as int),
        decreases lines.len() - i,
    {
        let ghost was = schema::rows_model(rows@);
        let mut values: Vec<Value> = Vec::new();
        values.push(Value::String(lines[i].clone()));
        let t: Tuple = Tuple::new(values);
        assert(t@ =~= all[i as int]);
        rows.push(t);
        assert(schema::rows_model(rows@) =~= was.push(t@));
        i += 1;
        assert(all.take(i as int) =~= was.push(t@));
    }
    assert(all.take(i as int) =~= all);
    let mut c: Column = Column::new("QUERY PLAN", DataType::Text);
    c.nullable = false;
    let ghost m = c@;
    assert(m == answer_column());
    let mut columns: Vec<Column> = Vec::new();
    columns.push(c);
    let s: Schema = Schema { columns };
    assert(s@ =~= seq![answer_column()]);
    handle_rows::rows_at_hand(Arc::new(s), rows)
}

/// What a plan is run in to measure it: the storage and the transaction, and
/// nothing else.
pub open spec fn measured_env(env: Env) -> Env {
    Env {
        params: Seq::empty(),
        settings: sources::standard_settings(),
        system_view_names: Seq::empty(),
        cluster: None,
        ..env
    }
}

impl<'a> Executor<'a> {
    /// Runs a plan to count its rows; `None` without a storage. Where the time
    /// since the start is known, the plan gets as long as that; how long it is, the clock
    /// decides.
    pub fn execute_for_analyze(&self, plan: &LogicalPlan) -> (r: Option<Result<usize, Error>>)
        ensures
            !self.clocked() ==> self.measures(r, plan@, None),
            self.clocked() ==> exists|spent: u128|
                self.measures(r, plan@, Some(#[trigger] millis_of(spent))),
    {
        match self.timeout_ctx() {
            Some(t) => {
                let spent: u128 = t.elapsed().as_nanos();
                let limit: u64 = millis(spent);
                let r: Option<Result<usize, Error>> = self.execute_within(plan, Some(limit));
                assert(self.measures(r, plan@, Some(millis_of(spent))));
                r
            },
            None => self.execute_within(plan, None),
        }
    }

    /// Whether running a plan under an optional time limit came to what it should: the
    /// number of its rows, its error, or the limit exceeded; nothing without a storage.
    pub open spec fn measures(
        &self,
        r: Option<Result<usize, Error>>,
        p: PlanModel,
        limit: Option<u64>,
    ) -> bool {
        let rows = semantics::rows_given(
            semantics::run(p, measured_env(self.env()), semantics::no_ctes()),
        );
        match r {
            None => self.env().storage is None,
            Some(Ok(n)) => self.env().storage is Some && (rows matches Ok(s) && n == s.len()),
            Some(Err(e)) => self.env().storage is Some && (operator::timed_out(
                operator::limits_of(limit),
                e@,
            ) || rows == Err::<Seq<TupleModel>, ErrorModel>(e@)),
        }
    }

    /// Runs a plan to count its rows under an optional time limit in milliseconds.
    pub fn execute_within(&self, plan: &LogicalPlan, limit: Option<u64>) -> (r: Option<
        Result<usize, Error>,
    >)
        ensures
            self.measures(r, plan@, limit),
    {
        let store: &'a StorageView = match self.storage() {
            Some(s) => s,
            None => {
                return None;
            },
        };
        let mut inner: Executor<'a> = Executor::with_storage(store);
        if let Some(t) = self.transaction() {
            inner = inner.with_transaction(t);
        }
        if limit.is_some() {
            inner = inner.with_timeout(limit);
        }
        match inner.execute(plan) {
            Ok(rows) => {
                Some(Ok(rows.len()))
            },
            Err(e) => Some(Err(e)),
        }
    }
}

/// Nanoseconds as whole milliseconds.
pub open spec fn millis_of(nanos: u128) -> u64 {
    (nanos / 1_000_000) as u64
}

fn millis(nanos: u128) -> (r: u64)
    ensures
        r == millis_of(nanos),
{
    (nanos / 1_000_000) as u64
}

} // verus!
