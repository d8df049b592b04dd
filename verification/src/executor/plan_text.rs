//! Plans as people read them: the indented outline of a plan, and the text that
//! `EXPLAIN` puts round it.

use crate::debug_text;
use crate::logical_plan;
use crate::logical_plan::{
    AsOfClause, AsOfModel, ExplainOptions, ExprModel, JoinType, LogicalExpr, LogicalPlan,
    PlanModel,
};
use crate::schema;
use crate::text;
use crate::tree_text;
use vstd::prelude::*;
use vstd::string::*;

verus! {

/// The first `n` texts with a separator between them.
pub open spec fn joined(s: Seq<Seq<char>>, n: nat, separator: Seq<char>) -> Seq<char>
    decreases n,
{
    if n == 0 || n > s.len() {
        Seq::empty()
    } else if n == 1 {
        s[0]
    } else {
        joined(s, (n - 1) as nat, separator) + separator + s[n - 1]
    }
}

/// Texts with a separator between them.
pub fn join_texts(v: &Vec<String>, separator: &str) -> (r: String)
    ensures
        r@ == joined(schema::texts(v@), v@.len(), separator@),
{
    let ghost model = schema::texts(v@);
    let mut out: String = String::new();
    let mut i: usize = 0;
    while i < v.len()
        invariant
            model == schema::texts(v@),
            i <= v@.len(),
            out@ == joined(model, i as nat, separator@),
        decreases v.len() - i,
    {
        assert(model[i as int] == v@[i as int]@);
        if i > 0 {
            out.append(separator);
        } else {
            assert(Seq::<char>::empty() + model[0] =~= model[0]);
        }
        out.append(v[i].as_str());
        i += 1;
    }
    out
}

/// The blanks before a line.
pub open spec fn indent_of(depth: nat) -> Seq<char>
    decreases depth,
{
    if depth == 0 {
        Seq::empty()
    } else {
        indent_of((depth - 1) as nat) + "  "@
    }
}

fn make_indent(depth: usize) -> (r: String)
    ensures
        r@ == indent_of(depth as nat),
{
    let mut out: String = String::new();
    let mut i: usize = 0;
    while i < depth
        invariant
            i <= depth,
            out@ == indent_of(i as nat),
        decreases depth - i,
    {
        out.append("  ");
        i += 1;
    }
    out
}

/// What a line of an outline begins with.
pub open spec fn line_head(depth: nat) -> Seq<char> {
    if depth > 0 {
        indent_of(depth) + "-> "@
    } else {
        indent_of(depth)
    }
}

/// What stands between brackets: the texts, separated by commas.
pub open spec fn bracketed(s: Seq<Seq<char>>) -> Seq<char> {
    "["@ + joined(s, s.len(), ", "@) + "]"@
}

fn bracket(v: &Vec<String>) -> (r: String)
    ensures
        r@ == bracketed(schema::texts(v@)),
{
    text::concat3("[", join_texts(v, ", ").as_str(), "]")
}

pub open spec fn expr_texts(s: Seq<ExprModel>) -> Seq<Seq<char>> {
    Seq::new(s.len(), |i: int| tree_text::expr_text(s[i]))
}

fn texts_of_exprs(v: &Vec<LogicalExpr>) -> (r: Vec<String>)
    ensures
        schema::texts(r@) == expr_texts(logical_plan::exprs_model(v@)),
{
    proof {
        logical_plan::lemma_exprs_model(v@);
    }
    let ghost all = expr_texts(logical_plan::exprs_model(v@));
    let mut out: Vec<String> = Vec::new();
    assert(schema::texts(out@) =~= all.take(0));
    let mut i: usize = 0;
    while i < v.len()
        invariant
            all == expr_texts(logical_plan::exprs_model(v@)),
            all.len() == v@.len(),
            forall|j: int|
                0 <= j < v@.len() ==> (#[trigger] all[j]) == tree_text::expr_text(v@[j]@),
            i <= v@.len(),
            schema::texts(out@) == all.take(i as int),
        decreases v.len() - i,
    {
        let ghost was = schema::texts(out@);
        let x: String = tree_text::show_expr(&v[i]);
        assert(all[i as int] == x@);
        out.push(x);
        assert(schema::texts(out@) =~= was.push(x@));
        i += 1;
        assert(all.take(i as int) =~= was.push(x@));
    }
    assert(all.take(i as int) =~= all);
    out
}

pub open spec fn position_texts(s: Seq<usize>) -> Seq<Seq<char>> {
    Seq::new(s.len(), |i: int| text::decimal(s[i] as nat))
}

fn texts_of_positions(v: &Vec<usize>) -> (r: Vec<String>)
    ensures
        schema::texts(r@) == position_texts(v@),
{
    let ghost all = position_texts(v@);
    let mut out: Vec<String> = Vec::new();
    assert(schema::texts(out@) =~= all.take(0));
    let mut i: usize = 0;
    while i < v.len()
        invariant
            all == position_texts(v@),
            i <= v@.len(),
            schema::texts(out@) == all.take(i as int),
        decreases v.len() - i,
    {
        let ghost was = schema::texts(out@);
        let mut x: String = String::new();
        text::append_decimal(&mut x, v[i] as u128);
        assert(x@ =~= all[i as int]);
        out.push(x);
        assert(schema::texts(out@) =~= was.push(x@));
        i += 1;
        assert(all.take(i as int) =~= was.push(x@));
    }
    assert(all.take(i as int) =~= all);
    out
}

/// The sort keys, each with its direction; keys without one are left out.
pub open spec fn sort_texts(exprs: Seq<ExprModel>, asc: Seq<bool>) -> Seq<Seq<char>> {
    Seq::new(
        if exprs.len() <= asc.len() {
            exprs.len()
        } else {
            asc.len()
        },
        |i: int|
            tree_text::expr_text(exprs[i]) + if asc[i] {
                " ASC"@
            } else {
                " DESC"@
            },
    )
}

fn texts_of_sort(v: &Vec<LogicalExpr>, asc: &Vec<bool>) -> (r: Vec<String>)
    ensures
        schema::texts(r@) == sort_texts(logical_plan::exprs_model(v@), asc@),
{
    proof {
        logical_plan::lemma_exprs_model(v@);
    }
    let ghost model = logical_plan::exprs_model(v@);
    let ghost all = sort_texts(model, asc@);
    let mut out: Vec<String> = Vec::new();
    assert(schema::texts(out@) =~= all.take(0));
    let mut i: usize = 0;
    while i < v.len() && i < asc.len()
        invariant
            model == logical_plan::exprs_model(v@),
            model.len() == v@.len(),
            forall|j: int| 0 <= j < v@.len() ==> (#[trigger] model[j]) == v@[j]@,
            all == sort_texts(model, asc@),
            i <= v@.len(),
            i <= asc@.len(),
            schema::texts(out@) == all.take(i as int),
        decreases v.len() - i,
    {
        let ghost was = schema::texts(out@);
        let mut x: String = tree_text::show_expr(&v[i]);
        assert(model[i as int] == v@[i as int]@);
        if asc[i] {
            x.append(" ASC");
        } else {
            x.append(" DESC");
        }
        assert(all[i as int] == x@);
        out.push(x);
        assert(schema::texts(out@) =~= was.push(x@));
        i += 1;
        assert(all.take(i as int) =~= was.push(x@));
    }
    assert(all.take(i as int) =~= all);
    out
}

/// What a scan keeps of its columns, and the time it looks at.
pub open spec fn scan_suffix(projection: Option<Seq<usize>>, as_of: Option<AsOfModel>) -> Seq<char> {
    let kept = match projection {
        Some(p) => " (projection: "@ + bracketed(position_texts(p)) + ")"@,
        None => Seq::empty(),
    };
    let then = match as_of {
        Some(a) => " AS OF "@ + debug_text::as_of_text(a),
        None => Seq::empty(),
    };
    kept + then
}

fn describe_scan_suffix(projection: &Option<Vec<usize>>, as_of: &Option<AsOfClause>) -> (r: String)
    ensures
        r@ == scan_suffix(
            logical_plan::opt_positions(*projection),
            logical_plan::opt_as_of(*as_of),
        ),
{
    let mut out: String = match projection {
        Some(p) => text::concat3(
            " (projection: ",
            bracket(&texts_of_positions(p)).as_str(),
            ")",
        ),
        None => String::new(),
    };
    let then: String = match as_of {
        Some(a) => {
            let head: String = " AS OF ".to_owned();
            head.concat(debug_text::show_as_of(a).as_str())
        },
        None => String::new(),
    };
    out.append(then.as_str());
    out
}

/// A word and an expression, where there is one.
pub open spec fn clause_text(word: Seq<char>, e: Option<ExprModel>, end: Seq<char>) -> Seq<char> {
    match e {
        Some(x) => word + tree_text::expr_text(x) + end,
        None => Seq::empty(),
    }
}

fn describe_clause(word: &str, e: &Option<LogicalExpr>, end: &str) -> (r: String)
    ensures
        r@ == clause_text(word@, logical_plan::opt_expr(*e), end@),
{
    match e {
        Some(x) => text::concat3(word, tree_text::show_expr(x).as_str(), end),
        None => String::new(),
    }
}

pub open spec fn join_type_text(t: JoinType) -> Seq<char> {
    match t {
        JoinType::Inner => "Inner"@,
        JoinType::Left => "Left"@,
        JoinType::Right => "Right"@,
        JoinType::Full => "Full"@,
        JoinType::Cross => "Cross"@,
    }
}

fn name_of_join_type(t: JoinType) -> (r: &'static str)
    ensures
        r@ == join_type_text(t),
{
    match t {
        JoinType::Inner => "Inner",
        JoinType::Left => "Left",
        JoinType::Right => "Right",
        JoinType::Full => "Full",
        JoinType::Cross => "Cross",
    }
}

/// The options that an outline names.
pub open spec fn option_words(o: ExplainOptions) -> Seq<Seq<char>> {
    let a = if o.analyze {
        seq!["ANALYZE"@]
    } else {
        Seq::empty()
    };
    let v = if o.verbose {
        a.push("VERBOSE"@)
    } else {
        a
    };
    if o.storage {
        v.push("STORAGE"@)
    } else {
        v
    }
}

fn list_options(o: &ExplainOptions) -> (r: Vec<String>)
    ensures
        schema::texts(r@) == option_words(*o),
{
    let mut out: Vec<String> = Vec::new();
    assert(schema::texts(out@) =~= Seq::<Seq<char>>::empty());
    if o.analyze {
        out.push("ANALYZE".to_owned());
        assert(schema::texts(out@) =~= seq!["ANALYZE"@]);
    }
    if o.verbose {
        let ghost was = schema::texts(out@);
        out.push("VERBOSE".to_owned());
        assert(schema::texts(out@) =~= was.push("VERBOSE"@));
    }
    if o.storage {
        let ghost was = schema::texts(out@);
        out.push("STORAGE".to_owned());
        assert(schema::texts(out@) =~= was.push("STORAGE"@));
    }
    out
}

/// What a line of an outline says of the node itself.
pub open spec fn node_text(p: PlanModel) -> Seq<char> {
    match p {
        PlanModel::Scan { table_name, alias, schema, projection, as_of } => "Seq Scan on "@
            + table_name + scan_suffix(projection, as_of),
        PlanModel::FilteredScan { table_name, alias, schema, projection, predicate, as_of } =>
            "Filtered Scan on "@ + table_name + clause_text(" (filter: "@, predicate, ")"@)
            + scan_suffix(projection, as_of),
        PlanModel::Filter { input, predicate } => "Filter: "@ + tree_text::expr_text(
            predicate,
        ),
        PlanModel::Project { input, exprs, aliases, distinct, distinct_on, source_alias } =>
            "Project"@ + word_if(distinct, " DISTINCT"@) + ": "@ + bracketed(aliases),
        PlanModel::Aggregate { input, group_by, aggr_exprs, having } => "Aggregate: "@ + bracketed(
            expr_texts(aggr_exprs),
        ) + group_text(group_by) + clause_text(" HAVING "@, having, Seq::empty()),
        PlanModel::Join { left, right, join_type, on, lateral } => word_if(lateral, "LATERAL "@)
            + "Nested Loop "@ + join_type_text(join_type) + " Join"@ + clause_text(
            " ON "@,
            on,
            Seq::empty(),
        ),
        PlanModel::Sort { input, exprs, asc } => "Sort: "@ + bracketed(sort_texts(exprs, asc)),
        PlanModel::Limit { input, limit, offset, limit_param, offset_param } => "Limit: "@
            + text::decimal(limit as nat) + offset_text(offset),
        PlanModel::Explain { input, options } => "Explain"@ + options_text(options),
        _ => "Plan: "@ + logical_plan::plan_kind_text(p),
    }
}

/// A word where a switch is on.
pub open spec fn word_if(on: bool, word: Seq<char>) -> Seq<char> {
    if on {
        word
    } else {
        Seq::empty()
    }
}

fn write_if(on: bool, word: &str) -> (r: String)
    ensures
        r@ == word_if(on, word@),
{
    if on {
        word.to_owned()
    } else {
        String::new()
    }
}

/// The groups of an aggregate, where it has some.
pub open spec fn group_text(group_by: Seq<ExprModel>) -> Seq<char> {
    if group_by.len() == 0 {
        Seq::empty()
    } else {
        " (GROUP BY "@ + bracketed(expr_texts(group_by)) + ")"@
    }
}

fn describe_groups(group_by: &Vec<LogicalExpr>) -> (r: String)
    ensures
        r@ == group_text(logical_plan::exprs_model(group_by@)),
{
    proof {
        logical_plan::lemma_exprs_model(group_by@);
    }
    if group_by.len() == 0 {
        String::new()
    } else {
        text::concat3(" (GROUP BY ", bracket(&texts_of_exprs(group_by)).as_str(), ")")
    }
}

/// The rows that a limit passes over, where it does.
pub open spec fn offset_text(offset: usize) -> Seq<char> {
    if offset > 0 {
        " OFFSET "@ + text::decimal(offset as nat)
    } else {
        Seq::empty()
    }
}

fn describe_offset(offset: usize) -> (r: String)
    ensures
        r@ == offset_text(offset),
{
    if offset > 0 {
        let mut out: String = " OFFSET ".to_owned();
        text::append_decimal(&mut out, offset as u128);
        out
    } else {
        String::new()
    }
}

/// The options of `EXPLAIN`, where there are some to name.
pub open spec fn options_text(o: ExplainOptions) -> Seq<char> {
    let words = option_words(o);
    if words.len() == 0 {
        Seq::empty()
    } else {
        " ("@ + joined(words, words.len(), ", "@) + ")"@
    }
}

fn describe_options(o: &ExplainOptions) -> (r: String)
    ensures
        r@ == options_text(*o),
{
    let words: Vec<String> = list_options(o);
    assert(schema::texts(words@).len() == words@.len());
    if words.len() == 0 {
        String::new()
    } else {
        text::concat3(" (", join_texts(&words, ", ").as_str(), ")")
    }
}

fn concat4(a: &str, b: &str, c: &str, d: &str) -> (r: String)
    ensures
        r@ == a@ + b@ + c@ + d@,
{
    let mut out: String = text::concat3(a, b, c);
    out.append(d);
    out
}

fn describe_node(plan: &LogicalPlan) -> (r: String)
    ensures
        r@ == node_text(plan@),
{
    match plan {
        LogicalPlan::Scan { table_name, projection, as_of, .. } => text::concat3(
            "Seq Scan on ",
            table_name.as_str(),
            describe_scan_suffix(projection, as_of).as_str(),
        ),
        LogicalPlan::FilteredScan { table_name, projection, predicate, as_of, .. } => concat4(
            "Filtered Scan on ",
            table_name.as_str(),
            describe_clause(" (filter: ", predicate, ")").as_str(),
            describe_scan_suffix(projection, as_of).as_str(),
        ),
        LogicalPlan::Filter { predicate, .. } => {
            let head: String = "Filter: ".to_owned();
            head.concat(tree_text::show_expr(predicate).as_str())
        },
        LogicalPlan::Project { aliases, distinct, .. } => concat4(
            "Project",
            write_if(*distinct, " DISTINCT").as_str(),
            ": ",
            bracket(aliases).as_str(),
        ),
        LogicalPlan::Aggregate { group_by, aggr_exprs, having, .. } => concat4(
            "Aggregate: ",
            bracket(&texts_of_exprs(aggr_exprs)).as_str(),
            describe_groups(group_by).as_str(),
            describe_clause_at_end(" HAVING ", having).as_str(),
        ),
        LogicalPlan::Join { join_type, on, lateral, .. } => {
            let mut out: String = write_if(*lateral, "LATERAL ");
            out.append("Nested Loop ");
            out.append(name_of_join_type(*join_type));
            out.append(" Join");
            out.append(describe_clause_at_end(" ON ", on).as_str());
            out
        },
        LogicalPlan::Sort { exprs, asc, .. } => {
            let head: String = "Sort: ".to_owned();
            head.concat(bracket(&texts_of_sort(exprs, asc)).as_str())
        },
        LogicalPlan::Limit { limit, offset, .. } => {
            let mut out: String = "Limit: ".to_owned();
            text::append_decimal(&mut out, *limit as u128);
            out.append(describe_offset(*offset).as_str());
            out
        },
        LogicalPlan::Explain { options, .. } => {
            let head: String = "Explain".to_owned();
            head.concat(describe_options(options).as_str())
        },
        _ => {
            let head: String = "Plan: ".to_owned();
            head.concat(logical_plan::plan_kind_name(plan))
        },
    }
}

fn describe_clause_at_end(word: &str, e: &Option<LogicalExpr>) -> (r: String)
    ensures
        r@ == clause_text(word@, logical_plan::opt_expr(*e), Seq::empty()),
{
    match e {
        Some(x) => {
            let mut out: String = word.to_owned();
            out.append(tree_text::show_expr(x).as_str());
            assert(out@ + Seq::<char>::empty() =~= out@);
            out
        },
        None => String::new(),
    }
}

/// The outline of a plan: a line for each node, those of its inputs below it and
/// further in.
pub open spec fn plan_lines(p: PlanModel, depth: nat, verbose: bool) -> Seq<Seq<char>>
    decreases p,
{
    let own = line_head(depth) + node_text(p);
    match p {
        PlanModel::Scan { .. } => if verbose {
            seq![own, indent_of(depth) + "  Output: all columns"@]
        } else {
            seq![own]
        },
        PlanModel::Filter { input, predicate } => seq![own] + plan_lines(
            *input,
            depth + 1,
            verbose,
        ),
        PlanModel::Project { input, exprs, aliases, distinct, distinct_on, source_alias } =>
            seq![own] + plan_lines(*input, depth + 1, verbose),
        PlanModel::Aggregate { input, group_by, aggr_exprs, having } => seq![own] + plan_lines(
            *input,
            depth + 1,
            verbose,
        ),
        PlanModel::Join { left, right, join_type, on, lateral } => seq![own] + plan_lines(
            *left,
            depth + 1,
            verbose,
        ) + plan_lines(*right, depth + 1, verbose),
        PlanModel::Sort { input, exprs, asc } => seq![own] + plan_lines(*input, depth + 1, verbose),
        PlanModel::Limit { input, limit, offset, limit_param, offset_param } => seq![own]
            + plan_lines(*input, depth + 1, verbose),
        PlanModel::Explain { input, options } => seq![own] + plan_lines(
            *input,
            depth + 1,
            options.verbose,
        ),
        _ => seq![own],
    }
}

/// Adds the outline of a plan, with the blanks that its lines begin with.
fn add_lines(
    lines: &mut Vec<String>,
    plan: &LogicalPlan,
    indent: &String,
    nested: bool,
    verbose: bool,
    Ghost(depth): Ghost<nat>,
)
    requires
        indent@ == indent_of(depth),
        nested == (depth > 0),
    ensures
        schema::texts(final(lines)@) == schema::texts(old(lines)@) + plan_lines(
            plan@,
            depth,
            verbose,
        ),
    decreases plan,
{
    let ghost before = schema::texts(lines@);
    let mut own: String = indent.clone();
    if nested {
        own.append("-> ");
    }
    own.append(describe_node(plan).as_str());
    let ghost first = own@;
    assert(first == line_head(depth) + node_text(plan@));
    lines.push(own);
    assert(schema::texts(lines@) =~= before + seq![first]);
    let mut inner: String = indent.clone();
    inner.append("  ");
    match plan {
        LogicalPlan::Scan { .. } => {
            if verbose {
                let mut second: String = indent.clone();
                second.append("  Output: all columns");
                let ghost s = second@;
                lines.push(second);
                assert(schema::texts(lines@) =~= before + seq![first, s]);
            }
        },
        LogicalPlan::Filter { input, .. } => {
            add_lines(lines, input, &inner, true, verbose, Ghost(depth + 1));
            proof {
                lemma_lines_added(before, first, plan_lines(input@, depth + 1, verbose));
            }
        },
        LogicalPlan::Project { input, .. } => {
            add_lines(lines, input, &inner, true, verbose, Ghost(depth + 1));
            proof {
                lemma_lines_added(before, first, plan_lines(input@, depth + 1, verbose));
            }
        },
        LogicalPlan::Aggregate { input, .. } => {
            add_lines(lines, input, &inner, true, verbose, Ghost(depth + 1));
            proof {
                lemma_lines_added(before, first, plan_lines(input@, depth + 1, verbose));
            }
        },
        LogicalPlan::Join { left, right, .. } => {
            add_lines(lines, left, &inner, true, verbose, Ghost(depth + 1));
            add_lines(lines, right, &inner, true, verbose, Ghost(depth + 1));
            proof {
                let l = plan_lines(left@, depth + 1, verbose);
                let r = plan_lines(right@, depth + 1, verbose);
                lemma_lines_added(before, first, l);
                assert(before + (seq![first] + l) + r =~= before + (seq![first] + l + r));
            }
        },
        LogicalPlan::Sort { input, .. } => {
            add_lines(lines, input, &inner, true, verbose, Ghost(depth + 1));
            proof {
                lemma_lines_added(before, first, plan_lines(input@, depth + 1, verbose));
            }
        },
        LogicalPlan::Limit { input, .. } => {
            add_lines(lines, input, &inner, true, verbose, Ghost(depth + 1));
            proof {
                lemma_lines_added(before, first, plan_lines(input@, depth + 1, verbose));
            }
        },
        LogicalPlan::Explain { input, options } => {
            add_lines(lines, input, &inner, true, options.verbose, Ghost(depth + 1));
            proof {
                lemma_lines_added(before, first, plan_lines(input@, depth + 1, options.verbose));
            }
        },
        _ => {},
    }
}

proof fn lemma_lines_added(before: Seq<Seq<char>>, first: Seq<char>, rest: Seq<Seq<char>>)
    ensures
        before + seq![first] + rest == before + (seq![first] + rest),
{
    assert(before + seq![first] + rest =~= before + (seq![first] + rest));
}

/// Adds the outline of a plan to some lines.
pub fn format_plan(lines: &mut Vec<String>, plan: &LogicalPlan, depth: usize, verbose: bool)
    ensures
        schema::texts(final(lines)@) == schema::texts(old(lines)@) + plan_lines(
            plan@,
            depth as nat,
            verbose,
        ),
{
    let indent: String = make_indent(depth);
    add_lines(lines, plan, &indent, depth > 0, verbose, Ghost(depth as nat));
}

/// An outline has a line for the plan itself.
pub proof fn law_an_outline_is_never_empty(p: PlanModel, depth: nat, verbose: bool)
    ensures
        plan_lines(p, depth, verbose).len() > 0,
        plan_lines(p, depth, verbose)[0] == line_head(depth) + node_text(p),
{
    let own = line_head(depth) + node_text(p);
    match p {
        PlanModel::Join { left, right, join_type, on, lateral } => {
            let l = plan_lines(*left, depth + 1, verbose);
            assert((seq![own] + l)[0] == own);
        },
        _ => {},
    }
}

} // verus!
