//! what the command line program decides and shows: listings, prompts, the
//! rendering of a run, and the requests that it can dump.

use crate::agent;
use crate::config;
use crate::config::{Config, HooksConfig, SkillsConfig, ToolsConfig};
use crate::glob;
use crate::hooks;
use crate::hooks::HookScript;
use crate::json;
use crate::json::{Json, Model};
use crate::permission;
use crate::permission::{Permission, PermissionLevel, PermissionOverride, PermissionsConfig, Rule};
use crate::resolve;
use crate::resolve::{AgentFrontmatter, ParsedDoc, SkillResult};
use crate::table;
use crate::table::Table;
use crate::text;
use crate::tools;
use crate::tools::ToolDefinition;
use vstd::prelude::*;

verus! {

// --- tables ---

/// the contents of the cells of a row.
pub open spec fn row_texts(rows: Seq<Vec<String>>) -> Seq<Seq<Seq<char>>> {
    Seq::new(rows.len(), |i: int| text::texts(rows[i]@))
}

/// the larger of two numbers.
pub open spec fn max(a: nat, b: nat) -> nat {
    if a >= b {
        a
    } else {
        b
    }
}

/// the width that a row needs in a column, in bytes.
pub open spec fn cell_width(row: Seq<Seq<char>>, c: int) -> nat {
    if 0 <= c < row.len() {
        text::utf8_len(row[c])
    } else {
        0
    }
}

/// the width of a column: that of its widest cell.
pub open spec fn column_width(rows: Seq<Seq<Seq<char>>>, c: int) -> nat
    decreases rows.len(),
{
    if rows.len() == 0 {
        0
    } else {
        max(column_width(rows.drop_last(), c), cell_width(rows.last(), c))
    }
}

/// the number of columns: that of the longest row.
pub open spec fn column_count(rows: Seq<Seq<Seq<char>>>) -> nat
    decreases rows.len(),
{
    if rows.len() == 0 {
        0
    } else {
        max(column_count(rows.drop_last()), rows.last().len())
    }
}

/// the widths of the columns.
pub open spec fn column_widths(rows: Seq<Seq<Seq<char>>>) -> Seq<nat> {
    Seq::new(column_count(rows), |c: int| column_width(rows, c))
}

/// the cells of a row, filled up to the widths of their columns but for the last.
pub open spec fn padded_cells(row: Seq<Seq<char>>, widths: Seq<nat>) -> Seq<Seq<char>> {
    Seq::new(
        row.len(),
        |i: int|
            if i + 1 < row.len() {
                text::pad_right(row[i], widths[i])
            } else {
                row[i]
            },
    )
}

/// the line of a row: its cells with two blanks between them.
pub open spec fn row_line(row: Seq<Seq<char>>, widths: Seq<nat>) -> Seq<char> {
    text::join(padded_cells(row, widths), "  "@)
}

/// the lines of rows.
pub open spec fn row_lines(rows: Seq<Seq<Seq<char>>>, widths: Seq<nat>) -> Seq<Seq<char>> {
    Seq::new(rows.len(), |i: int| row_line(rows[i], widths))
}

/// the row that separates a header from the rest: hyphens all over.
pub open spec fn separator(widths: Seq<nat>) -> Seq<Seq<char>> {
    Seq::new(widths.len(), |i: int| text::repeat('-', widths[i]))
}

/// the header as a list of rows: one, or none.
pub open spec fn header_rows(header: Option<&Vec<String>>) -> Seq<Seq<Seq<char>>> {
    match header {
        Some(h) => seq![text::texts(h@)],
        None => Seq::empty(),
    }
}

/// the lines of a table: those of the header and a separator, if there is a
/// header, and those of the rows.
pub open spec fn table_lines(
    header: Seq<Seq<Seq<char>>>,
    rows: Seq<Seq<Seq<char>>>,
) -> Seq<Seq<char>> {
    let widths = column_widths(header + rows);
    row_lines(
        if header.len() == 0 {
            rows
        } else {
            header.push(separator(widths)) + rows
        },
        widths,
    )
}

/// widths as they are computed.
spec fn widths_model(w: Seq<usize>) -> Seq<nat> {
    Seq::new(w.len(), |i: int| w[i] as nat)
}

/// makes the widths large enough for a row.
fn widen(widths: &mut Vec<usize>, row: &Vec<String>, Ghost(rows): Ghost<Seq<Seq<Seq<char>>>>)
    requires
        widths_model(old(widths)@) == column_widths(rows),
    ensures
        widths_model(final(widths)@) == column_widths(rows.push(text::texts(row@))),
{
    let ghost before = widths@;
    let ghost all = rows.push(text::texts(row@));
    proof {
        assert(all.drop_last() =~= rows);
        assert(widths_model(before).len() == column_widths(rows).len());
        assert forall|c: int| 0 <= c < before.len() implies before[c] as nat == column_width(
            rows,
            c,
        ) by {
            assert(widths_model(before)[c] == column_widths(rows)[c]);
        }
        assert(before.len() == column_count(rows));
        lemma_no_column(rows);
    }
    let mut i: usize = 0;
    while i < row.len()
        invariant
            i <= row@.len(),
            all == rows.push(text::texts(row@)),
            all.drop_last() == rows,
            widths@.len() == max(before.len(), i as nat),
            before.len() == column_count(rows),
            forall|c: int|
                0 <= c < before.len() ==> before[c] as nat == #[trigger] column_width(rows, c),
            forall|c: int| c >= before.len() ==> #[trigger] column_width(rows, c) == 0,
            forall|c: int|
                0 <= c < i ==> (#[trigger] widths@[c]) as nat == max(
                    column_width(rows, c),
                    cell_width(text::texts(row@), c),
                ),
            forall|c: int| i <= c < before.len() ==> #[trigger] widths@[c] == before[c],
        decreases row@.len() - i,
    {
        let w = text::byte_len(row[i].as_str());
        assert(w == cell_width(text::texts(row@), i as int));
        if i < widths.len() {
            assert(widths@[i as int] as nat == column_width(rows, i as int));
            if widths[i] < w {
                widths.set(i, w);
            }
        } else {
            assert(column_width(rows, i as int) == 0);
            widths.push(w);
        }
        i += 1;
    }
    proof {
        let l = widths_model(widths@);
        let r = column_widths(all);
        assert forall|c: int| 0 <= c < l.len() implies #[trigger] l[c] == r[c] by {
            if c >= row@.len() {
                assert(widths@[c] == before[c]);
                assert(cell_width(text::texts(row@), c) == 0);
            }
        }
        assert(l =~= r);
    }
}

/// beyond the columns there is nothing.
proof fn lemma_no_column(rows: Seq<Seq<Seq<char>>>)
    ensures
        forall|c: int| c >= column_count(rows) ==> #[trigger] column_width(rows, c) == 0,
    decreases rows.len(),
{
    if rows.len() > 0 {
        lemma_no_column(rows.drop_last());
        assert forall|c: int| c >= column_count(rows) implies #[trigger] column_width(rows, c)
            == 0 by {
            assert(column_width(rows.drop_last(), c) == 0);
        }
    }
}

/// every row has at most as many cells as there are columns.
proof fn lemma_row_fits(rows: Seq<Seq<Seq<char>>>, i: int)
    requires
        0 <= i < rows.len(),
    ensures
        rows[i].len() <= column_count(rows),
    decreases rows.len(),
{
    if i < rows.len() - 1 {
        lemma_row_fits(rows.drop_last(), i);
    }
}

/// the line of a row.
fn format_row(row: &Vec<String>, widths: &Vec<usize>) -> (r: String)
    requires
        row@.len() <= widths@.len(),
    ensures
        r@ == row_line(text::texts(row@), widths_model(widths@)),
{
    let mut cells: Vec<String> = Vec::new();
    let mut i: usize = 0;
    let n = row.len();
    while i < n
        invariant
            i <= n,
            n == row@.len(),
            n <= widths@.len(),
            cells@.len() == i,
            forall|j: int|
                0 <= j < i ==> (#[trigger] cells@[j])@ == padded_cells(
                    text::texts(row@),
                    widths_model(widths@),
                )[j],
        decreases n - i,
    {
        if n - i > 1 {
            cells.push(text::padded(row[i].as_str(), widths[i]));
        } else {
            cells.push(row[i].clone());
        }
        i += 1;
    }
    assert(text::texts(cells@) =~= padded_cells(text::texts(row@), widths_model(widths@)));
    text::join_of(cells.as_slice(), "  ")
}

/// makes the widths large enough for all rows.
fn widen_all(
    widths: &mut Vec<usize>,
    rows: &Vec<Vec<String>>,
    Ghost(before): Ghost<Seq<Seq<Seq<char>>>>,
)
    requires
        widths_model(old(widths)@) == column_widths(before),
    ensures
        widths_model(final(widths)@) == column_widths(before + row_texts(rows@)),
{
    let ghost body = row_texts(rows@);
    let mut i: usize = 0;
    assert(before + body.take(0) =~= before);
    while i < rows.len()
        invariant
            i <= rows@.len(),
            body == row_texts(rows@),
            widths_model(widths@) == column_widths(before + body.take(i as int)),
        decreases rows@.len() - i,
    {
        widen(widths, &rows[i], Ghost(before + body.take(i as int)));
        assert((before + body.take(i as int)).push(text::texts(rows@[i as int]@)) =~= before
            + body.take(i + 1));
        i += 1;
    }
    assert(body.take(rows@.len() as int) =~= body);
}

/// the row that separates a header from the rest.
fn dashes(widths: &Vec<usize>) -> (r: Vec<String>)
    ensures
        text::texts(r@) == separator(widths_model(widths@)),
        r@.len() == widths@.len(),
{
    let mut r: Vec<String> = Vec::new();
    let mut i: usize = 0;
    while i < widths.len()
        invariant
            i <= widths@.len(),
            r@.len() == i,
            forall|j: int|
                0 <= j < i ==> (#[trigger] r@[j])@ == text::repeat('-', widths@[j] as nat),
        decreases widths@.len() - i,
    {
        r.push(text::repeated('-', widths[i]));
        i += 1;
    }
    assert(text::texts(r@) =~= separator(widths_model(widths@)));
    r
}

/// the lines of a padded table with 2-space column gaps. a table without a header
/// and without rows has none.
pub fn format_table(header: Option<&Vec<String>>, rows: &Vec<Vec<String>>) -> (r: Vec<String>)
    ensures
        text::texts(r@) == table_lines(header_rows(header), row_texts(rows@)),
{
    let ghost head = header_rows(header);
    let ghost body = row_texts(rows@);
    let ghost all = head + body;
    let mut widths: Vec<usize> = Vec::new();
    assert(widths_model(widths@) =~= column_widths(Seq::empty()));
    if let Some(h) = header {
        widen(&mut widths, h, Ghost(Seq::empty()));
        assert(Seq::<Seq<Seq<char>>>::empty().push(text::texts(h@)) =~= head);
    } else {
        assert(head =~= Seq::empty());
    }
    widen_all(&mut widths, rows, Ghost(head));
    let ghost w = widths_model(widths@);
    let ghost front = if head.len() == 0 {
        Seq::<Seq<Seq<char>>>::empty()
    } else {
        head.push(separator(w))
    };
    let mut out: Vec<String> = Vec::new();
    if let Some(h) = header {
        proof {
            lemma_row_fits(all, 0);
            assert(all[0] == text::texts(h@));
        }
        let sep = dashes(&widths);
        out.push(format_row(h, &widths));
        out.push(format_row(&sep, &widths));
    }
    let ghost start = out@;
    let mut i: usize = 0;
    while i < rows.len()
        invariant
            i <= rows@.len(),
            body == row_texts(rows@),
            all == head + body,
            head.len() <= 1,
            w == column_widths(all),
            w == widths_model(widths@),
            out@.len() == start.len() + i,
            forall|j: int| 0 <= j < start.len() ==> out@[j] == start[j],
            forall|j: int|
                0 <= j < i ==> (#[trigger] out@[start.len() + j])@ == row_line(body[j], w),
        decreases rows@.len() - i,
    {
        proof {
            lemma_row_fits(all, head.len() + i);
            assert(all[head.len() + i] == body[i as int]);
            assert(w.len() == widths@.len());
            assert(body[i as int].len() == rows@[i as int]@.len());
        }
        out.push(format_row(&rows[i], &widths));
        i += 1;
    }
    proof {
        let l = text::texts(out@);
        let r = table_lines(head, body);
        assert(start.len() == front.len());
        assert(front + body =~= if head.len() == 0 {
            body
        } else {
            head.push(separator(w)) + body
        });
        assert forall|j: int| 0 <= j < l.len() implies #[trigger] l[j] == r[j] by {
            if j < start.len() {
                assert(out@[j] == start[j]);
                assert((front + body)[j] == front[j]);
            } else {
                assert(out@[start.len() + (j - start.len())]@ == row_line(
                    body[j - start.len()],
                    w,
                ));
                assert((front + body)[j] == body[j - start.len()]);
            }
        }
        assert(l =~= r);
    }
    out
}

// --- permissions ---

/// one pattern is shown before another: the more specific one first, that is the
/// one with fewer wildcards, then the longer one, then in key order.
pub open spec fn shown_before(a: Seq<char>, b: Seq<char>) -> bool {
    ||| glob::wildcards(a) < glob::wildcards(b)
    ||| glob::wildcards(a) == glob::wildcards(b) && text::utf8_len(a) > text::utf8_len(b)
    ||| glob::wildcards(a) == glob::wildcards(b) && text::utf8_len(a) == text::utf8_len(b)
        && text::before(a, b)
}

/// `names` lists the patterns in the order in which they are shown.
pub open spec fn lists_shown(names: Seq<Seq<char>>, keys: Set<Seq<char>>) -> bool {
    &&& table::in_order(names, |a: Seq<char>, b: Seq<char>| shown_before(a, b))
    &&& forall|k: Seq<char>| #[trigger] names.contains(k) == keys.contains(k)
}

/// the patterns in the order in which they are shown.
pub open spec fn shown_order(keys: Set<Seq<char>>) -> Seq<Seq<char>> {
    choose|names: Seq<Seq<char>>| lists_shown(names, keys)
}

/// the rows of a tool's patterns; the first one names the tool.
pub open spec fn pattern_rows(
    tool: Seq<char>,
    names: Seq<Seq<char>>,
    patterns: Map<Seq<char>, PermissionLevel>,
) -> Seq<Seq<Seq<char>>> {
    Seq::new(
        names.len(),
        |i: int|
            seq![
                if i == 0 {
                    tool
                } else {
                    Seq::empty()
                },
                names[i],
                permission::level_name(patterns[names[i]]),
            ],
    )
}

/// the rows of a tool.
pub open spec fn tool_rows(tool: Seq<char>, rule: Rule) -> Seq<Seq<Seq<char>>> {
    match rule {
        Rule::Level(l) => seq![seq![tool, Seq::empty(), permission::level_name(l)]],
        Rule::Patterns(patterns) => pattern_rows(
            tool,
            shown_order(patterns.dom()),
            patterns,
        ),
    }
}

/// the rows of the named tools.
pub open spec fn all_tool_rows(names: Seq<Seq<char>>, rules: Map<Seq<char>, Rule>) -> Seq<
    Seq<Seq<char>>,
>
    decreases names.len(),
{
    if names.len() == 0 {
        Seq::empty()
    } else {
        all_tool_rows(names.drop_last(), rules) + tool_rows(names.last(), rules[names.last()])
    }
}

/// the order in which patterns are shown has no cycles of two.
proof fn lemma_shown_asymmetric(a: Seq<char>, b: Seq<char>)
    requires
        shown_before(a, b),
    ensures
        !shown_before(b, a),
{
    if text::before(a, b) {
        text::lemma_before_asymmetric(a, b);
    }
}

/// of two patterns one is shown before the other.
proof fn lemma_shown_total(a: Seq<char>, b: Seq<char>)
    ensures
        a == b || shown_before(a, b) || shown_before(b, a),
{
    text::lemma_before_total(a, b);
}

/// the order in which patterns are shown is transitive.
proof fn lemma_shown_transitive(a: Seq<char>, b: Seq<char>, c: Seq<char>)
    requires
        shown_before(a, b),
        shown_before(b, c),
    ensures
        shown_before(a, c),
{
    if text::before(a, b) && text::before(b, c) {
        text::lemma_before_transitive(a, b, c);
    }
}

/// there is only one list of the patterns in the order in which they are shown.
proof fn lemma_shown_order(names: Seq<Seq<char>>, keys: Set<Seq<char>>)
    requires
        lists_shown(names, keys),
    ensures
        shown_order(keys) == names,
{
    let lt = |a: Seq<char>, b: Seq<char>| shown_before(a, b);
    let other = shown_order(keys);
    assert(lists_shown(other, keys));
    assert forall|x: Seq<char>, y: Seq<char>| #[trigger] lt(x, y) implies !lt(y, x) by {
        lemma_shown_asymmetric(x, y);
    }
    assert forall|k: Seq<char>| #[trigger] names.contains(k) == other.contains(k) by {
        assert(names.contains(k) == keys.contains(k));
        assert(other.contains(k) == keys.contains(k));
    }
    table::lemma_one_order(names, other, lt);
}

/// the first one of the listed patterns of a tool that applies to an input is the
/// one that decides.
pub proof fn law_first_listed_row_wins(
    patterns: Map<Seq<char>, PermissionLevel>,
    names: Seq<Seq<char>>,
    i: int,
    s: Seq<char>,
    path_mode: bool,
)
    requires
        lists_shown(names, patterns.dom()),
        0 <= i < names.len(),
        permission::applies(names[i], s, path_mode),
        forall|j: int| 0 <= j < i ==> !#[trigger] permission::applies(names[j], s, path_mode),
    ensures
        names == shown_order(patterns.dom()),
        permission::level_for(Rule::Patterns(patterns), s, path_mode) == patterns[names[i]],
{
    lemma_shown_order(names, patterns.dom());
    let lt = |a: Seq<char>, b: Seq<char>| shown_before(a, b);
    let score = permission::by_rule(s, path_mode);
    let p = names[i];
    assert(names.contains(p));
    assert forall|q: Seq<char>| #[trigger]
        patterns.dom().contains(q) && score(q) is Some && q != p implies glob::preferred(
        score,
        p,
        q,
    ) by {
        assert(names.contains(q));
        let j = choose|j: int| 0 <= j < names.len() && names[j] == q;
        if j < i {
            assert(!permission::applies(names[j], s, path_mode));
        }
        assert(lt(names[i], names[j]));
        text::lemma_utf8_len_bound(p);
        text::lemma_utf8_len_bound(q);
        glob::lemma_wildcards_bound(p);
        glob::lemma_wildcards_bound(q);
    }
    glob::lemma_best(patterns.dom(), score, p);
}

/// whether one pattern is shown before another.
fn is_shown_before(a: &str, b: &str) -> (r: bool)
    ensures
        r == shown_before(a@, b@),
{
    let wa = glob::pattern_wildcards(a);
    let wb = glob::pattern_wildcards(b);
    let la = text::byte_len(a);
    let lb = text::byte_len(b);
    wa < wb || (wa == wb && (la > lb || (la == lb && text::is_before(a, b))))
}

/// puts a new pattern in its place.
fn insert_pattern(out: &mut Vec<String>, pattern: String)
    requires
        table::in_order(
            text::texts(old(out)@),
            |a: Seq<char>, b: Seq<char>| shown_before(a, b),
        ),
        !text::texts(old(out)@).contains(pattern@),
    ensures
        table::in_order(
            text::texts(final(out)@),
            |a: Seq<char>, b: Seq<char>| shown_before(a, b),
        ),
        forall|k: Seq<char>| #[trigger]
            text::texts(final(out)@).contains(k) == (text::texts(old(out)@).contains(k) || k
                == pattern@),
{
    let ghost before = text::texts(out@);
    let ghost key = pattern@;
    let mut p: usize = out.len();
    while p > 0 && is_shown_before(pattern.as_str(), out[p - 1].as_str())
        invariant
            p <= out@.len(),
            before == text::texts(out@),
            pattern@ == key,
            forall|j: int| p <= j < before.len() ==> shown_before(key, #[trigger] before[j]),
        decreases p,
    {
        p -= 1;
    }
    proof {
        if p > 0 {
            assert(before[p - 1] == out@[p - 1]@);
            assert(before.contains(before[p - 1]));
            lemma_shown_total(before[p - 1], key);
            assert(shown_before(before[p - 1], key));
        }
    }
    out.insert(p, pattern);
    proof {
        let after = text::texts(out@);
        assert(after =~= before.insert(p as int, key));
        assert forall|i: int, j: int| 0 <= i < j < after.len() implies shown_before(
            #[trigger] after[i],
            #[trigger] after[j],
        ) by {
            let lt = |a: Seq<char>, b: Seq<char>| shown_before(a, b);
            if j < p {
                assert(after[i] == before[i] && after[j] == before[j]);
                assert(lt(before[i], before[j]));
            } else if j == p {
                assert(after[i] == before[i]);
                if i < p - 1 {
                    assert(lt(before[i], before[p - 1]));
                    lemma_shown_transitive(before[i], before[p - 1], key);
                }
            } else {
                assert(after[j] == before[j - 1]);
                if i < p {
                    assert(after[i] == before[i]);
                    assert(lt(before[i], before[j - 1]));
                } else if i > p {
                    assert(after[i] == before[i - 1]);
                    assert(lt(before[i - 1], before[j - 1]));
                }
            }
        }
        assert forall|k: Seq<char>| #[trigger] after.contains(k) == (before.contains(k) || k
            == key) by {
            if before.contains(k) {
                let i = choose|i: int| 0 <= i < before.len() && before[i] == k;
                if i < p {
                    assert(after[i] == k);
                } else {
                    assert(after[i + 1] == k);
                }
            }
            if k == key {
                assert(after[p as int] == k);
            }
            if after.contains(k) {
                let i = choose|i: int| 0 <= i < after.len() && after[i] == k;
                if i < p {
                    assert(before[i] == k);
                } else if i > p {
                    assert(before[i - 1] == k);
                }
            }
        }
    }
}

/// the patterns in the order in which they are shown.
fn order_patterns(patterns: &Table<PermissionLevel>) -> (r: Vec<String>)
    ensures
        text::texts(r@) == shown_order(patterns@.dom()),
        forall|i: int| 0 <= i < r@.len() ==> patterns@.contains_key((#[trigger] r@[i])@),
{
    let mut out: Vec<String> = Vec::new();
    let n = patterns.len();
    let ghost list = patterns.list();
    let mut i: usize = 0;
    assert(list.take(0) =~= Seq::empty());
    while i < n
        invariant
            i <= n,
            n == list.len(),
            list == patterns.list(),
            table::sorted(list),
            table::in_order(
                text::texts(out@),
                |a: Seq<char>, b: Seq<char>| shown_before(a, b),
            ),
            forall|k: Seq<char>| #[trigger]
                text::texts(out@).contains(k) == table::map_of(list.take(i as int)).contains_key(k),
        decreases n - i,
    {
        let key = patterns.key_at(i).clone();
        let ghost t = list.take(i + 1);
        proof {
            assert(t.drop_last() =~= list.take(i as int));
            table::lemma_new_key(list, i as int);
            assert(!text::texts(out@).contains(key@));
        }
        let ghost before = text::texts(out@);
        insert_pattern(&mut out, key);
        proof {
            assert forall|k: Seq<char>| #[trigger] text::texts(out@).contains(k) == table::map_of(
                t,
            ).contains_key(k) by {
                assert(before.contains(k) == table::map_of(list.take(i as int)).contains_key(k));
            }
        }
        i += 1;
    }
    proof {
        assert(list.take(n as int) =~= list);
        let names = text::texts(out@);
        assert forall|k: Seq<char>| #[trigger] names.contains(k) == patterns@.dom().contains(k) by {
            assert(names.contains(k) == table::map_of(list).contains_key(k));
        }
        assert(lists_shown(names, patterns@.dom()));
        lemma_shown_order(names, patterns@.dom());
        assert forall|j: int| 0 <= j < out@.len() implies patterns@.contains_key(
            (#[trigger] out@[j])@,
        ) by {
            assert(names[j] == out@[j]@);
            assert(names.contains(names[j]));
        }
    }
    out
}

/// a row of three cells.
fn row3(a: &str, b: &str, c: &str) -> (r: Vec<String>)
    ensures
        text::texts(r@) == seq![a@, b@, c@],
{
    let mut r: Vec<String> = Vec::new();
    r.push(a.to_owned());
    r.push(b.to_owned());
    r.push(c.to_owned());
    assert(text::texts(r@) =~= seq![a@, b@, c@]);
    r
}

/// adds the rows of a tool.
fn add_tool_rows(out: &mut Vec<Vec<String>>, tool: &str, rule: &Permission)
    ensures
        row_texts(final(out)@) == row_texts(old(out)@) + tool_rows(tool@, rule@),
{
    let ghost before = out@;
    match rule {
        Permission::Level(l) => {
            proof {
                reveal_strlit("");
                assert(""@ =~= Seq::empty());
            }
            let row = row3(tool, "", permission::permission_level_str(l));
            out.push(row);
            assert(row_texts(out@) =~= row_texts(before) + tool_rows(tool@, rule@));
        },
        Permission::Patterns(patterns) => {
            let names = order_patterns(patterns);
            let ghost shown = text::texts(names@);
            let mut i: usize = 0;
            while i < names.len()
                invariant
                    i <= names@.len(),
                    shown == text::texts(names@),
                    forall|j: int|
                        0 <= j < names@.len() ==> patterns@.contains_key(
                            (#[trigger] names@[j])@,
                        ),
                    out@.len() == before.len() + i,
                    forall|j: int| 0 <= j < before.len() ==> out@[j] == before[j],
                    forall|j: int|
                        0 <= j < i ==> text::texts((#[trigger] out@[before.len() + j])@)
                            == pattern_rows(tool@, shown, patterns@)[j],
                decreases names@.len() - i,
            {
                proof {
                    reveal_strlit("");
                    assert(""@ =~= Seq::empty());
                }
                assert(patterns@.contains_key(names@[i as int]@));
                let first = if i == 0 {
                    tool
                } else {
                    ""
                };
                if let Some(l) = patterns.get(names[i].as_str()) {
                    let row = row3(first, names[i].as_str(), permission::permission_level_str(l));
                    out.push(row);
                    assert(text::texts(row@) =~= pattern_rows(tool@, shown, patterns@)[i as int]);
                }
                i += 1;
            }
            proof {
                let l = row_texts(out@);
                let r = row_texts(before) + pattern_rows(tool@, shown, patterns@);
                assert forall|j: int| 0 <= j < l.len() implies #[trigger] l[j] == r[j] by {
                    if j >= before.len() {
                        assert(l[j] == text::texts(out@[before.len() + (j - before.len())]@));
                    }
                }
                assert(l =~= r);
            }
        },
    }
}

/// the rows of the table of permissions: the tools in key order, and the patterns
/// of each one most specific first.
pub fn permission_rows(perms: &PermissionsConfig) -> (r: Vec<Vec<String>>)
    ensures
        row_texts(r@) == all_tool_rows(table::key_order(perms@.dom()), perms@),
{
    let mut out: Vec<Vec<String>> = Vec::new();
    let n = perms.tools.len();
    let ghost names = table::names_of(perms.tools.list());
    proof {
        table::lemma_names_of(perms.tools.list());
        assert(perms@.dom() =~= perms.tools@.dom());
        assert(names.take(0) =~= Seq::empty());
        assert(row_texts(out@) =~= Seq::empty());
    }
    let mut i: usize = 0;
    while i < n
        invariant
            i <= n,
            n == perms.tools.list().len(),
            names == table::names_of(perms.tools.list()),
            row_texts(out@) == all_tool_rows(names.take(i as int), perms@),
        decreases n - i,
    {
        let name = perms.tools.key_at(i);
        proof {
            assert(names.take(i + 1).drop_last() =~= names.take(i as int));
            assert(names.take(i + 1).last() == name@);
        }
        add_tool_rows(&mut out, name.as_str(), perms.tools.value_at(i));
        i += 1;
    }
    assert(names.take(n as int) =~= names);
    out
}

// --- listings ---

/// "true" or "false".
pub open spec fn status_word(active: bool) -> Seq<char> {
    if active {
        "true"@
    } else {
        "false"@
    }
}

/// "true" or "false".
pub fn status_str(active: bool) -> (r: &'static str)
    ensures
        r@ == status_word(active),
{
    if active {
        "true"
    } else {
        "false"
    }
}

/// the row of a registered tool.
pub open spec fn hook_tool_row(
    tool: hooks::HookToolDef,
    hook_active: bool,
    gates: Map<Seq<char>, bool>,
    list: Option<Vec<String>>,
) -> Seq<Seq<char>> {
    seq![
        tool.full_name@,
        tool.description@,
        status_word(hook_active && config::active(gates, tool.full_name@, list)),
    ]
}

/// the rows of a script's tools.
pub open spec fn hook_tool_rows(
    list: Seq<hooks::HookToolDef>,
    hook_active: bool,
    gates: Map<Seq<char>, bool>,
    names: Option<Vec<String>>,
) -> Seq<Seq<Seq<char>>> {
    Seq::new(list.len(), |i: int| hook_tool_row(list[i], hook_active, gates, names))
}

/// the rows of the scripts' tools; a tool is enabled where its script and its own
/// name are.
pub open spec fn script_tool_rows<P>(
    scripts: Seq<HookScript<P>>,
    tool_gates: Map<Seq<char>, bool>,
    tool_list: Option<Vec<String>>,
    hook_gates: Map<Seq<char>, bool>,
    hook_list: Option<Vec<String>>,
) -> Seq<Seq<Seq<char>>>
    decreases scripts.len(),
{
    if scripts.len() == 0 {
        Seq::empty()
    } else {
        script_tool_rows(scripts.drop_last(), tool_gates, tool_list, hook_gates, hook_list)
            + hook_tool_rows(
            scripts.last().tools@,
            config::active(hook_gates, scripts.last().name@, hook_list),
            tool_gates,
            tool_list,
        )
    }
}

/// the rows of the table of tools.
pub open spec fn all_tools_rows<P>(
    scripts: Seq<HookScript<P>>,
    tool_gates: Map<Seq<char>, bool>,
    tool_list: Option<Vec<String>>,
    hook_gates: Map<Seq<char>, bool>,
    hook_list: Option<Vec<String>>,
) -> Seq<Seq<Seq<char>>> {
    seq![
        seq![
            "read"@,
            "read the contents of a file"@,
            status_word(config::active(tool_gates, "read"@, tool_list)),
        ],
        seq![
            "bash"@,
            "execute a bash command"@,
            status_word(config::active(tool_gates, "bash"@, tool_list)),
        ],
    ] + script_tool_rows(scripts, tool_gates, tool_list, hook_gates, hook_list)
}

/// adds the rows of a script's tools.
fn add_script_tools(
    out: &mut Vec<Vec<String>>,
    list: &Vec<hooks::HookToolDef>,
    hook_active: bool,
    tools: &ToolsConfig,
    names: &Option<Vec<String>>,
)
    ensures
        row_texts(final(out)@) == row_texts(old(out)@) + hook_tool_rows(
            list@,
            hook_active,
            tools@,
            *names,
        ),
{
    let ghost before = out@;
    let mut i: usize = 0;
    while i < list.len()
        invariant
            i <= list@.len(),
            out@.len() == before.len() + i,
            forall|j: int| 0 <= j < before.len() ==> out@[j] == before[j],
            forall|j: int|
                0 <= j < i ==> text::texts((#[trigger] out@[before.len() + j])@)
                    == hook_tool_row(list@[j], hook_active, tools@, *names),
        decreases list@.len() - i,
    {
        let t = &list[i];
        let active = hook_active && tools.is_active(t.full_name.as_str(), names);
        out.push(row3(t.full_name.as_str(), t.description.as_str(), status_str(active)));
        i += 1;
    }
    proof {
        let l = row_texts(out@);
        let r = row_texts(before) + hook_tool_rows(list@, hook_active, tools@, *names);
        assert forall|j: int| 0 <= j < l.len() implies #[trigger] l[j] == r[j] by {
            if j >= before.len() {
                assert(l[j] == text::texts(out@[before.len() + (j - before.len())]@));
            }
        }
        assert(l =~= r);
    }
}

/// the rows of the table of tools: the built-in ones, and those of all discovered
/// scripts.
pub fn tools_table<P>(
    scripts: &Vec<HookScript<P>>,
    tools: &ToolsConfig,
    tools_override: &Option<Vec<String>>,
    hook_gates: &HooksConfig,
    hooks_override: &Option<Vec<String>>,
) -> (r: Vec<Vec<String>>)
    ensures
        row_texts(r@) == all_tools_rows(
            scripts@,
            tools@,
            *tools_override,
            hook_gates@,
            *hooks_override,
        ),
{
    let mut out: Vec<Vec<String>> = Vec::new();
    let read_active = tools.is_active("read", tools_override);
    let bash_active = tools.is_active("bash", tools_override);
    out.push(row3("read", "read the contents of a file", status_str(read_active)));
    out.push(row3("bash", "execute a bash command", status_str(bash_active)));
    let ghost front = row_texts(out@);
    let mut i: usize = 0;
    proof {
        assert(scripts@.take(0) =~= Seq::empty());
        assert(front + script_tool_rows(
            scripts@.take(0),
            tools@,
            *tools_override,
            hook_gates@,
            *hooks_override,
        ) =~= front);
    }
    while i < scripts.len()
        invariant
            i <= scripts@.len(),
            row_texts(out@) == front + script_tool_rows(
                scripts@.take(i as int),
                tools@,
                *tools_override,
                hook_gates@,
                *hooks_override,
            ),
        decreases scripts@.len() - i,
    {
        let ghost before = row_texts(out@);
        let ghost t = scripts@.take(i + 1);
        assert(t.drop_last() =~= scripts@.take(i as int));
        let script = &scripts[i];
        let hook_active = hook_gates.is_active(script.name.as_str(), hooks_override);
        add_script_tools(&mut out, &script.tools, hook_active, tools, tools_override);
        assert(row_texts(out@) =~= front + script_tool_rows(
            t,
            tools@,
            *tools_override,
            hook_gates@,
            *hooks_override,
        ));
        i += 1;
    }
    proof {
        assert(scripts@.take(scripts@.len() as int) =~= scripts@);
        assert(front =~= seq![
            seq![
                "read"@,
                "read the contents of a file"@,
                status_word(config::active(tools@, "read"@, *tools_override)),
            ],
            seq![
                "bash"@,
                "execute a bash command"@,
                status_word(config::active(tools@, "bash"@, *tools_override)),
            ],
        ]);
    }
    out
}

/// the full names of a script's tools.
pub open spec fn full_names(list: Seq<hooks::HookToolDef>) -> Seq<Seq<char>> {
    Seq::new(list.len(), |i: int| list[i].full_name@)
}

/// the full names of a script's tools.
fn names_of_tools(list: &Vec<hooks::HookToolDef>) -> (r: Vec<String>)
    ensures
        text::texts(r@) == full_names(list@),
{
    let mut r: Vec<String> = Vec::new();
    let mut i: usize = 0;
    while i < list.len()
        invariant
            i <= list@.len(),
            r@.len() == i,
            forall|j: int| 0 <= j < i ==> (#[trigger] r@[j])@ == list@[j].full_name@,
        decreases list@.len() - i,
    {
        r.push(list[i].full_name.clone());
        i += 1;
    }
    assert(text::texts(r@) =~= full_names(list@));
    r
}

/// the row of a script: its name, its path as it is shown, its tools, and whether
/// it is enabled.
pub open spec fn hook_cells(
    name: Seq<char>,
    path: Seq<char>,
    list: Seq<hooks::HookToolDef>,
    active: bool,
) -> Seq<Seq<char>> {
    seq![name, path, text::join(full_names(list), ","@), status_word(active)]
}

/// the row of a script: its name, its path as it is shown, its tools, and whether
/// it is enabled.
pub fn hook_row<P>(
    script: &HookScript<P>,
    path: &str,
    hook_gates: &HooksConfig,
    hooks_override: &Option<Vec<String>>,
) -> (r: Vec<String>)
    ensures
        text::texts(r@) == seq![
            script.name@,
            path@,
            text::join(full_names(script.tools@), ","@),
            status_word(config::active(hook_gates@, script.name@, *hooks_override)),
        ],
        text::texts(r@) == hook_cells(
            script.name@,
            path@,
            script.tools@,
            config::active(hook_gates@, script.name@, *hooks_override),
        ),
{
    let names = names_of_tools(&script.tools);
    let mut r: Vec<String> = Vec::new();
    r.push(script.name.clone());
    r.push(path.to_owned());
    r.push(text::join_of(names.as_slice(), ","));
    r.push(status_str(hook_gates.is_active(script.name.as_str(), hooks_override)).to_owned());
    assert(text::texts(r@) =~= seq![
        script.name@,
        path@,
        text::join(full_names(script.tools@), ","@),
        status_word(config::active(hook_gates@, script.name@, *hooks_override)),
    ]);
    r
}

/// the row of an agent; what cannot be read has no description.
pub open spec fn agent_cells(name: Seq<char>, description: Option<Seq<char>>) -> Seq<Seq<char>> {
    seq![
        name,
        if description is Some {
            description->0
        } else {
            Seq::empty()
        },
    ]
}

/// the row of an agent; what cannot be read has no description.
pub fn agent_row(name: &str, description: Option<&str>) -> (r: Vec<String>)
    ensures
        text::texts(r@) == agent_cells(name@, text::str_opt(description)),
        text::texts(r@) == seq![
            name@,
            match description {
                Some(d) => d@,
                None => Seq::empty(),
            },
        ],
{
    let mut r: Vec<String> = Vec::new();
    r.push(name.to_owned());
    match description {
        Some(d) => {
            r.push(d.to_owned());
            assert(text::texts(r@) =~= seq![name@, d@]);
        },
        None => {
            r.push(String::new());
            assert(text::texts(r@) =~= seq![name@, Seq::empty()]);
        },
    }
    r
}

/// the row of a skill; what cannot be read has no description.
pub fn skill_row(name: &str, description: Option<&str>, skills: &SkillsConfig) -> (r: Vec<String>)
    ensures
        text::texts(r@) == agent_cells(name@, text::str_opt(description)).push(
            status_word(config::enabled(skills@, name@)),
        ),
        text::texts(r@) == seq![
            name@,
            match description {
                Some(d) => d@,
                None => Seq::empty(),
            },
            status_word(config::enabled(skills@, name@)),
        ],
{
    let mut r = agent_row(name, description);
    let ghost before = r@;
    let status = status_str(skills.is_active(name)).to_owned();
    r.push(status);
    assert(text::texts(r@) =~= text::texts(before).push(status@));
    r
}

/// the row of a provider: its name, its client (its name where it sets none), and
/// its base url (a hyphen where it sets none).
pub open spec fn provider_row(p: config::ProviderConfig) -> Seq<Seq<char>> {
    seq![
        p.name@,
        match p.client {
            Some(c) => c@,
            None => p.name@,
        },
        match p.base_url {
            Some(u) => u@,
            None => "-"@,
        },
    ]
}

/// the rows of the table of providers.
pub fn provider_rows(providers: &Vec<config::ProviderConfig>) -> (r: Vec<Vec<String>>)
    ensures
        row_texts(r@) == Seq::new(providers@.len(), |i: int| provider_row(providers@[i])),
{
    let mut out: Vec<Vec<String>> = Vec::new();
    let mut i: usize = 0;
    while i < providers.len()
        invariant
            i <= providers@.len(),
            out@.len() == i,
            forall|j: int|
                0 <= j < i ==> text::texts((#[trigger] out@[j])@) == provider_row(providers@[j]),
        decreases providers@.len() - i,
    {
        let p = &providers[i];
        let client = match &p.client {
            Some(c) => c.as_str(),
            None => p.name.as_str(),
        };
        let url = match &p.base_url {
            Some(u) => u.as_str(),
            None => "-",
        };
        out.push(row3(p.name.as_str(), client, url));
        i += 1;
    }
    assert(row_texts(out@) =~= Seq::new(providers@.len(), |i: int| provider_row(providers@[i])));
    out
}

/// a path as it is shown: relative to cwd when it is under it, else `~/...` when under
/// $HOME, else as it is.
pub open spec fn shortened(
    path: Seq<char>,
    under_cwd: Option<Seq<char>>,
    under_home: Option<Seq<char>>,
) -> Seq<char> {
    if under_cwd is Some {
        under_cwd->0
    } else if under_home is Some {
        "~/"@ + under_home->0
    } else {
        path
    }
}

/// shortens a path for display: relative to cwd when the path is under it, else
/// `~/...` when under $HOME, else the path as it is. `under_cwd` and `under_home`
/// are what is left of the path there.
pub fn shorten_path(path: &str, under_cwd: Option<&str>, under_home: Option<&str>) -> (r: String)
    ensures
        r@ == shortened(path@, text::str_opt(under_cwd), text::str_opt(under_home)),
        r@ == match under_cwd {
            Some(rel) => rel@,
            None => match under_home {
                Some(rel) => "~/"@ + rel@,
                None => path@,
            },
        },
{
    match under_cwd {
        Some(rel) => rel.to_owned(),
        None => match under_home {
            Some(rel) => text::concat2("~/", rel),
            None => path.to_owned(),
        },
    }
}

// --- confirmation ---

/// the answers that agree, but for white space around them.
pub open spec fn agrees(response: Seq<char>) -> bool {
    let answer = text::trim(response);
    answer == "y"@ || answer == "Y"@ || answer == "yes"@ || answer == "YES"@
}

/// whether the user's answer agrees.
pub fn is_agreement(response: &str) -> (r: bool)
    ensures
        r == agrees(response@),
{
    let answer = text::trimmed(response);
    let a = answer.as_str();
    text::str_eq(a, "y") || text::str_eq(a, "Y") || text::str_eq(a, "yes") || text::str_eq(a, "YES")
}

/// the question whether a tool may be called.
pub open spec fn question_text(tool: Seq<char>, input: Seq<char>) -> Seq<char> {
    "allow "@ + tool + " \""@ + input + "\"? [y/N] "@
}

/// the question whether a tool may be called.
pub fn confirmation_question(tool: &str, input: &str) -> (r: String)
    ensures
        r@ == question_text(tool@, input@),
        r@ == "allow "@ + tool@ + " \""@ + input@ + "\"? [y/N] "@,
{
    let head = text::concat3("allow ", tool, " \"");
    text::concat3(head.as_str(), input, "\"? [y/N] ")
}

/// the note that a call is accepted without asking.
pub fn auto_accept_note(tool: &str, input: &str) -> (r: String)
    ensures
        r@ == "auto-accepting: "@ + tool@ + " \""@ + input@ + "\""@,
{
    let head = text::concat3("auto-accepting: ", tool, " \"");
    text::concat3(head.as_str(), input, "\"")
}

/// the note that a call is refused because nobody can be asked.
pub fn no_terminal_note(tool: &str, input: &str) -> (r: String)
    ensures
        r@ == "cannot open /dev/tty for confirmation, denying: "@ + tool@ + " "@ + input@,
{
    let head = text::concat3("cannot open /dev/tty for confirmation, denying: ", tool, " ");
    text::concat2(head.as_str(), input)
}

// --- prompts ---

/// the prompt that the command line gives; empty where it gives none.
pub open spec fn given_prompt(flag: Option<String>, positional: Option<String>) -> Seq<char> {
    match flag {
        Some(p) => p@,
        None => match positional {
            Some(p) => p@,
            None => Seq::empty(),
        },
    }
}

/// whether the prompt is to be read from the standard input.
pub fn needs_stdin(flag: &Option<String>, positional: &Option<String>) -> (r: bool)
    ensures
        r == (given_prompt(*flag, *positional).len() == 0),
{
    match flag {
        Some(p) => p.as_str().is_empty(),
        None => match positional {
            Some(p) => p.as_str().is_empty(),
            None => true,
        },
    }
}

/// the prompt: what the command line gives or, where that is nothing, what the
/// standard input holds (`stdin`; none where it is a terminal).
pub open spec fn effective_prompt(given: Seq<char>, stdin: Option<Seq<char>>) -> Seq<char> {
    match stdin {
        Some(s) if given.len() == 0 => s,
        _ => given,
    }
}

/// what a prompt leads to: a blank one is an error.
pub open spec fn prompt_outcome(prompt: Seq<char>) -> Result<Seq<char>, Seq<char>> {
    if text::trim(prompt).len() == 0 {
        Err("one of --prompt or stdin must be non-empty"@)
    } else {
        Ok(prompt)
    }
}

/// the prompt that the user gives. a blank one is an error.
pub fn get_user_prompt(
    flag: &Option<String>,
    positional: &Option<String>,
    stdin: Option<&str>,
) -> (r: Result<String, String>)
    ensures
        ({
            let prompt = effective_prompt(
                given_prompt(*flag, *positional),
                text::str_opt(stdin),
            );
            if text::trim(prompt).len() == 0 {
                r is Err && r->Err_0@ == "one of --prompt or stdin must be non-empty"@
            } else {
                r is Ok && r->Ok_0@ == prompt
            }
        }),
        ({
            let prompt = effective_prompt(
                given_prompt(*flag, *positional),
                text::str_opt(stdin),
            );
            match r {
                Ok(s) => prompt_outcome(prompt) == Ok::<Seq<char>, Seq<char>>(s@),
                Err(e) => prompt_outcome(prompt) == Err::<Seq<char>, Seq<char>>(e@),
            }
        }),
{
    let mut prompt = match flag {
        Some(p) => p.clone(),
        None => match positional {
            Some(p) => p.clone(),
            None => String::new(),
        },
    };
    if prompt.as_str().is_empty() {
        if let Some(s) = stdin {
            prompt = s.to_owned();
        }
    }
    let content = text::trimmed(prompt.as_str());
    if content.as_str().is_empty() {
        Err("one of --prompt or stdin must be non-empty".to_owned())
    } else {
        Ok(prompt)
    }
}

/// `after` and `warnings` are the system prompt and the warnings that come of an
/// agent (if one is run), the prompt and the skills that the command line sets,
/// and the configured default. a prompt that the command line sets overrides
/// everything, body and skills alike; skills that it sets stand in place of the
/// agent's; and an empty prompt gives way to the default.
pub open spec fn is_system_prompt<F: Fn(&str) -> SkillResult>(
    load: F,
    agent: Option<&ParsedDoc<AgentFrontmatter>>,
    flag: Option<String>,
    skills: Option<Vec<String>>,
    default: Option<String>,
    gates: Map<Seq<char>, bool>,
    after: Seq<char>,
    warnings: Seq<Seq<char>>,
) -> bool {
    exists|prompt: Seq<char>|
        {
            &&& #[trigger] is_composed(load, agent, flag, skills, gates, prompt, warnings)
            &&& after == match default {
                Some(d) if prompt.len() == 0 => d@,
                _ => prompt,
            }
        }
}

/// `prompt` and `warnings` come of an agent and the command line alone.
pub open spec fn is_composed<F: Fn(&str) -> SkillResult>(
    load: F,
    agent: Option<&ParsedDoc<AgentFrontmatter>>,
    flag: Option<String>,
    skills: Option<Vec<String>>,
    gates: Map<Seq<char>, bool>,
    prompt: Seq<char>,
    warnings: Seq<Seq<char>>,
) -> bool {
    match flag {
        Some(p) => prompt == p@ && warnings.len() == 0,
        None => {
            let body = match agent {
                Some(doc) => doc.body@,
                None => Seq::empty(),
            };
            match chosen_skills(agent, skills) {
                Some(list) => resolve::skills_appended(load, list@, gates, body, prompt, warnings),
                None => prompt == body && warnings.len() == 0,
            }
        },
    }
}

/// the skills of a prompt: those that the command line sets, or else the agent's.
pub open spec fn chosen_skills(
    agent: Option<&ParsedDoc<AgentFrontmatter>>,
    skills: Option<Vec<String>>,
) -> Option<Vec<String>> {
    match (skills, agent) {
        (Some(list), _) => Some(list),
        (None, Some(doc)) => doc.frontmatter.skills,
        (None, None) => None,
    }
}

/// composes the system prompt of an agent and the command line.
fn compose_prompt<F: Fn(&str) -> SkillResult>(
    agent: Option<&ParsedDoc<AgentFrontmatter>>,
    flag: &Option<String>,
    skills: &Option<Vec<String>>,
    config: &SkillsConfig,
    load: F,
) -> (r: (String, Vec<String>))
    requires
        forall|s: &str| #[trigger] call_requires(load, (s,)),
    ensures
        is_composed(load, agent, *flag, *skills, config@, r.0@, text::texts(r.1@)),
{
    if let Some(p) = flag {
        return (p.clone(), Vec::new());
    }
    match (skills, agent) {
        (Some(list), _) => {
            let mut prompt = match agent {
                Some(doc) => doc.body.clone(),
                None => String::new(),
            };
            let warnings = resolve::append_skills(&mut prompt, list, config, load);
            (prompt, warnings)
        },
        (None, Some(doc)) => resolve::build_system_prompt(doc, config, load),
        (None, None) => (String::new(), Vec::new()),
    }
}

/// resolves the system prompt, and hands out the warnings about skills that are
/// missing from it.
pub fn resolve_system_prompt<F: Fn(&str) -> SkillResult>(
    agent: Option<&ParsedDoc<AgentFrontmatter>>,
    flag: &Option<String>,
    skills: &Option<Vec<String>>,
    default: &Option<String>,
    config: &SkillsConfig,
    load: F,
) -> (r: (String, Vec<String>))
    requires
        forall|s: &str| #[trigger] call_requires(load, (s,)),
    ensures
        is_system_prompt(
            load,
            agent,
            *flag,
            *skills,
            *default,
            config@,
            r.0@,
            text::texts(r.1@),
        ),
{
    let (prompt, warnings) = compose_prompt(agent, flag, skills, config, load);
    assert(is_composed(load, agent, *flag, *skills, config@, prompt@, text::texts(warnings@)));
    if prompt.as_str().is_empty() {
        if let Some(d) = default {
            return (d.clone(), warnings);
        }
    }
    (prompt, warnings)
}

/// the system prompt with fragments behind it, a blank line before each.
pub open spec fn with_fragments(prompt: Seq<char>, fragments: Seq<Seq<char>>) -> Seq<char>
    decreases fragments.len(),
{
    if fragments.len() == 0 {
        prompt
    } else {
        let before = with_fragments(prompt, fragments.drop_last());
        if before.len() == 0 {
            fragments.last()
        } else {
            before + "\n\n"@ + fragments.last()
        }
    }
}

/// the system prompt as it is sent: with the fragments of the hooks behind it, and
/// without white space around it.
pub open spec fn finished_prompt(prompt: Seq<char>, fragments: Seq<Seq<char>>) -> Seq<char> {
    text::trim(with_fragments(prompt, fragments))
}

/// the system prompt as it is sent: with the fragments of the hooks behind it, and
/// without white space around it.
pub fn finish_system_prompt(prompt: &str, fragments: &Vec<String>) -> (r: String)
    ensures
        r@ == finished_prompt(prompt@, text::texts(fragments@)),
        r@ == text::trim(with_fragments(prompt@, text::texts(fragments@))),
{
    let mut s = prompt.to_owned();
    let ghost all = text::texts(fragments@);
    let mut i: usize = 0;
    assert(all.take(0) =~= Seq::empty());
    while i < fragments.len()
        invariant
            i <= fragments@.len(),
            all == text::texts(fragments@),
            s@ == with_fragments(prompt@, all.take(i as int)),
        decreases fragments@.len() - i,
    {
        let ghost t = all.take(i + 1);
        assert(t.drop_last() =~= all.take(i as int));
        let ghost before = s@;
        if !s.as_str().is_empty() {
            s.append("\n\n");
        }
        s.append(fragments[i].as_str());
        proof {
            if before.len() == 0 {
                assert(s@ =~= fragments@[i as int]@);
            }
            assert(s@ == with_fragments(prompt@, t));
        }
        i += 1;
    }
    assert(all.take(fragments@.len() as int) =~= all);
    text::trimmed(s.as_str())
}

// --- settings ---

/// the model that is used when nothing sets one.
pub open spec fn default_model() -> Seq<char> {
    "openai/gpt-4o"@
}

/// the model: that of the command line, or else that of the agent, or else the
/// configured one.
pub open spec fn chosen_model(
    flag: Option<Seq<char>>,
    agent: Option<Seq<char>>,
    configured: Option<Seq<char>>,
) -> Seq<char> {
    if flag is Some {
        flag->0
    } else if agent is Some {
        agent->0
    } else if configured is Some {
        configured->0
    } else {
        default_model()
    }
}

/// the model: that of the command line, or else that of the agent, or else the
/// configured one.
pub fn choose_model(
    flag: &Option<String>,
    agent: &Option<String>,
    configured: &Option<String>,
) -> (r: String)
    ensures
        r@ == match *flag {
            Some(m) => m@,
            None => match *agent {
                Some(m) => m@,
                None => match *configured {
                    Some(m) => m@,
                    None => default_model(),
                },
            },
        },
        r@ == chosen_model(
            text::text_opt(*flag),
            text::text_opt(*agent),
            text::text_opt(*configured),
        ),
{
    match flag {
        Some(m) => m.clone(),
        None => match agent {
            Some(m) => m.clone(),
            None => match configured {
                Some(m) => m.clone(),
                None => "openai/gpt-4o".to_owned(),
            },
        },
    }
}

pub const DEFAULT_MAX_TOKENS: u64 = 16384;

pub const DEFAULT_MAX_TURNS: usize = 32;

/// max bytes of tool-call output rendered to stderr; full content is spooled to a
/// per-process file under the cache dir when this limit is exceeded.
pub const DEFAULT_TOOL_OUTPUT_TRUNCATE: usize = 2000;

/// the first of two numbers that is set, or else the default.
pub open spec fn chosen_number(flag: Option<int>, configured: Option<int>, default: int) -> int {
    if flag is Some {
        flag->0
    } else if configured is Some {
        configured->0
    } else {
        default
    }
}

/// a number that may be missing.
pub open spec fn tokens_set(n: Option<u64>) -> Option<int> {
    match n {
        Some(n) => Some(n as int),
        None => None,
    }
}

/// a number that may be missing.
pub open spec fn size_set(n: Option<usize>) -> Option<int> {
    match n {
        Some(n) => Some(n as int),
        None => None,
    }
}

/// the number of output tokens: that of the command line, or else the configured
/// one.
pub fn choose_max_tokens(flag: Option<u64>, config: &Config) -> (r: u64)
    ensures
        r == chosen_number(
            tokens_set(flag),
            tokens_set(config.default_max_tokens),
            16384,
        ),
        r == match flag {
            Some(n) => n,
            None => match config.default_max_tokens {
                Some(n) => n,
                None => DEFAULT_MAX_TOKENS,
            },
        },
{
    match flag {
        Some(n) => n,
        None => match config.default_max_tokens {
            Some(n) => n,
            None => DEFAULT_MAX_TOKENS,
        },
    }
}

/// the number of turns.
pub fn choose_max_turns(config: &Config) -> (r: usize)
    ensures
        r == chosen_number(None, size_set(config.default_max_turns), 32),
        r == match config.default_max_turns {
            Some(n) => n,
            None => DEFAULT_MAX_TURNS,
        },
{
    match config.default_max_turns {
        Some(n) => n,
        None => DEFAULT_MAX_TURNS,
    }
}

/// how many bytes of a tool's output are shown.
pub fn choose_output_limit(config: &Config) -> (r: usize)
    ensures
        r == chosen_number(None, size_set(config.tool_output_truncate), 2000),
        r == match config.tool_output_truncate {
            Some(n) => n,
            None => DEFAULT_TOOL_OUTPUT_TRUNCATE,
        },
{
    match config.tool_output_truncate {
        Some(n) => n,
        None => DEFAULT_TOOL_OUTPUT_TRUNCATE,
    }
}

/// a target of an override: a tool, and perhaps a pattern.
pub type Target = (String, Option<String>);

/// an override of a target.
pub open spec fn override_of(t: Target, level: PermissionLevel) -> permission::Override {
    permission::Override { tool: t.0@, pattern: text::text_opt(t.1), level }
}

/// overrides of the targets to one level.
pub open spec fn overrides_of(list: Seq<Target>, level: PermissionLevel) -> Seq<
    permission::Override,
> {
    Seq::new(list.len(), |i: int| override_of(list[i], level))
}

/// the overrides of the command line, in the order in which they are applied.
pub open spec fn command_line_overrides(
    allow: Seq<Target>,
    ask: Seq<Target>,
    deny: Seq<Target>,
) -> Seq<permission::Override> {
    overrides_of(allow, PermissionLevel::Allow) + overrides_of(ask, PermissionLevel::Ask)
        + overrides_of(deny, PermissionLevel::Deny)
}

/// adds overrides of the targets to one level.
fn add_overrides(out: &mut Vec<PermissionOverride>, list: &Vec<Target>, level: PermissionLevel)
    ensures
        permission::override_models(final(out)@) == permission::override_models(old(out)@) + overrides_of(list@, level),
{
    let ghost before = out@;
    let mut i: usize = 0;
    while i < list.len()
        invariant
            i <= list@.len(),
            out@.len() == before.len() + i,
            forall|j: int| 0 <= j < before.len() ==> out@[j] == before[j],
            forall|j: int|
                0 <= j < i ==> (#[trigger] out@[before.len() + j])@ == override_of(
                    list@[j],
                    level,
                ),
        decreases list@.len() - i,
    {
        let t = &list[i];
        out.push(
            PermissionOverride { tool: t.0.clone(), pattern: text::copy_opt(&t.1), level },
        );
        i += 1;
    }
    proof {
        let l = permission::override_models(out@);
        let r = permission::override_models(before) + overrides_of(list@, level);
        assert forall|j: int| 0 <= j < l.len() implies #[trigger] l[j] == r[j] by {
            if j >= before.len() {
                assert(l[j] == out@[before.len() + (j - before.len())]@);
            }
        }
        assert(l =~= r);
    }
}

/// the overrides of the command line, in the order allow, ask, deny: for one
/// target deny wins over ask, and ask over allow.
pub fn permission_overrides(allow: &Vec<Target>, ask: &Vec<Target>, deny: &Vec<Target>) -> (r: Vec<
    PermissionOverride,
>)
    ensures
        permission::override_models(r@) == command_line_overrides(allow@, ask@, deny@),
{
    let mut out: Vec<PermissionOverride> = Vec::new();
    assert(permission::override_models(out@) =~= Seq::empty());
    add_overrides(&mut out, allow, PermissionLevel::Allow);
    assert(permission::override_models(out@) =~= overrides_of(allow@, PermissionLevel::Allow));
    add_overrides(&mut out, ask, PermissionLevel::Ask);
    add_overrides(&mut out, deny, PermissionLevel::Deny);
    out
}

/// the permissions of a run: the agent's entries replace the configured ones,
/// and the overrides of the command line go on top of both.
pub open spec fn settled(
    config: Map<Seq<char>, Rule>,
    agent: Map<Seq<char>, Rule>,
    allow: Seq<Target>,
    ask: Seq<Target>,
    deny: Seq<Target>,
) -> Map<Seq<char>, Rule> {
    permission::all_overridden(
        config.union_prefer_right(agent),
        command_line_overrides(allow, ask, deny),
    )
}

/// the permissions of a run: the agent's entries replace the configured ones,
/// and the overrides of the command line go on top of both.
pub fn settle_permissions(
    config: PermissionsConfig,
    agent: PermissionsConfig,
    allow: &Vec<Target>,
    ask: &Vec<Target>,
    deny: &Vec<Target>,
) -> (r: PermissionsConfig)
    ensures
        r@ == permission::all_overridden(
            config@.union_prefer_right(agent@),
            command_line_overrides(allow@, ask@, deny@),
        ),
        r@ == settled(config@, agent@, allow@, ask@, deny@),
{
    let overrides = permission_overrides(allow, ask, deny);
    config.merge(agent).apply_overrides(overrides.as_slice())
}

/// one of the targets is the given one.
pub open spec fn targets(list: Seq<Target>, tool: Seq<char>, pattern: Option<Seq<char>>) -> bool {
    exists|i: int| #[trigger] is_target(list, i, tool, pattern)
}

/// target `i` is the given one.
pub open spec fn is_target(
    list: Seq<Target>,
    i: int,
    tool: Seq<char>,
    pattern: Option<Seq<char>>,
) -> bool {
    0 <= i < list.len() && list[i].0@ == tool && text::text_opt(list[i].1) == pattern
}

/// none of the targets is the given one, or its tool as a whole.
pub open spec fn spares(list: Seq<Target>, tool: Seq<char>, pattern: Option<Seq<char>>) -> bool {
    forall|i: int|
        0 <= i < list.len() ==> !permission::addresses(
            override_of(#[trigger] list[i], PermissionLevel::Deny),
            tool,
            pattern,
        )
}

/// within a single invocation, deny wins over ask and ask over allow for the same
/// target, whatever the configuration says of it.
pub proof fn law_stricter_flag_wins(
    m: Map<Seq<char>, Rule>,
    allow: Seq<Target>,
    ask: Seq<Target>,
    deny: Seq<Target>,
    tool: Seq<char>,
    pattern: Option<Seq<char>>,
)
    ensures
        targets(deny, tool, pattern) ==> permission::standing(
            permission::all_overridden(m, command_line_overrides(allow, ask, deny)),
            tool,
            pattern,
        ) == Some(PermissionLevel::Deny),
        targets(ask, tool, pattern) && spares(deny, tool, pattern) ==> permission::standing(
            permission::all_overridden(m, command_line_overrides(allow, ask, deny)),
            tool,
            pattern,
        ) == Some(PermissionLevel::Ask),
        targets(allow, tool, pattern) && spares(ask, tool, pattern) && spares(deny, tool, pattern)
            ==> permission::standing(
            permission::all_overridden(m, command_line_overrides(allow, ask, deny)),
            tool,
            pattern,
        ) == Some(PermissionLevel::Allow),
{
    let list = command_line_overrides(allow, ask, deny);
    let a = allow.len() as int;
    let b = a + ask.len();
    assert(forall|i: int| 0 <= i < a ==> #[trigger] list[i] == override_of(
        allow[i],
        PermissionLevel::Allow,
    ));
    assert(forall|i: int| a <= i < b ==> #[trigger] list[i] == override_of(
        ask[i - a],
        PermissionLevel::Ask,
    ));
    assert(forall|i: int| b <= i < list.len() ==> #[trigger] list[i] == override_of(
        deny[i - b],
        PermissionLevel::Deny,
    ));
    if targets(deny, tool, pattern) {
        let i = choose|i: int| #[trigger] is_target(deny, i, tool, pattern);
        assert(list[b + i] == override_of(deny[i], PermissionLevel::Deny));
        permission::law_override_stands(m, list, b + i);
    }
    if targets(ask, tool, pattern) && spares(deny, tool, pattern) {
        let i = choose|i: int| #[trigger] is_target(ask, i, tool, pattern);
        assert(list[a + i] == override_of(ask[i], PermissionLevel::Ask));
        assert forall|j: int|
            a + i < j < list.len() && permission::addresses(#[trigger] list[j], tool, pattern)
            implies list[j].level == PermissionLevel::Ask by {
            if j >= b {
                assert(!permission::addresses(
                    override_of(deny[j - b], PermissionLevel::Deny),
                    tool,
                    pattern,
                ));
            }
        }
        permission::law_override_stands(m, list, a + i);
    }
    if targets(allow, tool, pattern) && spares(ask, tool, pattern) && spares(deny, tool, pattern) {
        let i = choose|i: int| #[trigger] is_target(allow, i, tool, pattern);
        assert(list[i] == override_of(allow[i], PermissionLevel::Allow));
        assert forall|j: int|
            i < j < list.len() && permission::addresses(#[trigger] list[j], tool, pattern)
            implies list[j].level == PermissionLevel::Allow by {
            if j >= b {
                assert(!permission::addresses(
                    override_of(deny[j - b], PermissionLevel::Deny),
                    tool,
                    pattern,
                ));
            } else if j >= a {
                assert(!permission::addresses(
                    override_of(ask[j - a], PermissionLevel::Deny),
                    tool,
                    pattern,
                ));
            }
        }
        permission::law_override_stands(m, list, i);
    }
}

// --- what is to be done ---

/// the flags that say what is to be done.
#[derive(Debug, Clone, Copy, PartialEq, Eq, Structural)]
pub struct Flags {
    pub init: bool,
    pub list_agents: bool,
    pub list_skills: bool,
    pub list_tools: bool,
    pub list_hooks: bool,
    pub list_providers: bool,
    pub list_permissions: bool,
    pub dry_run: bool,
    pub dump_request: bool,
}

/// what an invocation does.
#[derive(Debug, Clone, Copy, PartialEq, Eq, Structural)]
pub enum Mode {
    Init,
    ListAgents,
    ListSkills,
    ListTools,
    ListHooks,
    ListProviders,
    ListPermissions,
    DryRun,
    DumpRequest,
    Run,
}

/// the flag of a mode is set. a run has none.
pub open spec fn is_asked(flags: Flags, mode: Mode) -> bool {
    match mode {
        Mode::Init => flags.init,
        Mode::ListAgents => flags.list_agents,
        Mode::ListSkills => flags.list_skills,
        Mode::ListTools => flags.list_tools,
        Mode::ListHooks => flags.list_hooks,
        Mode::ListProviders => flags.list_providers,
        Mode::ListPermissions => flags.list_permissions,
        Mode::DryRun => flags.dry_run,
        Mode::DumpRequest => flags.dump_request,
        Mode::Run => true,
    }
}

/// where a mode stands among those that are asked for together.
pub open spec fn precedence(mode: Mode) -> int {
    match mode {
        Mode::Init => 0,
        Mode::ListAgents => 1,
        Mode::ListSkills => 2,
        Mode::ListTools => 3,
        Mode::ListHooks => 4,
        Mode::ListProviders => 5,
        Mode::ListPermissions => 6,
        Mode::DryRun => 7,
        Mode::DumpRequest => 8,
        Mode::Run => 9,
    }
}

/// what an invocation does: the first one in precedence of what is asked for.
pub fn choose_mode(flags: &Flags) -> (r: Mode)
    ensures
        is_asked(*flags, r),
        forall|m: Mode| #[trigger] is_asked(*flags, m) ==> precedence(r) <= precedence(m),
{
    if flags.init {
        Mode::Init
    } else if flags.list_agents {
        Mode::ListAgents
    } else if flags.list_skills {
        Mode::ListSkills
    } else if flags.list_tools {
        Mode::ListTools
    } else if flags.list_hooks {
        Mode::ListHooks
    } else if flags.list_providers {
        Mode::ListProviders
    } else if flags.list_permissions {
        Mode::ListPermissions
    } else if flags.dry_run {
        Mode::DryRun
    } else if flags.dump_request {
        Mode::DumpRequest
    } else {
        Mode::Run
    }
}

// --- rendering a run ---

/// the directory for spooled output: $XDG_CACHE_HOME/hrns/<pid>/ (falls back to
/// $HOME/.cache, then /tmp).
pub open spec fn spool_directory(
    cache: Option<Seq<char>>,
    home: Option<Seq<char>>,
    pid: nat,
) -> Seq<char> {
    let base = match cache {
        Some(c) => c,
        None => match home {
            Some(h) => text::path_join(h, ".cache"@),
            None => "/tmp"@,
        },
    };
    text::path_join(text::path_join(base, "hrns"@), text::decimal(pid))
}

/// returns the cache dir for spooled output.
pub fn spool_dir(cache: Option<&str>, home: Option<&str>, pid: u32) -> (r: String)
    ensures
        r@ == spool_directory(text::str_opt(cache), text::str_opt(home), pid as nat),
{
    let base = match cache {
        Some(c) => c.to_owned(),
        None => match home {
            Some(h) => text::join_paths(h, ".cache"),
            None => "/tmp".to_owned(),
        },
    };
    let dir = text::join_paths(base.as_str(), "hrns");
    let pid = text::decimal_of(pid as u64);
    text::join_paths(dir.as_str(), pid.as_str())
}

/// the name of the `n`th spooled file of a process.
pub fn spool_file(n: u64) -> (r: String)
    ensures
        r@ == text::decimal(n as nat) + ".txt"@,
{
    let n = text::decimal_of(n);
    text::concat2(n.as_str(), ".txt")
}

/// where something is written.
#[derive(Debug, Clone, Copy, PartialEq, Eq, Structural)]
pub enum Stream {
    Stdout,
    Stderr,
}

/// something that is written.
#[derive(Debug)]
pub struct Output {
    pub stream: Stream,
    pub text: String,
}

/// what is written, as a model.
pub struct OutputModel {
    pub stream: Stream,
    pub text: Seq<char>,
}

impl View for Output {
    type V = OutputModel;

    open spec fn view(&self) -> OutputModel {
        OutputModel { stream: self.stream, text: self.text@ }
    }
}

/// what a list of outputs stands for.
pub open spec fn output_models(s: Seq<Output>) -> Seq<OutputModel> {
    Seq::new(s.len(), |i: int| s[i]@)
}

/// the CLI's stream renderer: assistant text to stdout, reasoning + tool activity
/// to stderr (suppressed by `quiet`).
#[derive(Debug, Clone, Copy, PartialEq, Eq, Structural)]
pub struct Renderer {
    /// a run of reasoning is open.
    pub in_reasoning: bool,
    pub quiet: bool,
    /// how many bytes of a tool's output are shown; 0 for all.
    pub limit: usize,
}

/// a tool's output is too long to be shown.
pub open spec fn is_truncated(result: Seq<char>, limit: nat) -> bool {
    limit > 0 && text::utf8_len(result) > limit
}

/// the longest beginning of a text that has at most `limit` bytes.
pub open spec fn head_within(s: Seq<char>, limit: nat) -> Seq<char>
    decreases s.len(),
{
    if s.len() == 0 || text::utf8_len(s) <= limit {
        s
    } else {
        head_within(s.drop_last(), limit)
    }
}

/// what is written on standard error.
pub open spec fn on_stderr(s: Seq<char>) -> Seq<OutputModel> {
    seq![OutputModel { stream: Stream::Stderr, text: s }]
}

/// closes an open run of reasoning with a newline.
pub open spec fn closing(in_reasoning: bool) -> Seq<OutputModel> {
    if in_reasoning {
        on_stderr("\n"@)
    } else {
        Seq::empty()
    }
}

/// the line that shows a tool's output.
pub open spec fn result_line(s: Seq<char>) -> Seq<char> {
    "\x1b[2m  -> "@ + text::escape_newlines(s) + "\x1b[0m\n"@
}

/// the hint that a tool's output is not shown in full; `spool` is where it is kept.
pub open spec fn truncation_line(
    shown: nat,
    total: nat,
    spool: Option<Seq<char>>,
) -> Seq<char> {
    "\x1b[33m  ! truncated tool output: "@ + text::decimal(shown) + " of "@ + text::decimal(total)
        + " bytes shown"@ + match spool {
        Some(p) => ". full content at "@ + p + " (read with: cat "@ + p + ")\x1b[0m\n"@,
        None => " (failed to spool full content)\x1b[0m\n"@,
    }
}

/// what is written of a tool's output.
pub open spec fn result_outputs(
    result: Seq<char>,
    limit: nat,
    spool: Option<Seq<char>>,
) -> Seq<OutputModel> {
    if is_truncated(result, limit) {
        let head = head_within(result, limit);
        on_stderr(result_line(head)) + on_stderr(
            truncation_line(text::utf8_len(head), text::utf8_len(result), spool),
        )
    } else {
        on_stderr(result_line(result))
    }
}

/// what is written of a report.
pub open spec fn rendered_report(
    r: Renderer,
    report: agent::ReportModel,
    spool: Option<Seq<char>>,
) -> Seq<OutputModel> {
    match report {
        agent::ReportModel::Text(s) => closing(r.in_reasoning).push(
            OutputModel { stream: Stream::Stdout, text: s },
        ),
        agent::ReportModel::Reasoning(s) => if r.quiet {
            Seq::empty()
        } else {
            on_stderr("\x1b[2;3m"@ + s + "\x1b[0m"@)
        },
        agent::ReportModel::ToolCall { name, args } => closing(r.in_reasoning) + if r.quiet {
            Seq::empty()
        } else {
            on_stderr("\x1b[1;36m"@ + name + "\x1b[0m\x1b[2m("@ + args + ")\x1b[0m\n"@)
        },
        agent::ReportModel::ToolResult(s) => closing(r.in_reasoning) + if r.quiet {
            Seq::empty()
        } else {
            result_outputs(s, r.limit as nat, spool)
        },
        agent::ReportModel::Error(m) => on_stderr("stream error: "@ + m + "\n"@),
        agent::ReportModel::Restart => closing(r.in_reasoning),
        agent::ReportModel::EndStream => closing(r.in_reasoning),
    }
}

/// the renderer after a report: a run of reasoning is open after more reasoning,
/// and closed by anything but an error.
pub open spec fn renderer_after(r: Renderer, report: agent::ReportModel) -> Renderer {
    let in_reasoning = match report {
        agent::ReportModel::Reasoning(_) => r.in_reasoning || !r.quiet,
        agent::ReportModel::Error(_) => r.in_reasoning,
        _ => false,
    };
    Renderer { in_reasoning, quiet: r.quiet, limit: r.limit }
}

/// the part of a text that fits is the longest beginning that does.
proof fn lemma_head_within(s: Seq<char>, limit: nat, k: int)
    requires
        0 <= k <= s.len(),
        text::utf8_len(s.take(k)) <= limit,
        k < s.len() ==> text::utf8_len(s.take(k + 1)) > limit,
    ensures
        head_within(s, limit) == s.take(k),
    decreases s.len(),
{
    if k == s.len() {
        assert(s.take(k) =~= s);
    } else {
        assert(s =~= s.take(k + 1) + s.skip(k + 1));
        text::lemma_utf8_len_concat(s.take(k + 1), s.skip(k + 1));
        let t = s.drop_last();
        assert(t.take(k) =~= s.take(k));
        if k < t.len() {
            assert(t.take(k + 1) =~= s.take(k + 1));
        }
        lemma_head_within(t, limit, k);
    }
}

/// the longest beginning of a text that has at most `limit` bytes.
pub fn text_within(s: &str, limit: usize) -> (r: String)
    ensures
        r@ == head_within(s@, limit as nat),
{
    let chars = text::chars_of(s);
    let mut k: usize = 0;
    let mut bytes: usize = 0;
    let n = chars.len();
    assert(s@.take(0) =~= Seq::empty());
    while k < n
        invariant
            k <= n,
            n == chars@.len(),
            chars@ == s@,
            bytes == text::utf8_len(s@.take(k as int)),
            bytes <= limit,
        decreases n - k,
    {
        let w = text::char_bytes(chars[k]);
        proof {
            assert(s@.take(k + 1) =~= s@.take(k as int) + seq![s@[k as int]]);
            text::lemma_utf8_len_concat(s@.take(k as int), seq![s@[k as int]]);
        }
        if w > limit - bytes {
            proof {
                lemma_head_within(s@, limit as nat, k as int);
            }
            return s.substring_char(0, k).to_owned();
        }
        bytes += w;
        k += 1;
    }
    proof {
        lemma_head_within(s@, limit as nat, n as int);
        assert(s@.take(n as int) =~= s@);
    }
    s.to_owned()
}

/// adds an output.
fn write_to(out: &mut Vec<Output>, stream: Stream, text: String)
    ensures
        output_models(final(out)@) == output_models(old(out)@).push(
            OutputModel { stream, text: text@ },
        ),
{
    let ghost before = out@;
    out.push(Output { stream, text });
    assert(output_models(out@) =~= output_models(before).push(OutputModel { stream, text: text@ }));
}

/// the line that shows a tool's output.
fn format_result(s: &str) -> (r: String)
    ensures
        r@ == result_line(s@),
{
    let shown = text::newlines_escaped(s);
    text::concat3("\x1b[2m  -> ", shown.as_str(), "\x1b[0m\n")
}

/// the hint that a tool's output is not shown in full.
fn format_truncation(shown: usize, total: usize, spool: Option<&str>) -> (r: String)
    ensures
        r@ == truncation_line(shown as nat, total as nat, text::str_opt(spool)),
{
    let a = text::decimal_of(shown as u64);
    let b = text::decimal_of(total as u64);
    let head = text::concat3("\x1b[33m  ! truncated tool output: ", a.as_str(), " of ");
    let mut s = text::concat3(head.as_str(), b.as_str(), " bytes shown");
    match spool {
        Some(p) => {
            let place = text::concat3(". full content at ", p, " (read with: cat ");
            let tail = text::concat3(place.as_str(), p, ")\x1b[0m\n");
            s.append(tail.as_str());
        },
        None => {
            s.append(" (failed to spool full content)\x1b[0m\n");
        },
    }
    assert(s@ =~= truncation_line(shown as nat, total as nat, text::str_opt(spool)));
    s
}

impl Renderer {
    pub fn new(quiet: bool, limit: usize) -> (r: Self)
        ensures
            r == (Renderer { in_reasoning: false, quiet, limit }),
    {
        Renderer { in_reasoning: false, quiet, limit }
    }

    /// whether a tool's output is to be spooled before it is rendered.
    pub fn spools(&self, result: &str) -> (r: bool)
        ensures
            r == (!self.quiet && is_truncated(result@, self.limit as nat)),
    {
        !self.quiet && self.limit > 0 && text::byte_len(result) > self.limit
    }

    /// renders a report, and moves on. `spool` is where a tool's output that is
    /// too long is kept, if it could be.
    pub fn render(&mut self, report: &agent::Report, spool: Option<&str>) -> (r: Vec<Output>)
        ensures
            output_models(r@) == rendered_report(*old(self), report@, text::str_opt(spool)),
            *final(self) == renderer_after(*old(self), report@),
    {
        let mut out: Vec<Output> = Vec::new();
        assert(output_models(out@) =~= Seq::empty());
        let was = self.in_reasoning;
        let closes = match report {
            agent::Report::Reasoning(_) => false,
            agent::Report::Error(_) => false,
            _ => true,
        };
        if closes && was {
            write_to(&mut out, Stream::Stderr, "\n".to_owned());
            assert(output_models(out@) =~= closing(was));
        }
        let ghost front = output_models(out@);
        if closes {
            self.in_reasoning = false;
        }
        match report {
            agent::Report::Text(s) => {
                write_to(&mut out, Stream::Stdout, s.clone());
            },
            agent::Report::Reasoning(s) => {
                if !self.quiet {
                    let shown = text::concat3("\x1b[2;3m", s.as_str(), "\x1b[0m");
                    write_to(&mut out, Stream::Stderr, shown);
                    self.in_reasoning = true;
                    assert(output_models(out@) =~= on_stderr(shown@));
                }
            },
            agent::Report::ToolCall { name, args } => {
                if !self.quiet {
                    let head = text::concat3("\x1b[1;36m", name.as_str(), "\x1b[0m\x1b[2m(");
                    let shown = text::concat3(head.as_str(), args.as_str(), ")\x1b[0m\n");
                    write_to(&mut out, Stream::Stderr, shown);
                    assert(output_models(out@) =~= front + on_stderr(shown@));
                } else {
                    assert(front + Seq::<OutputModel>::empty() =~= front);
                }
            },
            agent::Report::ToolResult(s) => {
                if self.quiet {
                    assert(front + Seq::<OutputModel>::empty() =~= front);
                } else {
                    let total = text::byte_len(s.as_str());
                    if self.limit > 0 && total > self.limit {
                        let head = text_within(s.as_str(), self.limit);
                        let shown = text::byte_len(head.as_str());
                        let line = format_result(head.as_str());
                        let hint = format_truncation(shown, total, spool);
                        write_to(&mut out, Stream::Stderr, line);
                        write_to(&mut out, Stream::Stderr, hint);
                        assert(output_models(out@) =~= front + (on_stderr(line@) + on_stderr(
                            hint@,
                        )));
                    } else {
                        let line = format_result(s.as_str());
                        write_to(&mut out, Stream::Stderr, line);
                        assert(output_models(out@) =~= front + on_stderr(line@));
                    }
                }
            },
            agent::Report::Error(m) => {
                let shown = text::concat3("stream error: ", m.as_str(), "\n");
                write_to(&mut out, Stream::Stderr, shown);
                assert(output_models(out@) =~= on_stderr(shown@));
            },
            agent::Report::Restart => {},
            agent::Report::EndStream => {},
        }
        out
    }
}

// --- requests ---

/// a tool as a function of a chat-completions request.
pub open spec fn function_model(def: tools::DefinitionModel) -> Model {
    Model::Object(
        Map::empty().insert("type"@, Model::Text("function"@)).insert(
            "function"@,
            Model::Object(
                Map::empty().insert("name"@, Model::Text(def.name)).insert(
                    "description"@,
                    Model::Text(def.description),
                ).insert("parameters"@, def.parameters),
            ),
        ),
    )
}

/// a tool as a function of a chat-completions request.
pub fn tool_def_as_function(def: &ToolDefinition) -> (r: Json)
    ensures
        r@ == function_model(def@),
{
    let f = json::with(json::no_fields(), "name", Json::text(def.name.as_str()));
    let f = json::with(f, "description", Json::text(def.description.as_str()));
    let f = json::with(f, "parameters", def.parameters.copy());
    let r = json::with(json::no_fields(), "type", Json::text("function"));
    Json::object(json::with(r, "function", Json::object(f)))
}

/// the active ones of a script's tools, as functions.
pub open spec fn hook_functions(
    list: Seq<hooks::HookToolDef>,
    gates: Map<Seq<char>, bool>,
    names: Option<Vec<String>>,
) -> Seq<Model>
    decreases list.len(),
{
    if list.len() == 0 {
        Seq::empty()
    } else {
        let rest = hook_functions(list.drop_last(), gates, names);
        let t = list.last()@;
        if config::active(gates, t.full_name, names) {
            rest.push(
                function_model(
                    tools::DefinitionModel {
                        name: t.full_name,
                        description: t.description,
                        parameters: t.schema,
                    },
                ),
            )
        } else {
            rest
        }
    }
}

/// the active ones of the scripts' tools, as functions.
pub open spec fn script_functions<P>(
    scripts: Seq<HookScript<P>>,
    gates: Map<Seq<char>, bool>,
    names: Option<Vec<String>>,
) -> Seq<Model>
    decreases scripts.len(),
{
    if scripts.len() == 0 {
        Seq::empty()
    } else {
        script_functions(scripts.drop_last(), gates, names) + hook_functions(
            scripts.last().tools@,
            gates,
            names,
        )
    }
}

/// the functions of a request: the active built-in tools, and the active ones of
/// the scripts.
pub open spec fn request_functions<P>(
    scripts: Seq<HookScript<P>>,
    gates: Map<Seq<char>, bool>,
    names: Option<Vec<String>>,
) -> Seq<Model> {
    (if config::active(gates, "read"@, names) {
        seq![function_model(tools::read_definition())]
    } else {
        Seq::empty()
    }) + (if config::active(gates, "bash"@, names) {
        seq![function_model(tools::bash_definition())]
    } else {
        Seq::empty()
    }) + script_functions(scripts, gates, names)
}

/// a message of a request.
pub open spec fn message_model(role: Seq<char>, content: Seq<char>) -> Model {
    Model::Object(
        Map::empty().insert("role"@, Model::Text(role)).insert("content"@, Model::Text(content)),
    )
}

/// the messages of a request: the system prompt, if there is one, and the user's.
pub open spec fn request_messages(system: Seq<char>, user: Seq<char>) -> Seq<Model> {
    if system.len() == 0 {
        seq![message_model("user"@, user)]
    } else {
        seq![message_model("system"@, system), message_model("user"@, user)]
    }
}

/// the body of a chat-completions request; without functions it has no `tools`.
pub open spec fn request_model(
    model: Seq<char>,
    max_tokens: u64,
    system: Seq<char>,
    user: Seq<char>,
    functions: Seq<Model>,
) -> Model {
    let f = Map::empty().insert("model"@, Model::Text(model)).insert(
        "max_tokens"@,
        Model::Number(json::number_of(max_tokens)),
    ).insert("messages"@, Model::Array(request_messages(system, user)));
    Model::Object(
        if functions.len() == 0 {
            f
        } else {
            f.insert("tools"@, Model::Array(functions))
        },
    )
}

/// adds the active ones of a script's tools.
fn add_functions(
    out: &mut Vec<Json>,
    list: &Vec<hooks::HookToolDef>,
    tools: &ToolsConfig,
    names: &Option<Vec<String>>,
)
    ensures
        json::item_models(final(out)@) == json::item_models(old(out)@) + hook_functions(
            list@,
            tools@,
            *names,
        ),
{
    let ghost before = json::item_models(out@);
    let mut i: usize = 0;
    proof {
        assert(list@.take(0) =~= Seq::empty());
        assert(before + hook_functions(list@.take(0), tools@, *names) =~= before);
    }
    while i < list.len()
        invariant
            i <= list@.len(),
            json::item_models(out@) == before + hook_functions(
                list@.take(i as int),
                tools@,
                *names,
            ),
        decreases list@.len() - i,
    {
        let ghost t = list@.take(i + 1);
        assert(t.drop_last() =~= list@.take(i as int));
        if tools.is_active(list[i].full_name.as_str(), names) {
            let def = hooks::hook_tool_definition(&list[i]);
            let j = tool_def_as_function(&def);
            let ghost shown = out@;
            out.push(j);
            assert(out@.drop_last() =~= shown);
            assert(json::item_models(out@) =~= before + hook_functions(t, tools@, *names));
        }
        i += 1;
    }
    assert(list@.take(list@.len() as int) =~= list@);
}

/// the functions of a request.
pub fn request_tools<P>(
    scripts: &Vec<HookScript<P>>,
    tools: &ToolsConfig,
    tools_override: &Option<Vec<String>>,
) -> (r: Vec<Json>)
    ensures
        json::item_models(r@) == request_functions(scripts@, tools@, *tools_override),
{
    let mut out: Vec<Json> = Vec::new();
    if tools.is_active("read", tools_override) {
        let def = tools::read_tool_definition();
        out.push(tool_def_as_function(&def));
    }
    if tools.is_active("bash", tools_override) {
        let def = tools::bash_tool_definition();
        out.push(tool_def_as_function(&def));
    }
    let ghost front = json::item_models(out@);
    let mut i: usize = 0;
    proof {
        assert(scripts@.take(0) =~= Seq::empty());
        assert(front + script_functions(scripts@.take(0), tools@, *tools_override) =~= front);
        json::lemma_item_models(out@);
        assert(front =~= (if config::active(tools@, "read"@, *tools_override) {
            seq![function_model(tools::read_definition())]
        } else {
            Seq::empty()
        }) + (if config::active(tools@, "bash"@, *tools_override) {
            seq![function_model(tools::bash_definition())]
        } else {
            Seq::empty()
        }));
    }
    while i < scripts.len()
        invariant
            i <= scripts@.len(),
            json::item_models(out@) == front + script_functions(
                scripts@.take(i as int),
                tools@,
                *tools_override,
            ),
        decreases scripts@.len() - i,
    {
        let ghost t = scripts@.take(i + 1);
        assert(t.drop_last() =~= scripts@.take(i as int));
        add_functions(&mut out, &scripts[i].tools, tools, tools_override);
        assert(json::item_models(out@) =~= front + script_functions(t, tools@, *tools_override));
        i += 1;
    }
    assert(scripts@.take(scripts@.len() as int) =~= scripts@);
    out
}

/// a message of a request.
fn message(role: &str, content: &str) -> (r: Json)
    ensures
        r@ == message_model(role@, content@),
{
    let f = json::with(json::no_fields(), "role", Json::text(role));
    Json::object(json::with(f, "content", Json::text(content)))
}

/// the body of a request (OpenAI chat-completions shape) that would be sent to the
/// LLM. tool definitions and system/user messages are included verbatim.
pub fn build_request(
    model: &str,
    max_tokens: u64,
    system: &str,
    user: &str,
    functions: Vec<Json>,
) -> (r: Json)
    ensures
        r@ == request_model(
            model@,
            max_tokens,
            system@,
            user@,
            json::item_models(functions@),
        ),
{
    let mut messages: Vec<Json> = Vec::new();
    if !system.is_empty() {
        messages.push(message("system", system));
    }
    messages.push(message("user", user));
    proof {
        json::lemma_item_models(messages@);
        assert(json::item_models(messages@) =~= request_messages(system@, user@));
        json::lemma_item_models(functions@);
    }
    let f = json::with(json::no_fields(), "model", Json::text(model));
    let f = json::with(f, "max_tokens", Json::number(max_tokens));
    let f = json::with(f, "messages", Json::array(messages));
    if functions.len() == 0 {
        Json::object(f)
    } else {
        Json::object(json::with(f, "tools", Json::array(functions)))
    }
}

// --- the dry run ---

/// the names of the scripts' tools.
pub open spec fn script_tool_names<P>(scripts: Seq<HookScript<P>>) -> Seq<Seq<char>>
    decreases scripts.len(),
{
    if scripts.len() == 0 {
        Seq::empty()
    } else {
        script_tool_names(scripts.drop_last()) + full_names(scripts.last().tools@)
    }
}

/// the tools that a dry run lists: the active built-in ones, and all of the
/// scripts.
pub open spec fn dry_run_names<P>(
    scripts: Seq<HookScript<P>>,
    gates: Map<Seq<char>, bool>,
    names: Option<Vec<String>>,
) -> Seq<Seq<char>> {
    (if config::active(gates, "read"@, names) {
        seq!["read"@]
    } else {
        Seq::empty()
    }) + (if config::active(gates, "bash"@, names) {
        seq!["bash"@]
    } else {
        Seq::empty()
    }) + script_tool_names(scripts)
}

/// the tools that a dry run lists.
pub fn dry_run_tools<P>(
    scripts: &Vec<HookScript<P>>,
    tools: &ToolsConfig,
    tools_override: &Option<Vec<String>>,
) -> (r: Vec<String>)
    ensures
        text::texts(r@) == dry_run_names(scripts@, tools@, *tools_override),
{
    let mut out: Vec<String> = Vec::new();
    if tools.is_active("read", tools_override) {
        out.push("read".to_owned());
    }
    if tools.is_active("bash", tools_override) {
        out.push("bash".to_owned());
    }
    let ghost front = text::texts(out@);
    let mut i: usize = 0;
    proof {
        assert(scripts@.take(0) =~= Seq::empty());
        assert(front + script_tool_names(scripts@.take(0)) =~= front);
        assert(front =~= (if config::active(tools@, "read"@, *tools_override) {
            seq!["read"@]
        } else {
            Seq::empty()
        }) + (if config::active(tools@, "bash"@, *tools_override) {
            seq!["bash"@]
        } else {
            Seq::empty()
        }));
    }
    while i < scripts.len()
        invariant
            i <= scripts@.len(),
            text::texts(out@) == front + script_tool_names(scripts@.take(i as int)),
        decreases scripts@.len() - i,
    {
        let ghost t = scripts@.take(i + 1);
        assert(t.drop_last() =~= scripts@.take(i as int));
        let ghost before = out@;
        let mut names = names_of_tools(&scripts[i].tools);
        let ghost added = names@;
        out.append(&mut names);
        proof {
            assert(text::texts(out@) =~= text::texts(before) + text::texts(added));
            assert(text::texts(out@) =~= front + script_tool_names(t));
        }
        i += 1;
    }
    assert(scripts@.take(scripts@.len() as int) =~= scripts@);
    out
}

/// the line of a tool in the permissions of a dry run; `shown` is its permission
/// as it is shown, if it has one.
pub open spec fn permission_line(name: Seq<char>, shown: Option<Seq<char>>) -> Seq<char> {
    match shown {
        Some(s) => name + ": "@ + s,
        None => name + ": (unset, defaults to deny)"@,
    }
}

/// the line of a script in a dry run: its name, its path as it is shown, and its
/// tools.
pub open spec fn hook_line(name: Seq<char>, path: Seq<char>, names: Seq<Seq<char>>) -> Seq<char> {
    name + "  "@ + path + "  ["@ + text::join(names, ","@) + "]"@
}

/// the line of a tool in the permissions of a dry run.
pub fn format_permission(name: &str, shown: Option<&str>) -> (r: String)
    ensures
        r@ == permission_line(name@, text::str_opt(shown)),
{
    match shown {
        Some(s) => text::concat3(name, ": ", s),
        None => text::concat2(name, ": (unset, defaults to deny)"),
    }
}

/// the line of a script in a dry run.
pub fn format_hook<P>(script: &HookScript<P>, path: &str) -> (r: String)
    ensures
        r@ == hook_line(script.name@, path@, full_names(script.tools@)),
{
    let names = names_of_tools(&script.tools);
    let list = text::join_of(names.as_slice(), ",");
    let head = text::concat3(script.name.as_str(), "  ", path);
    let tail = text::concat3("  [", list.as_str(), "]");
    let r = text::concat2(head.as_str(), tail.as_str());
    assert(r@ =~= hook_line(script.name@, path@, full_names(script.tools@)));
    r
}

/// what a dry run shows.
#[derive(Debug)]
pub struct DryRun {
    pub provider: String,
    pub model: String,
    pub max_tokens: u64,
    pub max_turns: usize,
    pub tools: Vec<String>,
    /// the lines of the permissions.
    pub permissions: Vec<String>,
    /// the lines of the scripts.
    pub hooks: Vec<String>,
    pub system_prompt: String,
    pub user_prompt: String,
}

/// the lines of a section, behind a blank line and its title.
pub open spec fn section(title: Seq<char>, lines: Seq<Seq<char>>) -> Seq<Seq<char>> {
    seq![Seq::empty(), title] + lines
}

/// the lines that a dry run shows: the section of the hooks only where there are
/// any.
pub open spec fn dry_run_lines(d: DryRun) -> Seq<Seq<char>> {
    seq![
        "--- model ---"@,
        d.provider@ + "/"@ + d.model@,
        "max_tokens: "@ + text::decimal(d.max_tokens as nat),
        "max_turns: "@ + text::decimal(d.max_turns as nat),
    ] + section(
        "--- tools ---"@,
        if d.tools@.len() == 0 {
            seq!["(none)"@]
        } else {
            text::texts(d.tools@)
        },
    ) + section("--- permissions ---"@, text::texts(d.permissions@)) + (if d.hooks@.len() == 0 {
        Seq::empty()
    } else {
        section("--- hooks ---"@, text::texts(d.hooks@))
    }) + section("--- system prompt ---"@, seq![d.system_prompt@]) + section(
        "--- user prompt ---"@,
        seq![d.user_prompt@],
    )
}

/// adds the lines of a section.
fn add_section(out: &mut Vec<String>, title: &str, lines: &Vec<String>)
    ensures
        text::texts(final(out)@) == text::texts(old(out)@) + section(
            title@,
            text::texts(lines@),
        ),
{
    let ghost before = out@;
    out.push(String::new());
    out.push(title.to_owned());
    let ghost middle = out@;
    let mut copy = text::copy_list(lines);
    out.append(&mut copy);
    proof {
        assert(text::texts(out@) =~= text::texts(middle) + text::texts(lines@));
        assert(text::texts(middle) =~= text::texts(before) + seq![Seq::empty(), title@]);
        assert(text::texts(out@) =~= text::texts(before) + section(title@, text::texts(lines@)));
    }
}

/// a list of one line.
fn one_line(s: &str) -> (r: Vec<String>)
    ensures
        text::texts(r@) == seq![s@],
{
    let mut r: Vec<String> = Vec::new();
    r.push(s.to_owned());
    assert(text::texts(r@) =~= seq![s@]);
    r
}

/// the lines that a dry run shows.
pub fn dry_run_report(d: &DryRun) -> (r: Vec<String>)
    ensures
        text::texts(r@) == dry_run_lines(*d),
{
    let mut out: Vec<String> = Vec::new();
    let tokens = text::decimal_of(d.max_tokens);
    let turns = text::decimal_of(d.max_turns as u64);
    out.push("--- model ---".to_owned());
    out.push(text::concat3(d.provider.as_str(), "/", d.model.as_str()));
    out.push(text::concat2("max_tokens: ", tokens.as_str()));
    out.push(text::concat2("max_turns: ", turns.as_str()));
    assert(text::texts(out@) =~= seq![
        "--- model ---"@,
        d.provider@ + "/"@ + d.model@,
        "max_tokens: "@ + text::decimal(d.max_tokens as nat),
        "max_turns: "@ + text::decimal(d.max_turns as nat),
    ]);
    if d.tools.len() == 0 {
        add_section(&mut out, "--- tools ---", &one_line("(none)"));
    } else {
        add_section(&mut out, "--- tools ---", &d.tools);
    }
    add_section(&mut out, "--- permissions ---", &d.permissions);
    let ghost before = text::texts(out@);
    if d.hooks.len() > 0 {
        add_section(&mut out, "--- hooks ---", &d.hooks);
    } else {
        assert(before + Seq::<Seq<char>>::empty() =~= before);
    }
    add_section(&mut out, "--- system prompt ---", &one_line(d.system_prompt.as_str()));
    add_section(&mut out, "--- user prompt ---", &one_line(d.user_prompt.as_str()));
    out
}

// --- initialization ---

/// the directory of the global configuration.
pub fn config_dir(home: &str) -> (r: String)
    ensures
        r@ == text::path_join(text::path_join(home@, ".config"@), "hrns"@),
{
    let base = text::join_paths(home, ".config");
    text::join_paths(base.as_str(), "hrns")
}

/// what initializing the configuration does.
#[derive(Debug, Clone, Copy, PartialEq, Eq, Structural)]
pub struct InitPlan {
    pub create_dir: bool,
    pub write_file: bool,
}

/// decides what initializing the configuration does: a directory that is missing
/// is created, and a file that is there is not overwritten.
pub fn plan_init(dir_exists: bool, file_exists: bool) -> (r: InitPlan)
    ensures
        r == (InitPlan { create_dir: !dir_exists, write_file: !file_exists }),
{
    InitPlan { create_dir: !dir_exists, write_file: !file_exists }
}

// --- laws ---

/// what is shown of a tool's output is a beginning of it, within the limit.
pub proof fn law_head_fits(s: Seq<char>, limit: nat)
    ensures
        head_within(s, limit).is_prefix_of(s),
        text::utf8_len(head_within(s, limit)) <= limit,
    decreases s.len(),
{
    if s.len() == 0 {
        assert(s.is_prefix_of(s));
    } else if text::utf8_len(s) <= limit {
        assert(s.subrange(0, s.len() as int) =~= s);
    } else {
        let t = s.drop_last();
        law_head_fits(t, limit);
        let h = head_within(t, limit);
        assert(s.subrange(0, h.len() as int) =~= t.subrange(0, h.len() as int));
    }
}

/// standard output carries the assistant's text and nothing else.
pub proof fn law_stdout_is_text_alone(
    r: Renderer,
    report: agent::ReportModel,
    spool: Option<Seq<char>>,
    i: int,
)
    requires
        0 <= i < rendered_report(r, report, spool).len(),
        rendered_report(r, report, spool)[i].stream == Stream::Stdout,
    ensures
        report == agent::ReportModel::Text(rendered_report(r, report, spool)[i].text),
{
}

/// a quiet renderer, which never shows reasoning, writes nothing on standard
/// error but errors.
pub proof fn law_quiet_is_quiet(
    r: Renderer,
    report: agent::ReportModel,
    spool: Option<Seq<char>>,
    i: int,
)
    requires
        r.quiet,
        !r.in_reasoning,
        0 <= i < rendered_report(r, report, spool).len(),
        rendered_report(r, report, spool)[i].stream == Stream::Stderr,
    ensures
        report is Error,
        !renderer_after(r, report).in_reasoning,
{
}

/// after the end of a stream no run of reasoning is open.
pub proof fn law_end_closes_reasoning(r: Renderer)
    ensures
        !renderer_after(r, agent::ReportModel::EndStream).in_reasoning,
        r.in_reasoning ==> rendered_report(r, agent::ReportModel::EndStream, None) == on_stderr(
            "\n"@,
        ),
{
}

/// a tool whose name is shut is no function of a request.
pub proof fn law_shut_tools_are_not_requested(
    list: Seq<hooks::HookToolDef>,
    gates: Map<Seq<char>, bool>,
    names: Option<Vec<String>>,
)
    requires
        forall|i: int|
            0 <= i < list.len() ==> !config::active(
                gates,
                (#[trigger] list[i]).full_name@,
                names,
            ),
    ensures
        hook_functions(list, gates, names) == Seq::<Model>::empty(),
    decreases list.len(),
{
    if list.len() > 0 {
        let rest = list.drop_last();
        assert forall|i: int| 0 <= i < rest.len() implies !config::active(
            gates,
            (#[trigger] rest[i]).full_name@,
            names,
        ) by {
            assert(rest[i] == list[i]);
        }
        law_shut_tools_are_not_requested(rest, gates, names);
        assert(!config::active(gates, list[list.len() - 1].full_name@, names));
    }
}

/// a prompt that the command line sets overrides everything: neither an agent's
/// body nor any skill nor the default is in it.
pub proof fn law_prompt_flag_overrides_everything<F: Fn(&str) -> SkillResult>(
    load: F,
    agent: Option<&ParsedDoc<AgentFrontmatter>>,
    flag: String,
    skills: Option<Vec<String>>,
    default: Option<String>,
    gates: Map<Seq<char>, bool>,
    after: Seq<char>,
    warnings: Seq<Seq<char>>,
)
    requires
        flag@.len() > 0,
        is_system_prompt(
            load,
            agent,
            Some(flag),
            skills,
            default,
            gates,
            after,
            warnings,
        ),
    ensures
        after == flag@,
{
}

/// a column is as wide as its widest cell.
pub proof fn law_column_width(rows: Seq<Seq<Seq<char>>>, c: int)
    requires
        0 <= c,
    ensures
        forall|i: int|
            0 <= i < rows.len() && c < (#[trigger] rows[i]).len() ==> text::utf8_len(rows[i][c])
                <= column_width(rows, c),
        column_width(rows, c) > 0 ==> exists|i: int|
            0 <= i < rows.len() && c < (#[trigger] rows[i]).len() && text::utf8_len(rows[i][c])
                == column_width(rows, c),
    decreases rows.len(),
{
    if rows.len() > 0 {
        let t = rows.drop_last();
        let last = rows.len() - 1;
        law_column_width(t, c);
        assert forall|i: int| 0 <= i < rows.len() && c < (#[trigger] rows[i]).len() implies text::utf8_len(
            rows[i][c],
        ) <= column_width(rows, c) by {
            if i < last {
                assert(t[i] == rows[i]);
            }
        }
        if column_width(rows, c) > 0 {
            if column_width(t, c) >= cell_width(rows.last(), c) {
                let i = choose|i: int|
                    0 <= i < t.len() && c < (#[trigger] t[i]).len() && text::utf8_len(t[i][c])
                        == column_width(t, c);
                assert(rows[i] == t[i]);
            } else {
                assert(c < rows[last].len());
                assert(text::utf8_len(rows[last][c]) == column_width(rows, c));
            }
        }
    }
}

/// there are as many columns as the longest row has cells.
pub proof fn law_column_count(rows: Seq<Seq<Seq<char>>>)
    ensures
        forall|i: int|
            0 <= i < rows.len() ==> (#[trigger] rows[i]).len() <= column_widths(rows).len(),
        column_widths(rows).len() > 0 ==> exists|i: int|
            0 <= i < rows.len() && (#[trigger] rows[i]).len() == column_widths(rows).len(),
        forall|c: int|
            0 <= c < column_widths(rows).len() ==> column_widths(rows)[c] == column_width(rows, c),
    decreases rows.len(),
{
    if rows.len() > 0 {
        let t = rows.drop_last();
        let last = rows.len() - 1;
        law_column_count(t);
        assert forall|i: int| 0 <= i < rows.len() implies (#[trigger] rows[i]).len()
            <= column_widths(rows).len() by {
            if i < last {
                assert(t[i] == rows[i]);
            }
        }
        if column_widths(rows).len() > 0 {
            if column_count(t) >= rows.last().len() {
                let i = choose|i: int|
                    0 <= i < t.len() && (#[trigger] t[i]).len() == column_widths(t).len();
                assert(rows[i] == t[i]);
            } else {
                assert(rows[last].len() == column_widths(rows).len());
            }
        }
    }
}

/// the line of a row is its first cell, filled up to the width of its column, two
/// blanks and the line of the others; the last cell is not filled up.
pub proof fn law_row_line(row: Seq<Seq<char>>, widths: Seq<nat>)
    requires
        row.len() > 0,
        row.len() <= widths.len(),
    ensures
        row.len() == 1 ==> row_line(row, widths) == row[0],
        row.len() > 1 ==> row_line(row, widths) == text::pad_right(row[0], widths[0]) + "  "@
            + row_line(row.drop_first(), widths.drop_first()),
        row_line(Seq::empty(), widths) == Seq::<char>::empty(),
{
    let cells = padded_cells(row, widths);
    let none = Seq::<Seq<char>>::empty();
    assert(padded_cells(none, widths) =~= none);
    if row.len() == 1 {
        assert(cells =~= seq![row[0]]);
        text::law_join_single(row[0], "  "@);
    } else {
        let rest = padded_cells(row.drop_first(), widths.drop_first());
        assert(cells =~= seq![cells[0]] + rest);
        text::law_join_in_pieces(seq![cells[0]], rest, "  "@);
        text::law_join_single(cells[0], "  "@);
    }
}

/// a table without a header is its rows, line by line; one with a header has it in
/// front, and a line of hyphens as wide as the columns below it.
pub proof fn law_table_lines(header: Seq<Seq<char>>, rows: Seq<Seq<Seq<char>>>, i: int)
    requires
        0 <= i < rows.len(),
    ensures
        table_lines(Seq::empty(), rows).len() == rows.len(),
        table_lines(Seq::empty(), rows)[i] == row_line(rows[i], column_widths(rows)),
        ({
            let widths = column_widths(seq![header] + rows);
            let lines = table_lines(seq![header], rows);
            let hyphens = Seq::new(
                widths.len(),
                |c: int| Seq::new(widths[c], |k: int| '-'),
            );
            &&& lines.len() == rows.len() + 2
            &&& lines[0] == row_line(header, widths)
            &&& lines[1] == row_line(hyphens, widths)
            &&& lines[i + 2] == row_line(rows[i], widths)
        }),
{
    let none = Seq::<Seq<Seq<char>>>::empty();
    assert(none + rows =~= rows);
    let widths = column_widths(seq![header] + rows);
    let hyphens = Seq::new(widths.len(), |c: int| Seq::new(widths[c], |k: int| '-'));
    assert(separator(widths) =~= hyphens) by {
        assert forall|c: int| 0 <= c < widths.len() implies separator(widths)[c] == hyphens[c] by {
            assert(separator(widths)[c] =~= hyphens[c]);
        }
    }
    let all = seq![header].push(separator(widths)) + rows;
    assert(all[0] == header && all[1] == separator(widths) && all[i + 2] == rows[i]);
}

/// patterns with fewer wildcards are shown first, and at equal wildcards those with
/// more literal bytes.
pub proof fn law_shown_order(a: Seq<char>, b: Seq<char>)
    ensures
        glob::wildcards(a) < glob::wildcards(b) ==> shown_before(a, b) && !shown_before(b, a),
        glob::wildcards(a) == glob::wildcards(b) && glob::specificity(b) < glob::specificity(a)
            ==> shown_before(a, b) && !shown_before(b, a),
{
    text::lemma_utf8_len_bound(a);
    text::lemma_utf8_len_bound(b);
    glob::lemma_wildcards_bound(a);
    glob::lemma_wildcards_bound(b);
}

/// the rows of a tool tell its name in the first one, and each pattern with its own
/// level; a single level stands in one row.
pub proof fn law_tool_rows(
    tool: Seq<char>,
    names: Seq<Seq<char>>,
    patterns: Map<Seq<char>, PermissionLevel>,
    level: PermissionLevel,
    i: int,
)
    requires
        0 <= i < names.len(),
    ensures
        ({
            let row = pattern_rows(tool, names, patterns)[i];
            &&& pattern_rows(tool, names, patterns).len() == names.len()
            &&& row.len() == 3
            &&& i == 0 ==> row[0] == tool
            &&& i > 0 ==> row[0].len() == 0
            &&& row[1] == names[i]
            &&& row[2] == permission::level_name(patterns[names[i]])
        }),
        tool_rows(tool, Rule::Level(level)).len() == 1,
        tool_rows(tool, Rule::Level(level))[0][0] == tool,
        tool_rows(tool, Rule::Level(level))[0][1].len() == 0,
        tool_rows(tool, Rule::Level(level))[0][2] == permission::level_name(level),
        tool_rows(tool, Rule::Patterns(patterns)) == pattern_rows(
            tool,
            shown_order(patterns.dom()),
            patterns,
        ),
        permission::level_name(PermissionLevel::Allow) == "allow"@,
        permission::level_name(PermissionLevel::Ask) == "ask"@,
        permission::level_name(PermissionLevel::Deny) == "deny"@,
{
}

/// the rows of the tools come tool by tool.
pub proof fn law_all_tool_rows(
    names: Seq<Seq<char>>,
    rules: Map<Seq<char>, Rule>,
    name: Seq<char>,
)
    ensures
        all_tool_rows(Seq::empty(), rules) == Seq::<Seq<Seq<char>>>::empty(),
        all_tool_rows(names.push(name), rules) == all_tool_rows(names, rules) + tool_rows(
            name,
            rules[name],
        ),
{
    assert(names.push(name).drop_last() =~= names);
}

/// the table of tools has the built-in ones first, and a tool of a script is enabled
/// where both its script and its own name are.
pub proof fn law_tools_table<P>(
    scripts: Seq<HookScript<P>>,
    script: HookScript<P>,
    tool_gates: Map<Seq<char>, bool>,
    tool_list: Option<Vec<String>>,
    hook_gates: Map<Seq<char>, bool>,
    hook_list: Option<Vec<String>>,
    i: int,
)
    requires
        0 <= i < script.tools@.len(),
    ensures
        ({
            let before = all_tools_rows(scripts, tool_gates, tool_list, hook_gates, hook_list);
            let after = all_tools_rows(
                scripts.push(script),
                tool_gates,
                tool_list,
                hook_gates,
                hook_list,
            );
            let row = after[before.len() + i];
            let t = script.tools@[i];
            let on = config::active(hook_gates, script.name@, hook_list) && config::active(
                tool_gates,
                t.full_name@,
                tool_list,
            );
            &&& after.len() == before.len() + script.tools@.len()
            &&& after.take(before.len() as int) == before
            &&& row == seq![
                t.full_name@,
                t.description@,
                if on {
                    "true"@
                } else {
                    "false"@
                },
            ]
            &&& before[0] == seq![
                "read"@,
                "read the contents of a file"@,
                if config::active(tool_gates, "read"@, tool_list) {
                    "true"@
                } else {
                    "false"@
                },
            ]
            &&& before[1] == seq![
                "bash"@,
                "execute a bash command"@,
                if config::active(tool_gates, "bash"@, tool_list) {
                    "true"@
                } else {
                    "false"@
                },
            ]
        }),
        all_tools_rows(
            Seq::<HookScript<P>>::empty(),
            tool_gates,
            tool_list,
            hook_gates,
            hook_list,
        ).len() == 2,
{
    assert(scripts.push(script).drop_last() =~= scripts);
    let before = all_tools_rows(scripts, tool_gates, tool_list, hook_gates, hook_list);
    let after = all_tools_rows(
        scripts.push(script),
        tool_gates,
        tool_list,
        hook_gates,
        hook_list,
    );
    let rows = hook_tool_rows(
        script.tools@,
        config::active(hook_gates, script.name@, hook_list),
        tool_gates,
        tool_list,
    );
    assert(after =~= before + rows);
    assert(after[before.len() + i] == rows[i]);
    assert(after.take(before.len() as int) =~= before);
}

/// a provider is shown with its name, its client (its name where it sets none) and
/// its base url (a hyphen where it sets none).
pub proof fn law_provider_row(p: config::ProviderConfig)
    ensures
        provider_row(p).len() == 3,
        provider_row(p)[0] == p.name@,
        p.client is Some ==> provider_row(p)[1] == p.client->0@,
        p.client is None ==> provider_row(p)[1] == p.name@,
        p.base_url is Some ==> provider_row(p)[2] == p.base_url->0@,
        p.base_url is None ==> provider_row(p)[2] == "-"@,
        status_word(true) == "true"@,
        status_word(false) == "false"@,
{
}

/// an answer agrees where it is one of four words, whatever white space is around it.
pub proof fn law_agreement(a: Seq<char>, word: Seq<char>, b: Seq<char>)
    requires
        forall|k: int| 0 <= k < a.len() ==> text::is_white(#[trigger] a[k]),
        forall|k: int| 0 <= k < b.len() ==> text::is_white(#[trigger] b[k]),
        word.len() > 0 ==> !text::is_white(word[0]) && !text::is_white(word.last()),
    ensures
        agrees(a + word + b) <==> word == "y"@ || word == "Y"@ || word == "yes"@ || word
            == "YES"@,
{
    text::law_trim_undoes_padding(a, word, b);
}

/// the prompt of the flag counts before the positional one, and the standard input
/// only where neither gives anything.
pub proof fn law_prompt_sources(
    flag: Option<String>,
    positional: Option<String>,
    stdin: Option<Seq<char>>,
)
    ensures
        flag is Some ==> given_prompt(flag, positional) == flag->0@,
        flag is None && positional is Some ==> given_prompt(flag, positional) == positional->0@,
        flag is None && positional is None ==> given_prompt(flag, positional).len() == 0,
        ({
            let given = given_prompt(flag, positional);
            &&& given.len() > 0 ==> effective_prompt(given, stdin) == given
            &&& given.len() == 0 && stdin is Some ==> effective_prompt(given, stdin) == stdin->0
            &&& given.len() == 0 && stdin is None ==> effective_prompt(given, stdin).len() == 0
        }),
{
}

/// the skills of the command line stand in place of the agent's.
pub proof fn law_chosen_skills(
    agent: Option<&ParsedDoc<AgentFrontmatter>>,
    skills: Option<Vec<String>>,
)
    ensures
        skills is Some ==> chosen_skills(agent, skills) == skills,
        skills is None && agent is Some ==> chosen_skills(agent, skills)
            == agent->0.frontmatter.skills,
        skills is None && agent is None ==> chosen_skills(agent, skills) is None,
{
}

/// without a prompt of the command line and without skills the agent's body is the
/// prompt, and the default where that is empty or there is no agent.
pub proof fn law_prompt_without_flag<F: Fn(&str) -> SkillResult>(
    load: F,
    agent: Option<&ParsedDoc<AgentFrontmatter>>,
    default: Option<String>,
    gates: Map<Seq<char>, bool>,
    after: Seq<char>,
    warnings: Seq<Seq<char>>,
)
    requires
        agent is Some ==> agent->0.frontmatter.skills is None,
        is_system_prompt(load, agent, None, None, default, gates, after, warnings),
    ensures
        agent is Some && agent->0.body@.len() > 0 ==> after == agent->0.body@,
        (agent is None || agent->0.body@.len() == 0) && default is Some ==> after == default->0@,
        (agent is None || agent->0.body@.len() == 0) && default is None ==> after.len() == 0,
        warnings.len() == 0,
{
}

/// with skills, and without a prompt of the command line, the prompt is the agent's
/// body with the skills behind it.
pub proof fn law_prompt_with_chosen_skills<F: Fn(&str) -> SkillResult>(
    load: F,
    agent: Option<&ParsedDoc<AgentFrontmatter>>,
    skills: Vec<String>,
    gates: Map<Seq<char>, bool>,
    prompt: Seq<char>,
    warnings: Seq<Seq<char>>,
)
    requires
        is_composed(load, agent, None, Some(skills), gates, prompt, warnings),
    ensures
        resolve::skills_appended(
            load,
            skills@,
            gates,
            if agent is Some {
                agent->0.body@
            } else {
                Seq::empty()
            },
            prompt,
            warnings,
        ),
{
}

/// the fragments go behind the prompt, in order, a blank line before each but where
/// there is nothing yet.
pub proof fn law_fragments(prompt: Seq<char>, fragments: Seq<Seq<char>>, s: Seq<char>)
    ensures
        with_fragments(prompt, Seq::empty()) == prompt,
        with_fragments(prompt, fragments).len() > 0 ==> with_fragments(prompt, fragments.push(s))
            == with_fragments(prompt, fragments) + seq!['\n', '\n'] + s,
        with_fragments(prompt, fragments).len() == 0 ==> with_fragments(prompt, fragments.push(s))
            == s,
        prompt.is_prefix_of(with_fragments(prompt, fragments)),
    decreases fragments.len(),
{
    assert(fragments.push(s).drop_last() =~= fragments);
    reveal_strlit("\n\n");
    assert("\n\n"@ =~= seq!['\n', '\n']);
    let w = with_fragments(prompt, fragments);
    if fragments.len() > 0 {
        let t = fragments.drop_last();
        law_fragments(prompt, t, s);
        let b = with_fragments(prompt, t);
        if b.len() > 0 {
            assert(w.subrange(0, prompt.len() as int) =~= b.subrange(0, prompt.len() as int));
        } else {
            assert(w.subrange(0, prompt.len() as int) =~= prompt);
        }
    } else {
        assert(w.subrange(0, prompt.len() as int) =~= prompt);
    }
}

/// the model of the command line counts first, then the agent's, then the configured
/// one.
pub proof fn law_chosen_model(
    flag: Option<Seq<char>>,
    agent: Option<Seq<char>>,
    configured: Option<Seq<char>>,
    m: Seq<char>,
)
    ensures
        chosen_model(Some(m), agent, configured) == m,
        chosen_model(None, Some(m), configured) == m,
        chosen_model(None, None, Some(m)) == m,
        chosen_model(None, None, None) == "openai/gpt-4o"@,
        flag is Some ==> chosen_model(flag, agent, configured) == chosen_model(flag, None, None),
{
}

/// an entry of the agent replaces the configured one of its name, another configured
/// one stays, and an override of a whole tool counts before both.
pub proof fn law_settled_permissions(
    config: Map<Seq<char>, Rule>,
    agent: Map<Seq<char>, Rule>,
    tool: Seq<char>,
    target: Target,
)
    requires
        target.0@ == tool,
        target.1 is None,
    ensures
        ({
            let none = Seq::<Target>::empty();
            let plain = settled(config, agent, none, none, none);
            &&& agent.contains_key(tool) ==> plain.contains_key(tool) && plain[tool] == agent[tool]
            &&& !agent.contains_key(tool) && config.contains_key(tool) ==> plain.contains_key(tool)
                && plain[tool] == config[tool]
            &&& !agent.contains_key(tool) && !config.contains_key(tool) ==> !plain.contains_key(
                tool,
            )
            &&& settled(config, agent, seq![target], none, none)[tool] == Rule::Level(
                PermissionLevel::Allow,
            )
            &&& settled(config, agent, none, seq![target], none)[tool] == Rule::Level(
                PermissionLevel::Ask,
            )
            &&& settled(config, agent, none, none, seq![target])[tool] == Rule::Level(
                PermissionLevel::Deny,
            )
        }),
{
    let none = Seq::<Target>::empty();
    assert(command_line_overrides(none, none, none) =~= Seq::empty());
    let a = command_line_overrides(seq![target], none, none);
    let b = command_line_overrides(none, seq![target], none);
    let c = command_line_overrides(none, none, seq![target]);
    assert(a =~= seq![override_of(target, PermissionLevel::Allow)]);
    assert(b =~= seq![override_of(target, PermissionLevel::Ask)]);
    assert(c =~= seq![override_of(target, PermissionLevel::Deny)]);
    assert(a.drop_last() =~= Seq::empty());
    assert(b.drop_last() =~= Seq::empty());
    assert(c.drop_last() =~= Seq::empty());
    reveal_with_fuel(permission::all_overridden, 2);
}

/// what an invocation does goes by its flags: the first one that is set of those in
/// their order, and a run where none is.
pub proof fn law_modes(flags: Flags, r: Mode)
    requires
        is_asked(flags, r),
        forall|m: Mode| #[trigger] is_asked(flags, m) ==> precedence(r) <= precedence(m),
    ensures
        r == if flags.init {
            Mode::Init
        } else if flags.list_agents {
            Mode::ListAgents
        } else if flags.list_skills {
            Mode::ListSkills
        } else if flags.list_tools {
            Mode::ListTools
        } else if flags.list_hooks {
            Mode::ListHooks
        } else if flags.list_providers {
            Mode::ListProviders
        } else if flags.list_permissions {
            Mode::ListPermissions
        } else if flags.dry_run {
            Mode::DryRun
        } else if flags.dump_request {
            Mode::DumpRequest
        } else {
            Mode::Run
        },
{
    assert(is_asked(flags, Mode::Init) == flags.init);
    assert(is_asked(flags, Mode::ListAgents) == flags.list_agents);
    assert(is_asked(flags, Mode::ListSkills) == flags.list_skills);
    assert(is_asked(flags, Mode::ListTools) == flags.list_tools);
    assert(is_asked(flags, Mode::ListHooks) == flags.list_hooks);
    assert(is_asked(flags, Mode::ListProviders) == flags.list_providers);
    assert(is_asked(flags, Mode::ListPermissions) == flags.list_permissions);
    assert(is_asked(flags, Mode::DryRun) == flags.dry_run);
    assert(is_asked(flags, Mode::DumpRequest) == flags.dump_request);
    assert(is_asked(flags, Mode::Run));
}

/// long output is kept below the cache directory, or else below that of the home
/// directory, or else below `/tmp`, in a directory of the process.
pub proof fn law_spool_directory(cache: Seq<char>, home: Seq<char>, other: Option<Seq<char>>, pid: nat)
    ensures
        spool_directory(Some(cache), other, pid) == text::path_join(
            text::path_join(cache, "hrns"@),
            text::decimal(pid),
        ),
        spool_directory(None, Some(home), pid) == text::path_join(
            text::path_join(text::path_join(home, ".cache"@), "hrns"@),
            text::decimal(pid),
        ),
        spool_directory(None, None, pid) == text::path_join(
            text::path_join("/tmp"@, "hrns"@),
            text::decimal(pid),
        ),
{
}

/// what is shown of a tool's output is as much of it as fits: a longer beginning
/// would exceed the limit. what fits is shown whole.
pub proof fn law_head_is_longest(s: Seq<char>, limit: nat, k: int)
    requires
        head_within(s, limit).len() < k <= s.len(),
    ensures
        text::utf8_len(s.take(k)) > limit,
    decreases s.len(),
{
    if s.len() > 0 && text::utf8_len(s) > limit {
        if k == s.len() {
            assert(s.take(k) =~= s);
        } else {
            let t = s.drop_last();
            law_head_is_longest(t, limit, k);
            assert(t.take(k) =~= s.take(k));
        }
    }
}

/// output that fits is shown whole on one line; output that does not is shown as far
/// as it fits, with a hint that tells how much of it is shown and where the rest is.
pub proof fn law_shown_results(result: Seq<char>, limit: nat, spool: Option<Seq<char>>)
    ensures
        limit == 0 || text::utf8_len(result) <= limit ==> result_outputs(result, limit, spool)
            == on_stderr("\x1b[2m  -> "@ + text::escape_newlines(result) + "\x1b[0m\n"@),
        limit > 0 && text::utf8_len(result) > limit ==> {
            let out = result_outputs(result, limit, spool);
            let head = head_within(result, limit);
            &&& out.len() == 2
            &&& out[0].stream == Stream::Stderr
            &&& out[0].text == "\x1b[2m  -> "@ + text::escape_newlines(head) + "\x1b[0m\n"@
            &&& out[1].stream == Stream::Stderr
            &&& spool is None ==> out[1].text == "\x1b[33m  ! truncated tool output: "@
                + text::decimal(text::utf8_len(head)) + " of "@ + text::decimal(
                text::utf8_len(result),
            ) + " bytes shown"@ + " (failed to spool full content)\x1b[0m\n"@
            &&& spool is Some ==> out[1].text == "\x1b[33m  ! truncated tool output: "@
                + text::decimal(text::utf8_len(head)) + " of "@ + text::decimal(
                text::utf8_len(result),
            ) + " bytes shown"@ + (". full content at "@ + spool->0 + " (read with: cat "@
                + spool->0 + ")\x1b[0m\n"@)
        },
{
}

/// the assistant's text is written on standard output as it is, behind a line feed on
/// standard error where a run of reasoning is open.
pub proof fn law_text_is_shown(r: Renderer, s: Seq<char>, spool: Option<Seq<char>>)
    ensures
        ({
            let out = rendered_report(r, agent::ReportModel::Text(s), spool);
            &&& out.last() == (OutputModel { stream: Stream::Stdout, text: s })
            &&& r.in_reasoning ==> out.len() == 2 && out[0] == (OutputModel {
                stream: Stream::Stderr,
                text: "\n"@,
            })
            &&& !r.in_reasoning ==> out.len() == 1
        }),
{
}

/// unless it is quiet a renderer shows reasoning, calls and results on standard error;
/// errors are shown in any case.
pub proof fn law_activity_is_shown(
    r: Renderer,
    s: Seq<char>,
    args: Seq<char>,
    spool: Option<Seq<char>>,
)
    requires
        !r.in_reasoning,
    ensures
        !r.quiet ==> rendered_report(r, agent::ReportModel::Reasoning(s), spool) == on_stderr(
            "\x1b[2;3m"@ + s + "\x1b[0m"@,
        ),
        ({
            let call = agent::ReportModel::ToolCall { name: s, args };
            !r.quiet ==> rendered_report(r, call, spool) =~= on_stderr(
                "\x1b[1;36m"@ + s + "\x1b[0m\x1b[2m("@ + args + ")\x1b[0m\n"@,
            )
        }),
        !r.quiet ==> rendered_report(r, agent::ReportModel::ToolResult(s), spool)
            =~= result_outputs(s, r.limit as nat, spool),
        rendered_report(r, agent::ReportModel::Error(s), spool) == on_stderr(
            "stream error: "@ + s + "\n"@,
        ),
        !r.quiet ==> renderer_after(r, agent::ReportModel::Reasoning(s)).in_reasoning,
        on_stderr(s).len() == 1,
        on_stderr(s)[0] == (OutputModel { stream: Stream::Stderr, text: s }),
{
}

/// a run of reasoning is closed by a text, a call, a result, a restart and the end,
/// with one line feed in front, and by nothing else; a renderer keeps its settings.
pub proof fn law_reasoning_is_closed(
    r: Renderer,
    report: agent::ReportModel,
    spool: Option<Seq<char>>,
)
    requires
        r.in_reasoning,
    ensures
        !(report is Reasoning) && !(report is Error) ==> rendered_report(r, report, spool).len() > 0
            && rendered_report(r, report, spool)[0] == (OutputModel {
            stream: Stream::Stderr,
            text: "\n"@,
        }) && !renderer_after(r, report).in_reasoning,
        report is Reasoning || report is Error ==> renderer_after(r, report).in_reasoning,
        renderer_after(r, report).quiet == r.quiet,
        renderer_after(r, report).limit == r.limit,
{
}

/// the names of the fields of a request are told apart.
proof fn lemma_request_names()
    ensures
        "type"@ != "function"@,
        "name"@ != "description"@,
        "name"@ != "parameters"@,
        "description"@ != "parameters"@,
        "role"@ != "content"@,
        "model"@ != "max_tokens"@,
        "model"@ != "messages"@,
        "model"@ != "tools"@,
        "max_tokens"@ != "messages"@,
        "max_tokens"@ != "tools"@,
        "messages"@ != "tools"@,
{
    reveal_strlit("type");
    reveal_strlit("function");
    reveal_strlit("name");
    reveal_strlit("description");
    reveal_strlit("parameters");
    reveal_strlit("role");
    reveal_strlit("content");
    reveal_strlit("model");
    reveal_strlit("max_tokens");
    reveal_strlit("messages");
    reveal_strlit("tools");
    assert("type"@.len() == 4 && "function"@.len() == 8);
    assert("name"@.len() == 4 && "description"@.len() == 11 && "parameters"@.len() == 10);
    assert("role"@.len() == 4 && "content"@.len() == 7);
    assert("model"@.len() == 5 && "max_tokens"@.len() == 10 && "messages"@.len() == 8
        && "tools"@.len() == 5);
    assert("model"@[0] == 'm' && "tools"@[0] == 't');
}

/// the function of a tool carries the tool's name, its description and its parameters,
/// each under its name, for every tool.
pub proof fn law_function_tells_definition(def: tools::DefinitionModel)
    ensures
        json::field(function_model(def), "type"@) == Some(Model::Text("function"@)),
        json::field(function_model(def), "function"@) is Some,
        ({
            let f = json::field(function_model(def), "function"@)->0;
            &&& json::field(f, "name"@) == Some(Model::Text(def.name))
            &&& json::field(f, "description"@) == Some(Model::Text(def.description))
            &&& json::field(f, "parameters"@) == Some(def.parameters)
        }),
{
    lemma_request_names();
}

/// tools that differ in anything have different functions.
pub proof fn law_functions_differ(a: tools::DefinitionModel, b: tools::DefinitionModel)
    requires
        function_model(a) == function_model(b),
    ensures
        a == b,
{
    law_function_tells_definition(a);
    law_function_tells_definition(b);
}

/// the functions of a script's tools come tool by tool: each one that is active, under
/// its full name and with its description and schema.
pub proof fn law_hook_functions(
    list: Seq<hooks::HookToolDef>,
    tool: hooks::HookToolDef,
    gates: Map<Seq<char>, bool>,
    names: Option<Vec<String>>,
)
    ensures
        hook_functions(Seq::empty(), gates, names) == Seq::<Model>::empty(),
        !config::active(gates, tool.full_name@, names) ==> hook_functions(
            list.push(tool),
            gates,
            names,
        ) == hook_functions(list, gates, names),
        config::active(gates, tool.full_name@, names) ==> {
            let before = hook_functions(list, gates, names);
            let after = hook_functions(list.push(tool), gates, names);
            let f = json::field(after.last(), "function"@)->0;
            &&& after.len() == before.len() + 1
            &&& after.drop_last() == before
            &&& json::field(f, "name"@) == Some(Model::Text(tool.full_name@))
            &&& json::field(f, "description"@) == Some(Model::Text(tool.description@))
            &&& json::field(f, "parameters"@) == Some(tool.parameters_schema@)
        },
{
    assert(list.push(tool).drop_last() =~= list);
    let d = tools::DefinitionModel {
        name: tool.full_name@,
        description: tool.description@,
        parameters: tool.parameters_schema@,
    };
    law_function_tells_definition(d);
    if config::active(gates, tool.full_name@, names) {
        let before = hook_functions(list, gates, names);
        let after = hook_functions(list.push(tool), gates, names);
        assert(after =~= before.push(function_model(d)));
        assert(after.drop_last() =~= before);
    }
}

/// the functions of a request are those of the active built-in tools, `read` first,
/// and then those of the scripts, script by script.
pub proof fn law_request_functions<P>(
    scripts: Seq<HookScript<P>>,
    script: HookScript<P>,
    gates: Map<Seq<char>, bool>,
    names: Option<Vec<String>>,
)
    ensures
        request_functions(scripts.push(script), gates, names) == request_functions(
            scripts,
            gates,
            names,
        ) + hook_functions(script.tools@, gates, names),
        ({
            let own = request_functions(Seq::<HookScript<P>>::empty(), gates, names);
            let read = config::active(gates, "read"@, names);
            let bash = config::active(gates, "bash"@, names);
            &&& own.len() == (if read {
                1int
            } else {
                0
            }) + if bash {
                1int
            } else {
                0
            }
            &&& read ==> json::field(json::field(own[0], "function"@)->0, "name"@) == Some(
                Model::Text("read"@),
            )
            &&& bash ==> json::field(json::field(own.last(), "function"@)->0, "name"@) == Some(
                Model::Text("bash"@),
            )
        }),
{
    assert(scripts.push(script).drop_last() =~= scripts);
    assert(request_functions(scripts.push(script), gates, names) =~= request_functions(
        scripts,
        gates,
        names,
    ) + hook_functions(script.tools@, gates, names));
    law_function_tells_definition(tools::read_definition());
    law_function_tells_definition(tools::bash_definition());
}

/// a request names the model and the number of tokens, carries the system prompt,
/// where there is one, and the user's behind it, and the functions, where there are
/// any.
pub proof fn law_request(
    model: Seq<char>,
    max_tokens: u64,
    system: Seq<char>,
    user: Seq<char>,
    functions: Seq<Model>,
)
    ensures
        ({
            let r = request_model(model, max_tokens, system, user, functions);
            let messages = json::field(r, "messages"@)->0->Array_0;
            &&& json::field(r, "model"@) == Some(Model::Text(model))
            &&& json::field(r, "max_tokens"@) == Some(Model::Number(json::number_of(max_tokens)))
            &&& functions.len() > 0 ==> json::field(r, "tools"@) == Some(Model::Array(functions))
            &&& functions.len() == 0 ==> json::field(r, "tools"@) is None
            &&& json::field(r, "messages"@) is Some
            &&& json::field(r, "messages"@)->0 is Array
            &&& messages.len() == if system.len() == 0 {
                1int
            } else {
                2
            }
            &&& json::field(messages.last(), "role"@) == Some(Model::Text("user"@))
            &&& json::field(messages.last(), "content"@) == Some(Model::Text(user))
            &&& system.len() > 0 ==> json::field(messages[0], "role"@) == Some(
                Model::Text("system"@),
            )
            &&& system.len() > 0 ==> json::field(messages[0], "content"@) == Some(
                Model::Text(system),
            )
        }),
{
    lemma_request_names();
}

/// a dry run lists the active built-in tools, and all tools of the scripts, in order.
pub proof fn law_dry_run_names<P>(
    scripts: Seq<HookScript<P>>,
    script: HookScript<P>,
    gates: Map<Seq<char>, bool>,
    names: Option<Vec<String>>,
    i: int,
)
    requires
        0 <= i < script.tools@.len(),
    ensures
        ({
            let before = dry_run_names(scripts, gates, names);
            let after = dry_run_names(scripts.push(script), gates, names);
            &&& after.len() == before.len() + script.tools@.len()
            &&& after.take(before.len() as int) == before
            &&& after[before.len() + i] == script.tools@[i].full_name@
        }),
        ({
            let own = dry_run_names(Seq::<HookScript<P>>::empty(), gates, names);
            &&& config::active(gates, "read"@, names) ==> own[0] == "read"@
            &&& config::active(gates, "bash"@, names) ==> own.last() == "bash"@
            &&& own.len() == (if config::active(gates, "read"@, names) {
                1int
            } else {
                0
            }) + if config::active(gates, "bash"@, names) {
                1int
            } else {
                0
            }
        }),
{
    assert(scripts.push(script).drop_last() =~= scripts);
    let before = dry_run_names(scripts, gates, names);
    let after = dry_run_names(scripts.push(script), gates, names);
    let more = full_names(script.tools@);
    assert(after =~= before + more);
    assert(after[before.len() + i] == more[i]);
    assert(after.take(before.len() as int) =~= before);
}

/// the lines of a dry run: the model and the limits in front; the tools, or that there
/// are none; the permissions; the hooks, where there are any; and the two prompts at
/// the end, each section behind a blank line and its title.
pub proof fn law_dry_run(d: DryRun, i: int)
    ensures
        ({
            let lines = dry_run_lines(d);
            let n = lines.len() as int;
            let t = if d.tools@.len() == 0 {
                1int
            } else {
                d.tools@.len() as int
            };
            let p = 6 + t;
            let h = p + 2 + d.permissions@.len();
            &&& lines[0] == "--- model ---"@
            &&& lines[1] == d.provider@ + "/"@ + d.model@
            &&& lines[2] == "max_tokens: "@ + text::decimal(d.max_tokens as nat)
            &&& lines[3] == "max_turns: "@ + text::decimal(d.max_turns as nat)
            &&& lines[4].len() == 0
            &&& lines[5] == "--- tools ---"@
            &&& d.tools@.len() == 0 ==> lines[6] == "(none)"@
            &&& 0 <= i < d.tools@.len() ==> lines[6 + i] == d.tools@[i]@
            &&& lines[p].len() == 0
            &&& lines[p + 1] == "--- permissions ---"@
            &&& 0 <= i < d.permissions@.len() ==> lines[p + 2 + i] == d.permissions@[i]@
            &&& d.hooks@.len() > 0 ==> lines[h].len() == 0 && lines[h + 1] == "--- hooks ---"@
            &&& 0 <= i < d.hooks@.len() ==> lines[h + 2 + i] == d.hooks@[i]@
            &&& n == h + 6 + if d.hooks@.len() == 0 {
                0int
            } else {
                2 + d.hooks@.len() as int
            }
            &&& lines[n - 6].len() == 0
            &&& lines[n - 5] == "--- system prompt ---"@
            &&& lines[n - 4] == d.system_prompt@
            &&& lines[n - 3].len() == 0
            &&& lines[n - 2] == "--- user prompt ---"@
            &&& lines[n - 1] == d.user_prompt@
        }),
{
}

/// a permission is shown behind its tool's name, and what is not set as that; a script
/// is shown with its path and its tools.
pub proof fn law_dry_run_parts(
    name: Seq<char>,
    shown: Seq<char>,
    path: Seq<char>,
    list: Seq<hooks::HookToolDef>,
    i: int,
)
    ensures
        permission_line(name, Some(shown)) == name + ": "@ + shown,
        permission_line(name, None) == name + ": (unset, defaults to deny)"@,
        hook_line(name, path, full_names(list)) == name + "  "@ + path + "  ["@ + text::join(
            full_names(list),
            ","@,
        ) + "]"@,
        full_names(list).len() == list.len(),
        0 <= i < list.len() ==> full_names(list)[i] == list[i].full_name@,
{
}

/// the overrides of the command line are one for each target, with the level of its
/// flag.
pub proof fn law_command_line_overrides(
    allow: Seq<Target>,
    ask: Seq<Target>,
    deny: Seq<Target>,
    i: int,
)
    ensures
        ({
            let all = command_line_overrides(allow, ask, deny);
            &&& all.len() == allow.len() + ask.len() + deny.len()
            &&& 0 <= i < allow.len() ==> all[i].tool == allow[i].0@ && all[i].pattern
                == text::text_opt(allow[i].1) && all[i].level == PermissionLevel::Allow
            &&& 0 <= i < ask.len() ==> all[allow.len() + i].tool == ask[i].0@ && all[allow.len()
                + i].pattern == text::text_opt(ask[i].1) && all[allow.len() + i].level
                == PermissionLevel::Ask
            &&& 0 <= i < deny.len() ==> all[allow.len() + ask.len() + i].tool == deny[i].0@
                && all[allow.len() + ask.len() + i].pattern == text::text_opt(deny[i].1)
                && all[allow.len() + ask.len() + i].level == PermissionLevel::Deny
        }),
{
}

/// the models of outputs and rows tell what the values hold.
pub proof fn law_output_models(o: Output, list: Seq<Output>, rows: Seq<Vec<String>>, i: int, j: int)
    ensures
        o@.stream == o.stream,
        o@.text == o.text@,
        output_models(list).len() == list.len(),
        0 <= i < list.len() ==> output_models(list)[i] == list[i]@,
        row_texts(rows).len() == rows.len(),
        0 <= i < rows.len() ==> row_texts(rows)[i].len() == rows[i]@.len(),
        0 <= i < rows.len() && 0 <= j < rows[i]@.len() ==> row_texts(rows)[i][j] == rows[i]@[j]@,
{
}

/// the row of a script tells its name, its path, its tools with commas between them,
/// and whether it is enabled.
pub proof fn law_hook_cells(
    name: Seq<char>,
    path: Seq<char>,
    list: Seq<hooks::HookToolDef>,
    tool: hooks::HookToolDef,
    active: bool,
)
    ensures
        hook_cells(name, path, list, active).len() == 4,
        hook_cells(name, path, list, active)[0] == name,
        hook_cells(name, path, list, active)[1] == path,
        hook_cells(name, path, Seq::empty(), active)[2].len() == 0,
        hook_cells(name, path, seq![tool], active)[2] == tool.full_name@,
        list.len() > 0 ==> hook_cells(name, path, list.push(tool), active)[2] == hook_cells(
            name,
            path,
            list,
            active,
        )[2].push(',') + tool.full_name@,
        hook_cells(name, path, list, true)[3] == "true"@,
        hook_cells(name, path, list, false)[3] == "false"@,
{
    let none = Seq::<hooks::HookToolDef>::empty();
    reveal_strlit(",");
    assert(","@ =~= seq![',']);
    assert(full_names(none) =~= Seq::empty());
    let one = full_names(seq![tool]);
    assert(one =~= seq![tool.full_name@]);
    text::law_join_single(tool.full_name@, ","@);
    if list.len() > 0 {
        assert(full_names(list.push(tool)) =~= full_names(list) + one);
        text::law_join_in_pieces(full_names(list), one, ","@);
        let s = text::join(full_names(list), ","@);
        assert(s.push(',') =~= s + ","@);
    }
}

/// the row of a definition tells its name and its description, if it has one.
pub proof fn law_agent_cells(name: Seq<char>, description: Option<Seq<char>>)
    ensures
        agent_cells(name, description).len() == 2,
        agent_cells(name, description)[0] == name,
        description is Some ==> agent_cells(name, description)[1] == description->0,
        description is None ==> agent_cells(name, description)[1].len() == 0,
{
}

/// a path below the working directory is shown relative to it, even below the home
/// directory; one below the home directory behind `~/`; and any other one as it is.
pub proof fn law_shortened_paths(
    path: Seq<char>,
    below_cwd: Seq<char>,
    below_home: Seq<char>,
    other: Option<Seq<char>>,
)
    ensures
        shortened(path, Some(below_cwd), other) == below_cwd,
        shortened(path, None, Some(below_home)) == seq!['~', '/'] + below_home,
        shortened(path, None, None) == path,
{
    reveal_strlit("~/");
    assert("~/"@ =~= seq!['~', '/']);
}

/// the question shows the tool and the whole input.
pub proof fn law_question(tool: Seq<char>, input: Seq<char>)
    ensures
        question_text(tool, input) == "allow "@ + tool + seq![' ', '"'] + input + seq!['"']
            + "? [y/N] "@,
{
    reveal_strlit(" \"");
    reveal_strlit("\"? [y/N] ");
    reveal_strlit("? [y/N] ");
    assert(" \""@ =~= seq![' ', '"']);
    assert("\"? [y/N] "@ =~= seq!['"'] + "? [y/N] "@);
    assert(question_text(tool, input) =~= "allow "@ + tool + seq![' ', '"'] + input + seq!['"']
        + "? [y/N] "@);
}

/// a prompt of white space alone is an error, and any other one is taken as it is.
pub proof fn law_prompt_outcome(prompt: Seq<char>, i: int)
    ensures
        (forall|k: int| 0 <= k < prompt.len() ==> text::is_white(#[trigger] prompt[k]))
            ==> prompt_outcome(prompt) is Err,
        0 <= i < prompt.len() && !text::is_white(prompt[i]) ==> prompt_outcome(prompt) == Ok::<
            Seq<char>,
            Seq<char>,
        >(prompt),
{
    let none = Seq::<char>::empty();
    if forall|k: int| 0 <= k < prompt.len() ==> text::is_white(#[trigger] prompt[k]) {
        text::law_trim_undoes_padding(prompt, none, none);
        assert(prompt + none + none =~= prompt);
    }
    if 0 <= i < prompt.len() && !text::is_white(prompt[i]) {
        text::law_trim(prompt);
    }
}

/// a prompt without white space around it and without fragments is sent as it is, and
/// white space around it is left out.
pub proof fn law_finished_prompt(a: Seq<char>, prompt: Seq<char>, b: Seq<char>)
    requires
        forall|k: int| 0 <= k < a.len() ==> text::is_white(#[trigger] a[k]),
        forall|k: int| 0 <= k < b.len() ==> text::is_white(#[trigger] b[k]),
        prompt.len() > 0 ==> !text::is_white(prompt[0]) && !text::is_white(prompt.last()),
    ensures
        finished_prompt(a + prompt + b, Seq::empty()) == prompt,
{
    text::law_trim_undoes_padding(a, prompt, b);
}

/// a prompt and a fragment that neither begin nor end with white space are sent with a
/// blank line between them.
pub proof fn law_finished_fragment(prompt: Seq<char>, fragment: Seq<char>)
    requires
        prompt.len() > 0,
        fragment.len() > 0,
        !text::is_white(prompt[0]),
        !text::is_white(fragment.last()),
    ensures
        finished_prompt(prompt, seq![fragment]) == prompt + seq!['\n', '\n'] + fragment,
{
    let none = Seq::<Seq<char>>::empty();
    law_fragments(prompt, none, fragment);
    assert(none.push(fragment) =~= seq![fragment]);
    let s = prompt + seq!['\n', '\n'] + fragment;
    let empty = Seq::<char>::empty();
    assert(s[0] == prompt[0] && s.last() == fragment.last());
    text::law_trim_undoes_padding(empty, s, empty);
    assert(empty + s + empty =~= s);
}

/// a number of the command line counts before a configured one, and that before the
/// default.
pub proof fn law_chosen_number(n: int, other: Option<int>, default: int)
    ensures
        chosen_number(Some(n), other, default) == n,
        chosen_number(None, Some(n), default) == n,
        chosen_number(None, None, default) == default,
        tokens_set(None) is None,
        size_set(None) is None,
{
}

/// a quiet renderer writes nothing of reasoning, calls and results, and no report
/// opens a run of reasoning in it.
pub proof fn law_quiet_renderer(
    r: Renderer,
    report: agent::ReportModel,
    spool: Option<Seq<char>>,
)
    requires
        r.quiet,
        !r.in_reasoning,
    ensures
        report is Reasoning || report is ToolCall || report is ToolResult ==> rendered_report(
            r,
            report,
            spool,
        ).len() == 0,
        !renderer_after(r, report).in_reasoning,
{
}

} // verus!
