//! The text of the cache files and of the error reports of a cache build.
use crate::text::{decimal, decimal_spec};
use vstd::prelude::*;

verus! {

/// The cells of a table, as characters.
pub open spec fn table_view(rows: Seq<Vec<String>>) -> Seq<Seq<Seq<char>>> {
    rows.map_values(|r: Vec<String>| r@.map_values(|c: String| c@))
}

/// The cells of a row joined by tabs.
pub open spec fn row_text(cells: Seq<Seq<char>>) -> Seq<char>
    decreases cells.len(),
{
    if cells.len() == 0 {
        Seq::empty()
    } else if cells.len() == 1 {
        cells[0]
    } else {
        row_text(cells.drop_last()) + "\t"@ + cells.last()
    }
}

/// A cache file: one line per row, each line ending with a newline.
pub open spec fn table_text(rows: Seq<Seq<Seq<char>>>) -> Seq<char>
    decreases rows.len(),
{
    if rows.len() == 0 {
        Seq::empty()
    } else {
        table_text(rows.drop_last()) + row_text(rows.last()) + "\n"@
    }
}

/// The report of the errors of a build: each error on a line of its own,
/// introduced by a tab and `In error: `.
pub open spec fn report_text(messages: Seq<Seq<char>>) -> Seq<char>
    decreases messages.len(),
{
    if messages.len() == 0 {
        Seq::empty()
    } else {
        report_text(messages.drop_last()) + "\n\tIn error: "@ + messages.last()
    }
}

/// How many times `c` occurs in `s`.
pub open spec fn count_char(s: Seq<char>, c: char) -> nat
    decreases s.len(),
{
    if s.len() == 0 {
        0
    } else {
        count_char(s.drop_last(), c) + if s.last() == c {
            1nat
        } else {
            0nat
        }
    }
}

/// Counting occurrences adds up over a concatenation.
pub proof fn lemma_count_char_concat(a: Seq<char>, b: Seq<char>, c: char)
    ensures
        count_char(a + b, c) == count_char(a, c) + count_char(b, c),
    decreases b.len(),
{
    if b.len() == 0 {
        assert(a + b =~= a);
    } else {
        assert((a + b).drop_last() =~= a + b.drop_last());
        lemma_count_char_concat(a, b.drop_last(), c);
    }
}

proof fn lemma_count_char_absent(s: Seq<char>, c: char)
    requires
        forall|i: int| 0 <= i < s.len() ==> s[i] != c,
    ensures
        count_char(s, c) == 0,
    decreases s.len(),
{
    if s.len() > 0 {
        lemma_count_char_absent(s.drop_last(), c);
    }
}

/// The cells of a row are its text's pieces between tabs: a row of one
/// cell is that cell, and joining two rows puts one tab between them.
pub proof fn lemma_row_text_join(a: Seq<Seq<char>>, b: Seq<Seq<char>>, c: Seq<char>)
    requires
        a.len() > 0,
        b.len() > 0,
    ensures
        row_text(seq![c]) == c,
        row_text(Seq::<Seq<char>>::empty()) == Seq::<char>::empty(),
        row_text(a + b) == row_text(a) + "\t"@ + row_text(b),
    decreases b.len(),
{
    assert(seq![c].len() == 1);
    if b.len() == 1 {
        assert((a + b).drop_last() =~= a);
        assert((a + b).last() == b[0]);
    } else {
        assert((a + b).drop_last() =~= a + b.drop_last());
        lemma_row_text_join(a, b.drop_last(), c);
        assert(row_text(b) == row_text(b.drop_last()) + "\t"@ + b.last());
        assert(row_text(a + b) =~= row_text(a) + "\t"@ + row_text(b));
    }
}

/// A row's text holds a newline only where a cell holds one.
proof fn lemma_row_text_no_newline(cells: Seq<Seq<char>>)
    requires
        forall|j: int, k: int| 0 <= j < cells.len() && 0 <= k < cells[j].len() ==> cells[j][k] != '\n',
    ensures
        forall|k: int| 0 <= k < row_text(cells).len() ==> row_text(cells)[k] != '\n',
    decreases cells.len(),
{
    reveal_strlit("\t");
    if cells.len() > 1 {
        let d = cells.drop_last();
        assert forall|j: int, k: int| 0 <= j < d.len() && 0 <= k < d[j].len() implies d[j][k] != '\n' by {
            assert(d[j] == cells[j]);
        }
        lemma_row_text_no_newline(d);
        let l = cells.last();
        assert(l == cells[cells.len() - 1]);
        let t = row_text(d) + "\t"@ + l;
        assert forall|k: int| 0 <= k < t.len() implies t[k] != '\n' by {
            if k >= row_text(d).len() + 1 {
                assert(t[k] == l[k - row_text(d).len() - 1]);
            }
        }
    } else if cells.len() == 1 {
        assert(cells[0] == cells.last());
    }
}

/// Writing rows one after the other writes their texts one after the
/// other, and a single row is written as its line followed by a newline.
pub proof fn lemma_table_text_concat(a: Seq<Seq<Seq<char>>>, b: Seq<Seq<Seq<char>>>, r: Seq<Seq<char>>)
    ensures
        table_text(a + b) == table_text(a) + table_text(b),
        table_text(seq![r]) == row_text(r) + "\n"@,
    decreases b.len(),
{
    assert(seq![r].drop_last() =~= Seq::<Seq<Seq<char>>>::empty());
    assert(seq![r].last() == r);
    assert(table_text(Seq::<Seq<Seq<char>>>::empty()) == Seq::<char>::empty());
    assert(table_text(seq![r]) =~= row_text(r) + "\n"@);
    if b.len() == 0 {
        assert(a + b =~= a);
        assert(table_text(a) + table_text(b) =~= table_text(a));
    } else {
        assert((a + b).drop_last() =~= a + b.drop_last());
        lemma_table_text_concat(a, b.drop_last(), r);
        assert(table_text(a + b) =~= table_text(a) + table_text(b));
    }
}

/// A cache file has one line per row: where no cell holds a newline, the
/// text holds exactly one newline per row, and the `i`-th line (the text
/// after `i` newlines, up to the next one) is row `i`'s cells joined by
/// tabs.
pub proof fn lemma_cache_text_lines(rows: Seq<Seq<Seq<char>>>)
    requires
        forall|i: int, j: int, k: int|
            0 <= i < rows.len() && 0 <= j < rows[i].len() && 0 <= k < rows[i][j].len()
                ==> rows[i][j][k] != '\n',
    ensures
        count_char(table_text(rows), '\n') == rows.len(),
        forall|i: int|
            0 <= i < rows.len() ==> exists|p: int|
                0 <= p && p + row_text(#[trigger] rows[i]).len() + 1 <= table_text(rows).len()
                    && table_text(rows).subrange(p, p + row_text(rows[i]).len() + 1)
                    == row_text(rows[i]).push('\n') && count_char(
                    table_text(rows).take(p),
                    '\n',
                ) == i && (p == 0 || table_text(rows)[p - 1] == '\n'),
    decreases rows.len(),
{
    reveal_strlit("\n");
    let t = table_text(rows);
    if rows.len() == 0 {
        return;
    }
    let d = rows.drop_last();
    let l = rows.last();
    assert forall|i: int, j: int, k: int|
        0 <= i < d.len() && 0 <= j < d[i].len() && 0 <= k < d[i][j].len() implies d[i][j][k] != '\n' by {
        assert(d[i] == rows[i]);
    }
    lemma_cache_text_lines(d);
    let td = table_text(d);
    assert(l == rows[rows.len() - 1]);
    lemma_row_text_no_newline(l);
    let line = row_text(l) + "\n"@;
    assert(t == td + line);
    assert("\n"@ =~= seq!['\n']);
    lemma_count_char_absent(row_text(l), '\n');
    lemma_count_char_concat(row_text(l), "\n"@, '\n');
    assert(count_char(seq!['\n'], '\n') == 1) by {
        assert(seq!['\n'].drop_last() =~= Seq::<char>::empty());
        assert(seq!['\n'].last() == '\n');
        assert(count_char(Seq::<char>::empty(), '\n') == 0);
    }
    lemma_count_char_concat(td, line, '\n');
    assert forall|i: int| 0 <= i < rows.len() implies exists|p: int|
        0 <= p && p + row_text(#[trigger] rows[i]).len() + 1 <= t.len() && t.subrange(
            p,
            p + row_text(rows[i]).len() + 1,
        ) == row_text(rows[i]).push('\n') && count_char(t.take(p), '\n') == i && (p == 0 || t[p
            - 1] == '\n') by {
        if i < d.len() {
            assert(d[i] == rows[i]);
            let p = choose|p: int|
                0 <= p && p + row_text(#[trigger] d[i]).len() + 1 <= td.len() && td.subrange(
                    p,
                    p + row_text(d[i]).len() + 1,
                ) == row_text(d[i]).push('\n') && count_char(td.take(p), '\n') == i && (p == 0
                    || td[p - 1] == '\n');
            assert(t.subrange(p, p + row_text(rows[i]).len() + 1) =~= td.subrange(
                p,
                p + row_text(d[i]).len() + 1,
            ));
            assert(t.take(p) =~= td.take(p));
            if p > 0 {
                assert(t[p - 1] == td[p - 1]);
            }
        } else {
            let p = td.len() as int;
            assert(t.subrange(p, p + row_text(rows[i]).len() + 1) =~= row_text(l).push('\n'));
            assert(t.take(p) =~= td);
            if p > 0 {
                assert(td.len() > 0);
                assert(td == table_text(d.drop_last()) + row_text(d.last()) + "\n"@);
                assert(t[p - 1] == td[p - 1]);
            }
        }
    }
}

/// The report of a build joins the reports of its parts in order, and
/// reports a single error on a line of its own, after a tab and
/// `In error: `.
pub proof fn lemma_report_text_concat(a: Seq<Seq<char>>, b: Seq<Seq<char>>, m: Seq<char>)
    ensures
        report_text(a + b) == report_text(a) + report_text(b),
        report_text(seq![m]) == "\n\tIn error: "@ + m,
    decreases b.len(),
{
    assert(seq![m].drop_last() =~= Seq::<Seq<char>>::empty());
    assert(seq![m].last() == m);
    assert(report_text(Seq::<Seq<char>>::empty()) == Seq::<char>::empty());
    assert(report_text(seq![m]) =~= "\n\tIn error: "@ + m);
    if b.len() == 0 {
        assert(a + b =~= a);
        assert(report_text(a) + report_text(b) =~= report_text(a));
    } else {
        assert((a + b).drop_last() =~= a + b.drop_last());
        lemma_report_text_concat(a, b.drop_last(), m);
        assert(report_text(a + b) =~= report_text(a) + report_text(b));
    }
}

/// The total length of the messages, each counted with its 12-character
/// introduction.
pub open spec fn reported_length(messages: Seq<Seq<char>>) -> nat
    decreases messages.len(),
{
    if messages.len() == 0 {
        0
    } else {
        reported_length(messages.drop_last()) + 12 + messages.last().len()
    }
}

/// The report holds every message, each introduced by `\n\tIn error: `,
/// and nothing else: its length is the sum over the messages of 12 plus
/// the message's length, and message `i` stands, with its introduction,
/// after the first `i` messages and theirs.
pub proof fn lemma_report_holds_every_message(messages: Seq<Seq<char>>)
    ensures
        report_text(messages).len() == reported_length(messages),
        forall|i: int|
            0 <= i < messages.len() ==> {
                let p = reported_length(messages.take(i)) as int;
                &&& p + 12 + (#[trigger] messages[i]).len() <= report_text(messages).len()
                &&& report_text(messages).subrange(p, p + 12 + messages[i].len())
                    == "\n\tIn error: "@ + messages[i]
            },
    decreases messages.len(),
{
    reveal_strlit("\n\tIn error: ");
    if messages.len() == 0 {
        return;
    }
    let d = messages.drop_last();
    lemma_report_holds_every_message(d);
    let t = report_text(messages);
    let td = report_text(d);
    assert forall|i: int| 0 <= i < messages.len() implies {
        let p = reported_length(messages.take(i)) as int;
        &&& p + 12 + (#[trigger] messages[i]).len() <= t.len()
        &&& t.subrange(p, p + 12 + messages[i].len()) == "\n\tIn error: "@ + messages[i]
    } by {
        if i < d.len() {
            assert(messages.take(i) =~= d.take(i));
            assert(d[i] == messages[i]);
            let p = reported_length(d.take(i)) as int;
            assert(t.subrange(p, p + 12 + messages[i].len()) =~= td.subrange(
                p,
                p + 12 + d[i].len(),
            ));
        } else {
            assert(messages.take(i) =~= d);
            assert(t.subrange(td.len() as int, t.len() as int) =~= "\n\tIn error: "@ + messages[i]);
        }
    }
}

fn row_line(cells: &Vec<String>) -> (line: String)
    ensures
        line@ == row_text(cells@.map_values(|c: String| c@)),
{
    let ghost v = cells@.map_values(|c: String| c@);
    let mut line = String::new();
    let mut i: usize = 0;
    while i < cells.len()
        invariant
            i <= cells.len(),
            v == cells@.map_values(|c: String| c@),
            line@ == row_text(v.take(i as int)),
        decreases cells.len() - i,
    {
        assert(v.take(i + 1).drop_last() =~= v.take(i as int));
        if i > 0 {
            line.append("\t");
        }
        line.append(cells[i].as_str());
        proof {
            if i == 0 {
                assert(line@ =~= row_text(v.take(1)));
            }
        }
        i += 1;
    }
    assert(v.take(cells.len() as int) =~= v);
    line
}

/// The text of a cache file holding `rows`: the cells of each row joined by
/// tabs, one line per row.
pub fn cache_text(rows: &Vec<Vec<String>>) -> (text: String)
    ensures
        text@ == table_text(table_view(rows@)),
        (forall|i: int, j: int, k: int|
            0 <= i < rows@.len() && 0 <= j < rows@[i]@.len() && 0 <= k < rows@[i]@[j]@.len()
                ==> rows@[i]@[j]@[k] != '\n') ==> count_char(text@, '\n') == rows@.len(),
{
    let ghost v = table_view(rows@);
    let mut text = String::new();
    let mut i: usize = 0;
    while i < rows.len()
        invariant
            i <= rows.len(),
            v == table_view(rows@),
            text@ == table_text(v.take(i as int)),
        decreases rows.len() - i,
    {
        assert(v.take(i + 1).drop_last() =~= v.take(i as int));
        let line = row_line(&rows[i]);
        text.append(line.as_str());
        text.append("\n");
        i += 1;
    }
    assert(v.take(rows.len() as int) =~= v);
    proof {
        if forall|i: int, j: int, k: int|
            0 <= i < rows@.len() && 0 <= j < rows@[i]@.len() && 0 <= k < rows@[i]@[j]@.len()
                ==> rows@[i]@[j]@[k] != '\n' {
            assert forall|i: int, j: int, k: int|
                0 <= i < v.len() && 0 <= j < v[i].len() && 0 <= k < v[i][j].len() implies v[i][j][k]
                != '\n' by {
                assert(v[i] == rows@[i]@.map_values(|c: String| c@));
                assert(v[i][j] == rows@[i]@[j]@);
            }
            lemma_cache_text_lines(v);
        }
    }
    text
}

/// The report of the errors of a build, as the cache builders give it when
/// any part of the build failed.
pub fn error_report(messages: &Vec<String>) -> (text: String)
    ensures
        text@ == report_text(messages@.map_values(|m: String| m@)),
        text@.len() == reported_length(messages@.map_values(|m: String| m@)),
{
    let ghost v = messages@.map_values(|m: String| m@);
    let mut text = String::new();
    let mut i: usize = 0;
    while i < messages.len()
        invariant
            i <= messages.len(),
            v == messages@.map_values(|m: String| m@),
            text@ == report_text(v.take(i as int)),
        decreases messages.len() - i,
    {
        assert(v.take(i + 1).drop_last() =~= v.take(i as int));
        text.append("\n\tIn error: ");
        text.append(messages[i].as_str());
        i += 1;
    }
    assert(v.take(messages.len() as int) =~= v);
    proof {
        lemma_report_holds_every_message(v);
    }
    text
}

/// What becomes of the file of one slice of a cache between frames.
pub enum FileAction {
    /// The slice holds no data: its file, named so, is removed.
    Remove(String),
    /// The slice's data is saved in the file named so.
    Save(String),
}

/// The files of the slices of a cache between frames, given the number of
/// rows of each slice: the file of slice `i` is named by `i` in decimal; it
/// is removed where the slice is empty and written otherwise.
pub fn slice_files(row_counts: &Vec<usize>) -> (actions: Vec<FileAction>)
    ensures
        actions@.len() == row_counts@.len(),
        forall|i: int|
            0 <= i < row_counts@.len() ==> match #[trigger] actions@[i] {
                FileAction::Remove(name) => row_counts@[i] == 0 && name@ == decimal_spec(i as nat),
                FileAction::Save(name) => row_counts@[i] != 0 && name@ == decimal_spec(i as nat),
            },
{
    let mut actions: Vec<FileAction> = Vec::new();
    let mut i: usize = 0;
    while i < row_counts.len()
        invariant
            i <= row_counts.len(),
            actions@.len() == i,
            forall|k: int|
                0 <= k < i ==> match #[trigger] actions@[k] {
                    FileAction::Remove(name) => row_counts@[k] == 0 && name@ == decimal_spec(
                        k as nat,
                    ),
                    FileAction::Save(name) => row_counts@[k] != 0 && name@ == decimal_spec(
                        k as nat,
                    ),
                },
        decreases row_counts.len() - i,
    {
        let name = decimal(i);
        if row_counts[i] == 0 {
            actions.push(FileAction::Remove(name));
        } else {
            actions.push(FileAction::Save(name));
        }
        i += 1;
    }
    actions
}

} // verus!
