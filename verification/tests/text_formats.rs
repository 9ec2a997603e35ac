use ship_cache::cache_file::{cache_text, error_report, slice_files, FileAction};
use ship_cache::query::{compartments_max_query, frames_query};
use ship_cache::text::decimal;

fn strings(cells: &[&str]) -> Vec<String> {
    cells.iter().map(|c| c.to_string()).collect()
}

#[test]
fn decimal_small_and_large() {
    assert_eq!(decimal(0), "0");
    assert_eq!(decimal(7), "7");
    assert_eq!(decimal(10), "10");
    assert_eq!(decimal(1234567), "1234567");
    assert_eq!(decimal(usize::MAX), format!("{}", usize::MAX));
}

#[test]
fn decimal_matches_format_for_many_values() {
    for n in (0..5000usize).chain([99_999, 100_000, 4_294_967_296]) {
        assert_eq!(decimal(n), format!("{}", n));
    }
}

#[test]
fn table_writes_rows_as_tab_separated_lines() {
    let rows = vec![strings(&["0", "1.5", "-2"]), strings(&["3", "4", "5"])];
    assert_eq!(cache_text(&rows), "0\t1.5\t-2\n3\t4\t5\n");
}

#[test]
fn table_of_cache_values_matches_line_by_line_writing() {
    let vals: Vec<Vec<f64>> = vec![vec![0.5, 12.25], vec![-1.0, 3.0], vec![]];
    let rows: Vec<Vec<String>> = vals
        .iter()
        .map(|r| r.iter().map(ToString::to_string).collect())
        .collect();
    let mut expected = String::new();
    for r in &vals {
        let cells: Vec<String> = r.iter().map(ToString::to_string).collect();
        expected.push_str(&cells.join("\t"));
        expected.push('\n');
    }
    assert_eq!(cache_text(&rows), expected);
    assert_eq!(cache_text(&rows), "0.5\t12.25\n-1\t3\n\n");
}

#[test]
fn table_of_nothing_is_empty() {
    assert_eq!(cache_text(&Vec::new()), "");
}

#[test]
fn error_report_lists_every_error() {
    let messages = strings(&["no aabb for draught:1.5", "task join"]);
    assert_eq!(
        error_report(&messages),
        "\n\tIn error: no aabb for draught:1.5\n\tIn error: task join"
    );
    assert_eq!(error_report(&Vec::new()), "");
}

#[test]
fn slice_files_remove_empty_slices_and_save_the_others() {
    let actions = slice_files(&vec![0, 3, 0, 1, 0, 0, 0, 0, 0, 0, 2]);
    assert_eq!(actions.len(), 11);
    let described: Vec<(bool, String)> = actions
        .into_iter()
        .map(|a| match a {
            FileAction::Remove(name) => (false, name),
            FileAction::Save(name) => (true, name),
        })
        .collect();
    assert_eq!(described[0], (false, "0".to_string()));
    assert_eq!(described[1], (true, "1".to_string()));
    assert_eq!(described[2], (false, "2".to_string()));
    assert_eq!(described[3], (true, "3".to_string()));
    assert_eq!(described[10], (true, "10".to_string()));
}

#[test]
fn frames_query_puts_in_the_ids() {
    assert_eq!(
        frames_query("7", "NULL"),
        "SELECT pos_x, frame_index as index FROM physical_frame WHERE ship_id=7 AND project_id IS NOT DISTINCT FROM NULL ORDER BY index ASC;"
    );
}

#[test]
fn compartments_max_query_puts_in_the_ids() {
    let expected = format!(
        "SELECT
                    s.code as code, \
                    c.level_max as level_max,
                    c.volume_max as volume_max
                FROM
                    \"space\" AS s 
                INNER JOIN 
                    \"space/compartment\" AS c ON s.compartment_id = c.id 
                WHERE ship_id={} AND project_id IS NOT DISTINCT FROM {};",
        "1", "2"
    );
    assert_eq!(compartments_max_query("1", "2"), expected);
}

#[test]
fn slice_files_have_distinct_names() {
    let actions = slice_files(&vec![1; 1000]);
    let mut names: Vec<String> = actions
        .into_iter()
        .map(|a| match a {
            FileAction::Remove(name) | FileAction::Save(name) => name,
        })
        .collect();
    names.sort();
    names.dedup();
    assert_eq!(names.len(), 1000);
}
