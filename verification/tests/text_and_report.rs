use asmdiff::differ::{
    align_script, compare, is_script, line_diff, same_lines, script_sides, trim_lines, trim_script,
    CompareError,
};
use asmdiff::model::{AlignedRow, SyncError, TaggedOp};
use asmdiff::present::{current_width, render, render_header, render_row};
use asmdiff::text::{common_prefix, join_lines, trim};

fn lines(texts: &[&str]) -> Vec<String> {
    texts.iter().map(|t| t.to_string()).collect()
}

fn pair(current: &str, target: &str) -> AlignedRow {
    AlignedRow { current: Some(current.to_string()), target: Some(target.to_string()) }
}

#[test]
fn common_prefix_counts_shared_characters() {
    assert_eq!(common_prefix("add r1, r2", "add r1, r3"), 9);
    assert_eq!(common_prefix("add", "add"), 3);
    assert_eq!(common_prefix("add", "addiu"), 3);
    assert_eq!(common_prefix("", "add"), 0);
    assert_eq!(common_prefix("sub", "add"), 0);
}

#[test]
fn common_prefix_counts_characters_not_bytes() {
    assert_eq!(common_prefix("résumé", "résister"), 3);
    assert_eq!(common_prefix("éé", "éé"), 2);
}

#[test]
fn common_prefix_is_symmetric() {
    assert_eq!(common_prefix("lw r1, 4(r2)", "lw r1, 8(r2)"), 7);
    assert_eq!(common_prefix("lw r1, 8(r2)", "lw r1, 4(r2)"), 7);
}

#[test]
fn trim_removes_surrounding_white_space() {
    assert_eq!(trim("  ret \n"), "ret");
    assert_eq!(trim("nop \n"), "nop");
    assert_eq!(trim("add r0, r1"), "add r0, r1");
    assert_eq!(trim(" \t\r\n"), "");
    assert_eq!(trim(""), "");
    assert_eq!(trim("\u{a0}mov r0, 1\u{2003}"), "mov r0, 1");
}

#[test]
fn join_lines_ends_each_line_with_a_line_feed() {
    assert_eq!(join_lines(&lines(&[])), "");
    assert_eq!(join_lines(&lines(&["nop"])), "nop\n");
    assert_eq!(
        join_lines(&lines(&["mov r0, 1", "add r0, r1", "ret"])),
        "mov r0, 1\nadd r0, r1\nret\n"
    );
}

#[test]
fn trim_script_keeps_tags_and_order() {
    let ops = vec![
        TaggedOp::Equal("mov r0, 1\n".to_string()),
        TaggedOp::Delete("add r0, r1 \n".to_string()),
        TaggedOp::Insert("  ret".to_string()),
    ];
    assert_eq!(
        trim_script(&ops),
        vec![
            TaggedOp::Equal("mov r0, 1".to_string()),
            TaggedOp::Delete("add r0, r1".to_string()),
            TaggedOp::Insert("ret".to_string()),
        ]
    );
}

#[test]
fn line_diff_of_one_deleted_line() {
    let current = lines(&["mov r0, 1", "add r0, r1", "ret"]);
    let target = lines(&["mov r0, 1", "ret"]);
    assert_eq!(
        line_diff(&current, &target),
        vec![
            TaggedOp::Equal("mov r0, 1".to_string()),
            TaggedOp::Delete("add r0, r1".to_string()),
            TaggedOp::Equal("ret".to_string()),
        ]
    );
}

#[test]
fn line_diff_of_equal_streams_is_all_equal() {
    let stream = lines(&["nop", "jr ra", "nop"]);
    assert_eq!(
        line_diff(&stream, &stream),
        vec![
            TaggedOp::Equal("nop".to_string()),
            TaggedOp::Equal("jr ra".to_string()),
            TaggedOp::Equal("nop".to_string()),
        ]
    );
}

#[test]
fn line_diff_compares_trimmed_lines() {
    assert_eq!(
        line_diff(&lines(&["nop ", "ret"]), &lines(&[" nop", "ret "])),
        vec![TaggedOp::Equal("nop".to_string()), TaggedOp::Equal("ret".to_string())]
    );
}

#[test]
fn line_diff_treats_the_last_line_like_any_other() {
    assert_eq!(
        line_diff(&lines(&["lui r1, 1", "jr ra"]), &lines(&["jr ra", "nop"])),
        vec![
            TaggedOp::Delete("lui r1, 1".to_string()),
            TaggedOp::Equal("jr ra".to_string()),
            TaggedOp::Insert("nop".to_string()),
        ]
    );
}

#[test]
fn line_diff_against_empty_stream() {
    let stream = lines(&["nop", "ret"]);
    assert_eq!(
        line_diff(&stream, &lines(&[])),
        vec![TaggedOp::Delete("nop".to_string()), TaggedOp::Delete("ret".to_string())]
    );
    assert_eq!(
        line_diff(&lines(&[]), &stream),
        vec![TaggedOp::Insert("nop".to_string()), TaggedOp::Insert("ret".to_string())]
    );
}

#[test]
fn end_to_end_one_instruction_deleted() {
    let current = lines(&["mov r0, 1", "add r0, r1", "ret"]);
    let target = lines(&["mov r0, 1", "ret"]);
    let rows = compare(&current, &target).unwrap();
    assert_eq!(
        rows,
        vec![
            pair("mov r0, 1", "mov r0, 1"),
            AlignedRow { current: Some("add r0, r1".to_string()), target: None },
            pair("ret", "ret"),
        ]
    );
    let report = render(&rows);
    assert_eq!(
        report,
        vec![
            "current:   | target:".to_string(),
            "mov r0, 1  | mov r0, 1".to_string(),
            "add r0, r1 |            <===========".to_string(),
            "ret        | ret".to_string(),
        ]
    );
}

#[test]
fn compare_pairs_slightly_changed_lines() {
    let current = lines(&["lui r1, 1", "add r1, r2", "sub r3, r4", "jr ra"]);
    let target = lines(&["lui r1, 1", "add r1, r3", "sub r3, r5", "jr ra"]);
    let rows = compare(&current, &target).unwrap();
    assert_eq!(
        rows,
        vec![
            pair("lui r1, 1", "lui r1, 1"),
            pair("add r1, r2", "add r1, r3"),
            pair("sub r3, r4", "sub r3, r5"),
            pair("jr ra", "jr ra"),
        ]
    );
}

#[test]
fn compare_conserves_both_streams() {
    let current = lines(&["lui r1, 1", "nop", "add r1, r2", "jr ra"]);
    let target = lines(&["nop", "sw r1, 0(r2)", "add r1, r3", "jr ra", "nop"]);
    let rows = compare(&current, &target).unwrap();
    let left: Vec<String> = rows.iter().filter_map(|r| r.current.clone()).collect();
    let right: Vec<String> = rows.iter().filter_map(|r| r.target.clone()).collect();
    assert_eq!(left, current);
    assert_eq!(right, target);
}

#[test]
fn current_width_is_longest_current_cell() {
    assert_eq!(current_width(&vec![]), 0);
    let rows = vec![
        pair("nop", "a much longer target cell"),
        AlignedRow { current: None, target: Some("ret".to_string()) },
        pair("add r0, r1", "x"),
    ];
    assert_eq!(current_width(&rows), 10);
}

#[test]
fn header_is_padded_to_width() {
    assert_eq!(render_header(12), "current:     | target:");
    assert_eq!(render_header(8), "current: | target:");
    assert_eq!(render_header(3), "current: | target:");
}

#[test]
fn equal_row_has_no_marker() {
    assert_eq!(render_row(&pair("ret", "ret"), 5), "ret   | ret");
}

#[test]
fn differing_row_is_marked() {
    assert_eq!(
        render_row(&pair("add r1, r2", "add r1, r3"), 10),
        "add r1, r2 | add r1, r3 <==========="
    );
    assert_eq!(render_row(&pair("nop", "ret"), 5), "nop   | ret   <===========");
}

#[test]
fn blank_cells_keep_their_width() {
    let row = AlignedRow { current: None, target: Some("nop".to_string()) };
    assert_eq!(render_row(&row, 4), "     | nop  <===========");
    let row = AlignedRow { current: Some("nop".to_string()), target: None };
    assert_eq!(render_row(&row, 4), "nop  |      <===========");
    let row = AlignedRow { current: None, target: None };
    assert_eq!(render_row(&row, 4), "     | ");
}

#[test]
fn long_target_cell_gets_no_gap() {
    assert_eq!(render_row(&pair("nop", "add r1, r2"), 3), "nop | add r1, r2<===========");
}

#[test]
fn report_of_no_rows_is_the_header() {
    assert_eq!(render(&vec![]), vec!["current: | target:".to_string()]);
}

#[test]
fn compare_holds_trimmed_lines() {
    let current = lines(&["nop ", "  add r0, r1", "ret "]);
    let target = lines(&["nop ", "ret "]);
    let rows = compare(&current, &target).unwrap();
    assert_eq!(
        rows,
        vec![
            pair("nop", "nop"),
            AlignedRow { current: Some("add r0, r1".to_string()), target: None },
            pair("ret", "ret"),
        ]
    );
}

#[test]
fn compare_of_empty_streams_is_empty() {
    assert_eq!(compare(&lines(&[]), &lines(&[])), Ok(vec![]));
}

#[test]
fn compare_against_empty_stream_drains_one_side() {
    let rows = compare(&lines(&[]), &lines(&["nop", "nop"])).unwrap();
    assert_eq!(
        rows,
        vec![
            AlignedRow { current: None, target: Some("nop".to_string()) },
            AlignedRow { current: None, target: Some("nop".to_string()) },
        ]
    );
}

#[test]
fn trim_lines_trims_each_line() {
    assert_eq!(trim_lines(&lines(&["nop ", " ret", "jr ra"])), lines(&["nop", "ret", "jr ra"]));
    assert_eq!(trim_lines(&lines(&[])), lines(&[]));
}

#[test]
fn same_lines_compares_text_and_order() {
    assert!(same_lines(&lines(&["a", "b"]), &lines(&["a", "b"])));
    assert!(same_lines(&lines(&[]), &lines(&[])));
    assert!(!same_lines(&lines(&["a", "b"]), &lines(&["b", "a"])));
    assert!(!same_lines(&lines(&["a"]), &lines(&["a", "b"])));
    assert!(!same_lines(&lines(&["a", "b"]), &lines(&["a", "c"])));
}

#[test]
fn script_sides_split_a_script() {
    let ops = vec![
        TaggedOp::Equal("mov r0, 1".to_string()),
        TaggedOp::Delete("add r0, r1".to_string()),
        TaggedOp::Insert("sub r0, r1".to_string()),
        TaggedOp::Equal("ret".to_string()),
    ];
    assert_eq!(
        script_sides(&ops),
        (lines(&["mov r0, 1", "add r0, r1", "ret"]), lines(&["mov r0, 1", "sub r0, r1", "ret"]))
    );
    assert_eq!(script_sides(&vec![]), (lines(&[]), lines(&[])));
}

#[test]
fn is_script_holds_a_script_against_its_streams() {
    let ops = vec![
        TaggedOp::Equal("mov r0, 1".to_string()),
        TaggedOp::Delete("add r0, r1".to_string()),
        TaggedOp::Equal("ret".to_string()),
    ];
    let current = lines(&["mov r0, 1", "add r0, r1", "ret"]);
    let target = lines(&["mov r0, 1", "ret"]);
    assert!(is_script(&ops, &current, &target));
    assert!(!is_script(&ops, &target, &current));
    assert!(!is_script(&ops, &current, &lines(&["mov r0, 1"])));
}

#[test]
fn align_script_refuses_a_script_of_other_streams() {
    let ops = vec![TaggedOp::Equal("nop".to_string()), TaggedOp::Delete("ret".to_string())];
    assert_eq!(
        align_script(&ops, &lines(&["nop"]), &lines(&["nop"])),
        Err(CompareError::InvalidScript)
    );
}

#[test]
fn align_script_aligns_a_valid_script() {
    let ops = vec![TaggedOp::Equal("nop".to_string()), TaggedOp::Delete("ret".to_string())];
    assert_eq!(
        align_script(&ops, &lines(&["nop", "ret"]), &lines(&["nop"])),
        Ok(vec![pair("nop", "nop"), AlignedRow { current: Some("ret".to_string()), target: None }])
    );
}

#[test]
fn align_script_passes_on_a_failed_realignment() {
    let ops = vec![
        TaggedOp::Delete("add a".to_string()),
        TaggedOp::Delete("sub b".to_string()),
        TaggedOp::Insert("sub c".to_string()),
        TaggedOp::Insert("xxx".to_string()),
        TaggedOp::Insert("add d".to_string()),
    ];
    assert_eq!(
        align_script(&ops, &lines(&["add a", "sub b"]), &lines(&["sub c", "xxx", "add d"])),
        Err(CompareError::Sync(SyncError::OffsetDisagreement))
    );
}

#[test]
fn compare_passes_on_a_failed_realignment() {
    let current = lines(&["add a", "sub b"]);
    let target = lines(&["sub c", "xxx", "add d"]);
    assert_eq!(compare(&current, &target), Err(CompareError::Sync(SyncError::OffsetDisagreement)));
}
