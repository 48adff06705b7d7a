use uniqr::Config;
use uniqr::Engine;
use uniqr::Record;
use uniqr::render_record;
use uniqr::run;

fn byte_lines(strs: &[&str]) -> Vec<Vec<u8>> {
    strs.iter().map(|s| s.as_bytes().to_vec()).collect()
}

fn config(count: bool) -> Config {
    Config { in_file: "-".to_string(), out_file: None, count }
}

#[test]
fn empty_input_empty_output() {
    let out = run(&config(false), &byte_lines(&[]));
    assert_eq!(out, byte_lines(&[]));
    let out = run(&config(true), &byte_lines(&[]));
    assert_eq!(out, byte_lines(&[]));
}

#[test]
fn single_line() {
    let out = run(&config(false), &byte_lines(&["a\n"]));
    assert_eq!(out, byte_lines(&["a\n"]));
    let out = run(&config(true), &byte_lines(&["a\n"]));
    assert_eq!(out, byte_lines(&["   1 a\n"]));
}

#[test]
fn three_runs_non_counting() {
    let input = byte_lines(&["a\n", "a\n", "b\n", "b\n", "b\n", "a\n"]);
    let out = run(&config(false), &input);
    assert_eq!(out, byte_lines(&["a\n", "b\n", "a\n"]));
}

#[test]
fn three_runs_counting() {
    let input = byte_lines(&["a\n", "a\n", "b\n", "b\n", "b\n", "a\n"]);
    let out = run(&config(true), &input);
    assert_eq!(out, byte_lines(&["   2 a\n", "   3 b\n", "   1 a\n"]));
}

#[test]
fn missing_terminator_with_trailing_space_is_distinct() {
    let input = byte_lines(&["x\n", "x "]);
    let out = run(&config(false), &input);
    assert_eq!(out, byte_lines(&["x\n", "x "]));
    let out = run(&config(true), &input);
    assert_eq!(out, byte_lines(&["   1 x\n", "   1 x "]));
}

#[test]
fn missing_terminator_alone_still_matches() {
    let input = byte_lines(&["x\n", "x"]);
    let out = run(&config(true), &input);
    assert_eq!(out, byte_lines(&["   2 x\n"]));
}

#[test]
fn trailing_space_is_distinct() {
    let input = byte_lines(&["a\n", "a \n"]);
    let out = run(&config(false), &input);
    assert_eq!(out, byte_lines(&["a\n", "a \n"]));
}

#[test]
fn carriage_return_is_stripped_for_comparison() {
    let input = byte_lines(&["a\r\n", "a\n"]);
    let out = run(&config(false), &input);
    assert_eq!(out, byte_lines(&["a\r\n"]));
}

#[test]
fn all_identical_lines_collapse_to_one() {
    let input = byte_lines(&["b\n", "b\n", "b\n"]);
    let out = run(&config(true), &input);
    assert_eq!(out, byte_lines(&["   3 b\n"]));
}

#[test]
fn non_counting_output_is_idempotent() {
    let input = byte_lines(&["a\n", "a\n", "b\n", "b\n", "b\n", "a\n", "c", "a\n"]);
    let once = run(&config(false), &input);
    let twice = run(&config(false), &once);
    assert_eq!(twice, once);
}

#[test]
fn counts_sum_to_input_length() {
    let input = byte_lines(&["a\n", "a\n", "b\n", "c\n", "c\n", "c\n"]);
    let out = run(&config(true), &input);
    let total: u64 = out
        .iter()
        .map(|rec| {
            let text = String::from_utf8(rec.clone()).unwrap();
            text[..4].trim_start().parse::<u64>().unwrap()
        })
        .sum();
    assert_eq!(total, input.len() as u64);
}

#[test]
fn count_field_is_right_aligned_minimum_width_four() {
    let rec = Record { line: b"x\n".to_vec(), count: 1 };
    assert_eq!(render_record(&rec, true), b"   1 x\n".to_vec());
    let rec = Record { line: b"x\n".to_vec(), count: 999 };
    assert_eq!(render_record(&rec, true), b" 999 x\n".to_vec());
    let rec = Record { line: b"x\n".to_vec(), count: 9999 };
    assert_eq!(render_record(&rec, true), b"9999 x\n".to_vec());
    let rec = Record { line: b"x\n".to_vec(), count: 12345 };
    assert_eq!(render_record(&rec, true), b"12345 x\n".to_vec());
}

#[test]
fn render_without_counting_is_verbatim() {
    let rec = Record { line: b"hello \r\n".to_vec(), count: 7 };
    assert_eq!(render_record(&rec, false), b"hello \r\n".to_vec());
}

#[test]
fn first_line_with_empty_key_opens_a_run() {
    let mut engine = Engine::new();
    assert!(engine.push(b"\n".to_vec()).is_none());
    assert!(engine.push(b"\n".to_vec()).is_none());
    let closed = engine.finish().unwrap();
    assert_eq!(closed.line, b"\n".to_vec());
    assert_eq!(closed.count, 2);
}

#[test]
fn engine_flushes_on_key_change() {
    let mut engine = Engine::new();
    assert!(engine.push(b"a\n".to_vec()).is_none());
    assert!(engine.push(b"a\n".to_vec()).is_none());
    let flushed = engine.push(b"b\n".to_vec()).unwrap();
    assert_eq!(flushed.line, b"a\n".to_vec());
    assert_eq!(flushed.count, 2);
    let closed = engine.finish().unwrap();
    assert_eq!(closed.line, b"b\n".to_vec());
    assert_eq!(closed.count, 1);
}

#[test]
fn finish_on_fresh_engine_is_empty() {
    let engine = Engine::new();
    assert!(engine.finish().is_none());
}

#[test]
fn empty_lines_group_together() {
    let input = byte_lines(&["\n", "\n", "a\n", "\n"]);
    let out = run(&config(true), &input);
    assert_eq!(out, byte_lines(&["   2 \n", "   1 a\n", "   1 \n"]));
}
