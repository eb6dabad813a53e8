use dinocode::analysis::bytecode::{BytecodeInfo, FunctionInfo, InstructionInfo};
use dinocode::analysis::cfg::{find_leader, find_raw_successor, get_next_leader, CFGEdge};
use dinocode::analysis::helpers::get_source_range;

fn instr(ip: u32, line: u32) -> InstructionInfo {
    InstructionInfo {
        ip,
        opcode: 1,
        opcode_name: "NOP".to_string(),
        operand: 0,
        operand_description: String::new(),
        source_line: line,
        source_column: 1,
        end_ip_for_line: ip,
    }
}

fn sample() -> BytecodeInfo {
    BytecodeInfo {
        constants: Vec::new(),
        functions: vec![
            FunctionInfo { index: 0, param_count: 2, return_count: 1, start_ip: 3, end_ip: 7 },
            FunctionInfo { index: 1, param_count: 0, return_count: 0, start_ip: 7, end_ip: 9 },
        ],
        instructions: vec![instr(0, 1), instr(1, 2), instr(2, 1), instr(3, 3)],
        global_count: 0,
        instruction_count: 4,
    }
}

#[test]
fn instructions_at_line() {
    let info = sample();
    let at_one: Vec<u32> = info.get_instructions_at_line(1).iter().map(|i| i.ip).collect();
    assert_eq!(at_one, vec![0, 2]);
    assert!(info.get_instructions_at_line(9).is_empty());
}

#[test]
fn function_range() {
    let info = sample();
    assert_eq!(info.get_function_range(0), Some((3, 7)));
    assert_eq!(info.get_function_range(1), Some((7, 9)));
    assert_eq!(info.get_function_range(2), None);
}

#[test]
fn instruction_at() {
    let info = sample();
    assert_eq!(info.get_instruction_at(3).unwrap().source_line, 3);
    assert!(info.get_instruction_at(4).is_none());
}

#[test]
fn leaders() {
    let leaders = [0, 4, 9, 15];
    assert_eq!(find_leader(&leaders, 0), 0);
    assert_eq!(find_leader(&leaders, 5), 4);
    assert_eq!(find_leader(&leaders, 9), 9);
    assert_eq!(find_leader(&leaders, 100), 15);
    assert_eq!(find_leader(&[3, 8], 1), 0);
    assert_eq!(find_leader(&[], 1), 0);
    assert_eq!(get_next_leader(&leaders, 4), Some(9));
    assert_eq!(get_next_leader(&leaders, 3), Some(4));
    assert_eq!(get_next_leader(&leaders, 15), None);
}

#[test]
fn raw_successor() {
    let edges = vec![
        CFGEdge { from: 1, to: 2, label: String::new() },
        CFGEdge { from: 2, to: 5, label: "true".to_string() },
        CFGEdge { from: 2, to: 6, label: "false".to_string() },
    ];
    assert_eq!(find_raw_successor(2, &edges), Some(5));
    assert_eq!(find_raw_successor(1, &edges), Some(2));
    assert_eq!(find_raw_successor(7, &edges), None);
}

#[test]
fn source_range_cuts_first_and_last_line() {
    assert_eq!(get_source_range("a\nbc\ndef", 2, 1, 3, 2), "bc\nde");
    assert_eq!(get_source_range("let x = 1\nprint(x)", 1, 5, 1, 5), "x");
}

#[test]
fn source_range_of_no_lines_is_empty() {
    assert_eq!(get_source_range("abc", 0, 1, 1, 9999), "");
    assert_eq!(get_source_range("abc", 1, 1, 0, 9999), "");
    assert_eq!(get_source_range("a\nb", 2, 1, 1, 9999), "");
    assert_eq!(get_source_range("abc", 2, 1, 5, 9999), "");
    assert_eq!(get_source_range("abc", 1, 10, 1, 9999), "");
}

#[test]
fn source_range_trims_and_drops_carriage_returns() {
    assert_eq!(get_source_range("  hello  \n", 1, 1, 1, 9999), "hello");
    assert_eq!(get_source_range("x\r\ny\r\n", 1, 1, 2, 9999), "x\ny");
    assert_eq!(get_source_range("\n\n  if a:\n", 1, 1, 9, 9999), "if a:");
}

#[test]
fn source_range_counts_columns_in_bytes() {
    assert_eq!(get_source_range("h\u{e9}llo", 1, 1, 1, 3), "h\u{e9}");
    assert_eq!(get_source_range("h\u{e9}llo", 1, 2, 1, 9999), "\u{e9}llo");
}
