use pipelines_rs::dsl::{parse_command, parse_commands};
use pipelines_rs::{execute_pipeline, Command};

#[test]
fn test_parse_filter_eq() {
    let cmd = parse_command("FILTER 18,10 = \"SALES\"").unwrap();
    match cmd {
        Command::FilterEq { pos, len, value } => {
            assert_eq!(pos, 18);
            assert_eq!(len, 10);
            assert_eq!(value, "SALES");
        }
        _ => panic!("Expected FilterEq"),
    }
}

#[test]
fn test_parse_filter_ne() {
    let cmd = parse_command("FILTER 18,10 != \"SALES\"").unwrap();
    match cmd {
        Command::FilterNe { pos, len, value } => {
            assert_eq!(pos, 18);
            assert_eq!(len, 10);
            assert_eq!(value, "SALES");
        }
        _ => panic!("Expected FilterNe"),
    }
}

#[test]
fn test_parse_select() {
    let cmd = parse_command("SELECT 0,8,0; 28,8,8").unwrap();
    match cmd {
        Command::Select { fields } => {
            assert_eq!(fields.len(), 2);
            assert_eq!(fields[0], (0, 8, 0));
            assert_eq!(fields[1], (28, 8, 8));
        }
        _ => panic!("Expected Select"),
    }
}

#[test]
fn test_parse_take() {
    let cmd = parse_command("TAKE 5").unwrap();
    match cmd {
        Command::Take { n } => assert_eq!(n, 5),
        _ => panic!("Expected Take"),
    }
}

#[test]
fn test_execute_pipeline() {
    let input = "SMITH   JOHN      SALES     00050000\nJONES   MARY      ENGINEER  00075000";
    let pipeline = "FILTER 18,10 = \"SALES\"";

    let (output, input_count, output_count) = execute_pipeline(input, pipeline).unwrap();

    assert_eq!(input_count, 2);
    assert_eq!(output_count, 1);
    assert!(output.contains("SMITH"));
    assert!(!output.contains("JONES"));
}

#[test]
fn test_parse_skip_command() {
    let cmd = parse_command("SKIP 3").unwrap();
    match cmd {
        Command::Skip { n } => assert_eq!(n, 3),
        _ => panic!("Expected Skip"),
    }
}

#[test]
fn test_parse_full_pipeline_text() {
    let text = "# employees by department\nPIPE FILTER 18,10 = \"SALES\"\n   | SELECT 0,8,0; 28,8,8\n   | TAKE 10?";
    let cmds = parse_commands(text).unwrap();
    assert_eq!(cmds.len(), 3);
    assert!(matches!(cmds[0], Command::FilterEq { .. }));
    assert!(matches!(cmds[1], Command::Select { .. }));
    assert!(matches!(cmds[2], Command::Take { n: 10 }));
}

#[test]
fn test_parse_filter_missing_operator() {
    let err = parse_command("FILTER 18,10 \"SALES\"").unwrap_err();
    assert_eq!(err, "FILTER requires = or != operator");
}

#[test]
fn test_parse_filter_bad_field_spec() {
    let err = parse_command("FILTER 18 = \"SALES\"").unwrap_err();
    assert_eq!(err, "FILTER requires pos,len before operator");
    let err2 = parse_command("FILTER x,10 = \"SALES\"").unwrap_err();
    assert_eq!(err2, "Invalid position number");
    let err3 = parse_command("FILTER 18,y = \"SALES\"").unwrap_err();
    assert_eq!(err3, "Invalid length number");
}

#[test]
fn test_parse_filter_unquoted_value() {
    let err = parse_command("FILTER 18,10 = SALES").unwrap_err();
    assert_eq!(err, "Value must be quoted: SALES");
}

#[test]
fn test_parse_select_errors() {
    let err = parse_command("SELECT 0,8").unwrap_err();
    assert_eq!(err, "SELECT field '0,8' requires src_pos,len,dest_pos");
    let err2 = parse_command("SELECT ; ;").unwrap_err();
    assert_eq!(err2, "SELECT requires at least one field specification");
    let err3 = parse_command("SELECT a,8,0").unwrap_err();
    assert_eq!(err3, "Invalid source position in 'a,8,0'");
}

#[test]
fn test_parse_take_requires_number() {
    let err = parse_command("TAKE many").unwrap_err();
    assert_eq!(err, "TAKE requires a number");
    let err2 = parse_command("SKIP -1").unwrap_err();
    assert_eq!(err2, "SKIP requires a number");
}

#[test]
fn test_parse_unknown_command() {
    let err = parse_command("SORT 0,8").unwrap_err();
    assert_eq!(err, "Unknown command: SORT");
}

#[test]
fn test_parse_error_reports_line_number() {
    let text = "PIPE FILTER 18,10 = \"SALES\"\n   | BOGUS 1";
    let err = parse_commands(text).unwrap_err();
    assert_eq!(err, "Line 2: Unknown command: BOGUS");
}

#[test]
fn test_execute_pipeline_error_propagates() {
    let input = "SMITH   JOHN      SALES     00050000";
    let err = execute_pipeline(input, "FILTER 18,10").unwrap_err();
    assert_eq!(err, "Line 1: FILTER requires = or != operator");
}

#[test]
fn test_execute_pipeline_output_trimmed_and_joined() {
    let input = "AAA\nBBB\n\nCCC\n";
    let (output, input_count, output_count) = execute_pipeline(input, "TAKE 2").unwrap();
    assert_eq!(input_count, 3);
    assert_eq!(output_count, 2);
    assert_eq!(output, "AAA\nBBB");
}

#[test]
fn test_case_insensitive_keywords() {
    let cmd = parse_command("take 5").unwrap();
    assert!(matches!(cmd, Command::Take { n: 5 }));
    let cmds = parse_commands("pipe\nfilter 18,10 = \"SALES\"").unwrap();
    assert_eq!(cmds.len(), 1);
    assert!(matches!(cmds[0], Command::FilterEq { .. }));
}

#[test]
fn test_crlf_line_endings() {
    let cmds = parse_commands("TAKE 1\r\nSKIP 0\r\n").unwrap();
    assert_eq!(cmds.len(), 2);
    assert!(matches!(cmds[0], Command::Take { n: 1 }));
    assert!(matches!(cmds[1], Command::Skip { n: 0 }));
}

#[test]
fn test_number_overflow_rejected() {
    let err = parse_command("TAKE 99999999999999999999999999").unwrap_err();
    assert_eq!(err, "TAKE requires a number");
    let cmd = parse_command("TAKE +7").unwrap();
    assert!(matches!(cmd, Command::Take { n: 7 }));
}
