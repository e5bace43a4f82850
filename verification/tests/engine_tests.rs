use pipelines_rs::{
    compile, execute_pipeline, execute_pipeline_rat, rat_start, run_batch, Command, ExecPhase,
    PipelineError, Record, StepResult,
};

fn two_employees() -> Vec<Record> {
    vec![
        Record::from_str("SMITH   JOHN      SALES     00050000"),
        Record::from_str("JONES   MARY      ENGINEER  00075000"),
    ]
}

fn filter_select_commands() -> Vec<Command> {
    vec![
        Command::FilterEq {
            pos: 18,
            len: 10,
            value: "SALES".to_string(),
        },
        Command::Select {
            fields: vec![(0, 8, 0), (28, 8, 8)],
        },
    ]
}

#[test]
fn test_concrete_scenario_batch() {
    // Two employee records through FILTER 18,10 = "SALES" then
    // SELECT 0,8,0; 28,8,8: one output record, name then salary.
    let pipeline = compile(&filter_select_commands());
    let output = run_batch(&pipeline, two_employees());

    assert_eq!(output.len(), 1);
    assert_eq!(output[0].field(0, 8).trim(), "SMITH");
    assert_eq!(output[0].field(8, 8), "00050000");
}

#[test]
fn test_concrete_scenario_rat_trace() {
    // The same scenario stepped record by record: record 1's final pipe
    // point holds the selected record, record 2's final pipe point is
    // empty.
    let pipeline = compile(&filter_select_commands());
    let mut exec = rat_start(&pipeline, two_employees());

    assert_eq!(exec.phase(), ExecPhase::NotStarted);
    assert_eq!(exec.total_steps(), 2);

    let step1 = exec.step();
    match step1 {
        StepResult::Record(tr) => {
            assert_eq!(tr.pipe_points.len(), 3);
            assert_eq!(tr.pipe_points[2].len(), 1);
            assert_eq!(tr.pipe_points[2][0].field(0, 8).trim(), "SMITH");
            assert_eq!(tr.pipe_points[2][0].field(8, 8), "00050000");
        }
        _ => panic!("expected a record trace"),
    }
    assert_eq!(exec.phase(), ExecPhase::ConsumingInput);
    assert_eq!(exec.current_step(), 1);

    let step2 = exec.step();
    match step2 {
        StepResult::Record(tr) => {
            assert_eq!(tr.pipe_points.len(), 3);
            assert_eq!(tr.pipe_points[1].len(), 0);
            assert_eq!(tr.pipe_points[2].len(), 0);
        }
        _ => panic!("expected a record trace"),
    }
    assert_eq!(exec.phase(), ExecPhase::Done);

    let step3 = exec.step();
    assert!(matches!(step3, StepResult::Finished));

    let outputs = exec.outputs();
    assert_eq!(outputs.len(), 1);
    assert_eq!(outputs[0].field(0, 8).trim(), "SMITH");
}

#[test]
fn test_batch_rat_same_output() {
    // The two executors produce byte-for-byte the same output.
    let input = "SMITH   JOHN      SALES     00050000\nJONES   MARY      ENGINEER  00075000\nDOE     JANE      SALES     00060000";
    let pipeline = "PIPE FILTER 18,10 = \"SALES\"\n   | SELECT 0,8,0; 28,8,8?";

    let batch = execute_pipeline(input, pipeline).unwrap();
    let rat = execute_pipeline_rat(input, pipeline).unwrap();

    assert_eq!(batch, rat);
    assert_eq!(batch.1, 3);
    assert_eq!(batch.2, 2);
}

#[test]
fn test_take_skip_boundary() {
    // SKIP 1 then TAKE 1 over a 3-record input yields exactly the second
    // record, via batch and via full record-at-a-time stepping.
    let records = vec![
        Record::from_str("ONE"),
        Record::from_str("TWO"),
        Record::from_str("THREE"),
    ];
    let commands = vec![Command::Skip { n: 1 }, Command::Take { n: 1 }];
    let pipeline = compile(&commands);

    let batch_out = run_batch(&pipeline, records.clone());
    assert_eq!(batch_out.len(), 1);
    assert!(batch_out[0].field_eq(0, 8, "TWO"));

    let mut exec = rat_start(&pipeline, records);
    let mut rat_out: Vec<Record> = Vec::new();
    loop {
        match exec.step() {
            StepResult::Record(tr) => {
                for r in &tr.pipe_points[tr.pipe_points.len() - 1] {
                    rat_out.push(r.clone());
                }
            }
            StepResult::Flush(ft) => {
                for r in &ft.pipe_points[ft.pipe_points.len() - 1] {
                    rat_out.push(r.clone());
                }
            }
            StepResult::Finished => break,
        }
    }
    assert_eq!(rat_out.len(), 1);
    assert!(rat_out[0].field_eq(0, 8, "TWO"));
}

#[test]
fn test_step_accounting() {
    // Total steps for M input records through non-buffering stages is
    // exactly M: M record traces, zero flush traces.
    let records = vec![
        Record::from_str("A"),
        Record::from_str("B"),
        Record::from_str("C"),
        Record::from_str("D"),
    ];
    let commands = vec![Command::FilterNe {
        pos: 0,
        len: 1,
        value: "B".to_string(),
    }];
    let pipeline = compile(&commands);
    let mut exec = rat_start(&pipeline, records);

    let mut steps = 0;
    loop {
        match exec.step() {
            StepResult::Finished => break,
            _ => steps += 1,
        }
    }
    assert_eq!(steps, 4);
    let trace = exec.trace();
    assert_eq!(trace.record_traces.len(), 4);
    assert_eq!(trace.flush_traces.len(), 0);
    assert_eq!(trace.stage_names.len(), 1);
    assert_eq!(trace.stage_names[0], "FILTER");
}

#[test]
fn test_pipe_point_count() {
    // Every record trace of an N-stage pipeline has N+1 pipe points.
    let records = vec![Record::from_str("ONE"), Record::from_str("TWO")];
    let commands = vec![
        Command::Skip { n: 0 },
        Command::Take { n: 9 },
        Command::Select {
            fields: vec![(0, 8, 0)],
        },
    ];
    let pipeline = compile(&commands);
    let mut exec = rat_start(&pipeline, records);
    exec.run_to_completion();
    let trace = exec.trace();
    assert_eq!(trace.record_traces.len(), 2);
    for tr in &trace.record_traces {
        assert_eq!(tr.pipe_points.len(), 4);
    }
}

#[test]
fn test_filter_monotone_trace() {
    // Once a record is filtered out at pipe point k, all later pipe
    // points of that trace are empty.
    let records = vec![Record::from_str("DROPPED")];
    let commands = vec![
        Command::FilterEq {
            pos: 0,
            len: 4,
            value: "KEEP".to_string(),
        },
        Command::Select {
            fields: vec![(0, 8, 0)],
        },
        Command::Take { n: 5 },
    ];
    let pipeline = compile(&commands);
    let mut exec = rat_start(&pipeline, records);
    match exec.step() {
        StepResult::Record(tr) => {
            assert_eq!(tr.pipe_points.len(), 4);
            assert_eq!(tr.pipe_points[0].len(), 1);
            assert_eq!(tr.pipe_points[1].len(), 0);
            assert_eq!(tr.pipe_points[2].len(), 0);
            assert_eq!(tr.pipe_points[3].len(), 0);
        }
        _ => panic!("expected a record trace"),
    }
}

#[test]
fn test_take_counter_persists_across_records() {
    // A fresh executor gets fresh counters; within one run the counter
    // persists.
    let records = vec![
        Record::from_str("ONE"),
        Record::from_str("TWO"),
        Record::from_str("THREE"),
    ];
    let commands = vec![Command::Take { n: 2 }];
    let pipeline = compile(&commands);

    let out1 = run_batch(&pipeline, records.clone());
    assert_eq!(out1.len(), 2);
    // A second run over the same compiled pipeline starts fresh.
    let out2 = run_batch(&pipeline, records);
    assert_eq!(out2.len(), 2);
}

#[test]
fn test_empty_input_rat() {
    let commands = vec![Command::Take { n: 1 }];
    let pipeline = compile(&commands);
    let mut exec = rat_start(&pipeline, Vec::new());
    assert!(matches!(exec.step(), StepResult::Finished));
    assert_eq!(exec.phase(), ExecPhase::Done);
    assert_eq!(exec.outputs().len(), 0);
}

#[test]
fn test_error_messages() {
    let e1 = PipelineError::FieldOutOfBounds {
        start: 90,
        length: 10,
        record_len: 80,
    };
    assert_eq!(e1.message(), "field position 90:10 exceeds record length 80");
    let e2 = PipelineError::InvalidRecordLength(75);
    assert_eq!(e2.message(), "invalid record length: expected 80, got 75");
    let e3 = PipelineError::Io("gone".to_string());
    assert_eq!(e3.message(), "I/O error: gone");
    let e4 = PipelineError::Stage("odd".to_string());
    assert_eq!(e4.message(), "stage error: odd");
}

#[test]
fn test_filter_ne_keeps_others() {
    let pipeline_text = "FILTER 18,10 != \"SALES\"";
    let input = "SMITH   JOHN      SALES     00050000\nJONES   MARY      ENGINEER  00075000";
    let (output, _ic, oc) = execute_pipeline(input, pipeline_text).unwrap();
    assert_eq!(oc, 1);
    assert!(output.contains("JONES"));
}
