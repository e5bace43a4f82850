use pipelines_rs::pipeline::from_strings;
use pipelines_rs::{Pipeline, Record};

fn sample_records() -> Vec<Record> {
    // Layout: Last(8) First(10) Dept(10) Salary(8)
    vec![
        Record::from_str("SMITH   JOHN      SALES     00050000"),
        Record::from_str("JONES   MARY      ENGINEER  00075000"),
        Record::from_str("DOE     JANE      SALES     00060000"),
        Record::from_str("WILSON  BOB       MARKETING 00055000"),
    ]
}

#[test]
fn test_filter() {
    let result: Vec<_> = Pipeline::new(sample_records())
        .filter(|r: &Record| r.field_eq(18, 10, "SALES"))
        .collect();

    assert_eq!(result.len(), 2);
}

#[test]
fn test_omit() {
    let result: Vec<_> = Pipeline::new(sample_records())
        .omit(|r: &Record| r.field_eq(18, 10, "SALES"))
        .collect();

    assert_eq!(result.len(), 2);
    assert!(result[0].field_eq(0, 8, "JONES"));
}

#[test]
fn test_map() {
    let result: Vec<_> = Pipeline::new(sample_records())
        .map(|r: Record| Record::from_str(&r.as_str().to_uppercase()))
        .collect();

    assert_eq!(result.len(), 4);
}

#[test]
fn test_select() {
    let result: Vec<_> = Pipeline::new(sample_records())
        .select(vec![(0, 8, 0), (28, 8, 8)])
        .collect();

    assert_eq!(result[0].field(0, 8).trim(), "SMITH");
    assert_eq!(result[0].field(8, 8), "00050000");
}

#[test]
fn test_chain() {
    let records1 = vec![Record::from_str("ONE")];
    let records2 = vec![Record::from_str("TWO")];

    let result: Vec<_> = Pipeline::new(records1).chain(records2).collect();

    assert_eq!(result.len(), 2);
}

#[test]
fn test_take_skip() {
    let result: Vec<_> = Pipeline::new(sample_records()).skip(1).take(2).collect();

    assert_eq!(result.len(), 2);
    assert!(result[0].field_eq(0, 8, "JONES"));
    assert!(result[1].field_eq(0, 8, "DOE"));
}

#[test]
fn test_count() {
    let count = Pipeline::new(sample_records())
        .filter(|r: &Record| r.field_eq(18, 10, "SALES"))
        .count();

    assert_eq!(count, 2);
}

#[test]
fn test_fold() {
    let total: u64 = Pipeline::new(sample_records()).fold(0u64, |acc, r: Record| {
        let salary: u64 = r.field(28, 8).trim().parse().unwrap_or(0);
        acc + salary
    });

    assert_eq!(total, 240000); // 50000 + 75000 + 60000 + 55000
}

#[test]
fn test_any_all() {
    let has_sales =
        Pipeline::new(sample_records()).any(|r: &Record| r.field_eq(18, 10, "SALES"));
    assert!(has_sales);

    let all_sales =
        Pipeline::new(sample_records()).all(|r: &Record| r.field_eq(18, 10, "SALES"));
    assert!(!all_sales);
}

#[test]
fn test_first_last() {
    let first = Pipeline::new(sample_records()).first();
    assert!(first.unwrap().field_eq(0, 8, "SMITH"));

    let last = Pipeline::new(sample_records()).last();
    assert!(last.unwrap().field_eq(0, 8, "WILSON"));
}

#[test]
fn test_pipeline_chaining() {
    // Complex pipeline: filter SALES, select name+salary, take first 1
    let result: Vec<_> = Pipeline::new(sample_records())
        .filter(|r: &Record| r.field_eq(18, 10, "SALES"))
        .select(vec![(0, 8, 0), (28, 8, 8)])
        .take(1)
        .collect();

    assert_eq!(result.len(), 1);
    assert_eq!(result[0].field(0, 8).trim(), "SMITH");
    assert_eq!(result[0].field(8, 8), "00050000");
}

#[test]
fn test_from_strings() {
    let result: Vec<_> = from_strings(&["ONE", "TWO", "THREE"]).collect();
    assert_eq!(result.len(), 3);
}

#[test]
fn test_as_iterator() {
    let mut pipeline = Pipeline::new(sample_records());

    let first = pipeline.next();
    assert!(first.is_some());
    assert!(first.unwrap().field_eq(0, 8, "SMITH"));

    let count = pipeline.count();
    assert_eq!(count, 3); // Remaining 3 records
}

#[test]
fn test_filter_map() {
    // Keep only records with a non-zero salary field
    let records = vec![
        Record::from_str("SMITH   JOHN      SALES     00050000"),
        Record::from_str("JONES   MARY      ENGINEER  00000000"),
    ];
    let result: Vec<_> = Pipeline::new(records)
        .filter_map(|r: Record| {
            if r.field(28, 8) != "00000000" {
                Some(r)
            } else {
                None
            }
        })
        .collect();
    assert_eq!(result.len(), 1);
    assert!(result[0].field_eq(0, 8, "SMITH"));
}

#[test]
fn test_inspect_passthrough() {
    let seen = std::cell::Cell::new(0usize);
    let result: Vec<_> = Pipeline::new(sample_records())
        .inspect(|_r: &Record| {
            seen.set(seen.get() + 1);
        })
        .collect();
    assert_eq!(result.len(), 4);
    assert_eq!(seen.get(), 4);
}

#[test]
fn test_reformat_swaps_fields() {
    let records = vec![Record::from_str("SMITH   JOHN      SALES     ")];
    let result: Vec<_> = Pipeline::new(records)
        .reformat(|r: &Record| {
            let mut out = Record::new();
            out.set_field(0, 10, &r.field(8, 10));
            out.set_field(10, 8, &r.field(0, 8));
            out
        })
        .collect();
    assert_eq!(result[0].field(0, 10).trim(), "JOHN");
    assert_eq!(result[0].field(10, 8).trim(), "SMITH");
}

#[test]
fn test_from_lines() {
    let lines = vec!["ONE".to_string(), "TWO".to_string()];
    let result: Vec<_> = pipelines_rs::from_lines(&lines).collect();
    assert_eq!(result.len(), 2);
    assert!(result[0].field_eq(0, 8, "ONE"));
}

#[test]
fn test_skip_past_end() {
    let result: Vec<_> = Pipeline::new(sample_records()).skip(10).collect();
    assert_eq!(result.len(), 0);
}
