use pipelines_rs::{Filter, Inspect, Record, Reformat, Select, Stage};

fn sample_records() -> Vec<Record> {
    vec![
        Record::from_str("SMITH   JOHN      SALES     00050000"),
        Record::from_str("JONES   MARY      ENGINEERING00075000"),
        Record::from_str("DOE     JANE      SALES     00060000"),
        Record::from_str("WILSON  BOB       MARKETING 00055000"),
    ]
}

#[test]
fn test_filter_include() {
    let mut filter = Filter::new(|r: &Record| r.field_eq(18, 10, "SALES"));
    let records = sample_records();

    let result: Vec<_> = records
        .into_iter()
        .filter_map(|r| filter.process(r))
        .collect();

    assert_eq!(result.len(), 2);
    assert!(result[0].field_eq(0, 8, "SMITH"));
    assert!(result[1].field_eq(0, 8, "DOE"));
}

#[test]
fn test_filter_omit() {
    // Omit SALES (keep non-SALES)
    let mut filter = Filter::new(|r: &Record| !r.field_eq(18, 10, "SALES"));
    let records = sample_records();

    let result: Vec<_> = records
        .into_iter()
        .filter_map(|r| filter.process(r))
        .collect();

    assert_eq!(result.len(), 2);
    assert!(result[0].field_eq(0, 8, "JONES"));
    assert!(result[1].field_eq(0, 8, "WILSON"));
}

#[test]
fn test_select_fields() {
    let mut select = Select::new(vec![
        (0, 8, 0),   // Last name
        (18, 10, 8), // Department
    ]);

    let input = Record::from_str("SMITH   JOHN      SALES     00050000");
    let output = select.process(input).unwrap();

    assert_eq!(output.field(0, 8).trim(), "SMITH");
    assert_eq!(output.field(8, 10).trim(), "SALES");
    // Rest should be blank
    assert!(output.field(18, 62).trim().is_empty());
}

#[test]
fn test_reformat() {
    let mut reformat = Reformat::new(|r: &Record| {
        let mut output = Record::new();
        // Swap first and last name positions
        output.set_field(0, 10, &r.field(8, 10)); // First name first
        output.set_field(10, 8, &r.field(0, 8)); // Last name second
        output.set_field(18, 10, &r.field(18, 10)); // Keep department
        output
    });

    let input = Record::from_str("SMITH   JOHN      SALES     ");
    let output = reformat.process(input).unwrap();

    assert_eq!(output.field(0, 10).trim(), "JOHN");
    assert_eq!(output.field(10, 8).trim(), "SMITH");
    assert_eq!(output.field(18, 10).trim(), "SALES");
}

#[test]
fn test_inspect() {
    let seen: std::cell::RefCell<Vec<String>> = std::cell::RefCell::new(Vec::new());
    {
        let mut inspect = Inspect::new(|r: &Record| {
            seen.borrow_mut().push(r.field(0, 8).trim().to_string());
        });

        for record in sample_records() {
            inspect.process(record);
        }
    }

    assert_eq!(seen.into_inner(), vec!["SMITH", "JONES", "DOE", "WILSON"]);
}

#[test]
fn test_process_batch() {
    let mut filter = Filter::new(|r: &Record| r.field_eq(18, 10, "SALES"));
    let result = filter.process_batch(sample_records());

    assert_eq!(result.len(), 2);
}

#[test]
fn test_map_stage_filters() {
    let mut map = pipelines_rs::MapStage::new(|r: Record| {
        if r.field_eq(18, 10, "SALES") {
            None
        } else {
            Some(r)
        }
    });
    let result = map.process_batch(sample_records());
    assert_eq!(result.len(), 2);
    assert!(result[0].field_eq(0, 8, "JONES"));
}

#[test]
fn test_select_batch() {
    let mut select = Select::new(vec![(0, 8, 0)]);
    let result = select.process_batch(sample_records());
    assert_eq!(result.len(), 4);
    assert_eq!(result[3].field(0, 8).trim(), "WILSON");
}
