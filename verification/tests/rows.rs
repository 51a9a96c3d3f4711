use benchcsv::extract::{benchmark_to_csv_rows, document_to_csv, ExtractError};
use benchcsv::value::Value;

fn s(x: &str) -> String {
    x.to_string()
}

fn text(x: &str) -> Value {
    Value::Text(s(x))
}

fn float(x: f64) -> Value {
    Value::Float(format!("{}", x))
}

fn results_block(ms_run: Option<Value>, block: Option<&str>) -> Value {
    let mut fields: Vec<(String, Value)> = Vec::new();
    if let Some(ms) = ms_run {
        fields.push((s("ms_run"), ms));
    }
    if let Some(b) = block {
        fields.push((
            s("post"),
            Value::Array(vec![Value::Table(vec![(
                s("output"),
                Value::Array(vec![text(b)]),
            )])]),
        ));
    }
    Value::Table(vec![(s("results"), Value::Array(vec![Value::Table(fields)]))])
}

fn tags_option(tag: &str) -> Value {
    Value::Table(vec![
        (s("name"), text("tags")),
        (s("contents"), Value::Array(vec![text(tag)])),
    ])
}

fn app_with_options(options: Vec<Value>) -> (String, Value) {
    (
        s("app"),
        Value::Table(vec![(s("options"), Value::Array(options))]),
    )
}

fn entry(tag: &str, ms_run: Vec<f64>, block: &str) -> Value {
    let samples: Vec<Value> = ms_run.into_iter().map(float).collect();
    let mut fields = match results_block(Some(Value::Array(samples)), Some(block)) {
        Value::Table(fields) => fields,
        _ => unreachable!(),
    };
    let (k, v) = app_with_options(vec![tags_option(tag)]);
    fields.push((k, v));
    Value::Table(fields)
}

fn document(entries: Vec<Value>) -> Value {
    Value::Table(vec![(s("benchmark"), Value::Array(entries))])
}

#[test]
fn full_scenario_two_entries() {
    // First entry: two samples, tags 5-9, one parameter. Second entry:
    // no app.options at all, so it contributes nothing.
    let first = entry("5-9", vec![1.0, 2.0], "1\nfoo");
    let second = results_block(Some(Value::Array(vec![float(3.0)])), Some("1\nbar"));
    let doc = document(vec![first, second]);
    let rows = document_to_csv(&doc).unwrap();
    assert_eq!(rows, vec![s("1,5,9,foo"), s("2,5,9,foo")]);
}

#[test]
fn one_row_per_sample() {
    let e = entry("5-9", vec![1.5, 2.25, 100.0], "1\nfoo");
    let rows = benchmark_to_csv_rows(&e).unwrap();
    assert_eq!(rows.len(), 3);
    assert_eq!(rows[0], "1.5,5,9,foo");
    assert_eq!(rows[1], "2.25,5,9,foo");
    assert_eq!(rows[2], "100,5,9,foo");
}

#[test]
fn negative_tags_in_rows() {
    let e = entry("-3--1", vec![2.0], "2\na\nb");
    let rows = benchmark_to_csv_rows(&e).unwrap();
    assert_eq!(rows, vec![s("2,-3,-1,a/b")]);
}

#[test]
fn empty_ms_run_gives_no_rows() {
    let e = entry("5-9", vec![], "1\nfoo");
    assert_eq!(benchmark_to_csv_rows(&e), Ok(vec![]));
}

fn entry_with_samples(samples: Vec<Value>) -> Value {
    let e = entry("5-9", vec![], "1\nfoo");
    match e {
        Value::Table(mut fields) => {
            fields[0].1 = Value::Array(vec![Value::Table(vec![
                (s("ms_run"), Value::Array(samples)),
                (
                    s("post"),
                    Value::Array(vec![Value::Table(vec![(
                        s("output"),
                        Value::Array(vec![text("1\nfoo")]),
                    )])]),
                ),
            ])]);
            Value::Table(fields)
        }
        _ => unreachable!(),
    }
}

#[test]
fn non_numeric_samples_are_dropped() {
    // Strings, booleans and the like contribute no row; floats and
    // integers each contribute one, in order.
    let e = entry_with_samples(vec![
        float(1.0),
        Value::Int(2),
        text("x"),
        Value::Bool(true),
        float(4.5),
    ]);
    let rows = benchmark_to_csv_rows(&e).unwrap();
    assert_eq!(rows, vec![s("1,5,9,foo"), s("2,5,9,foo"), s("4.5,5,9,foo")]);
}

#[test]
fn integer_samples_render_in_decimal() {
    let e = entry_with_samples(vec![Value::Int(-7), Value::Int(0), Value::Int(i64::MAX)]);
    let rows = benchmark_to_csv_rows(&e).unwrap();
    assert_eq!(
        rows,
        vec![
            s("-7,5,9,foo"),
            s("0,5,9,foo"),
            s("9223372036854775807,5,9,foo")
        ]
    );
}

#[test]
fn entry_without_results_is_skipped() {
    let mut fields: Vec<(String, Value)> = Vec::new();
    let (k, v) = app_with_options(vec![tags_option("5-9")]);
    fields.push((k, v));
    let e = Value::Table(fields);
    assert_eq!(benchmark_to_csv_rows(&e), Ok(vec![]));
}

#[test]
fn entry_without_tags_option_is_skipped() {
    // The option list is present but holds no option named "tags".
    let mut fields = match results_block(Some(Value::Array(vec![float(1.0)])), Some("1\nfoo")) {
        Value::Table(fields) => fields,
        _ => unreachable!(),
    };
    let other = Value::Table(vec![
        (s("name"), text("threads")),
        (s("contents"), Value::Array(vec![text("4")])),
    ]);
    let (k, v) = app_with_options(vec![other]);
    fields.push((k, v));
    let e = Value::Table(fields);
    assert_eq!(benchmark_to_csv_rows(&e), Ok(vec![]));
}

#[test]
fn tags_option_without_contents_is_passed_over() {
    // An option named "tags" with no contents field does not count; a
    // later complete one is used.
    let bare = Value::Table(vec![(s("name"), text("tags"))]);
    let mut fields = match results_block(Some(Value::Array(vec![float(1.0)])), Some("1\nfoo")) {
        Value::Table(fields) => fields,
        _ => unreachable!(),
    };
    let (k, v) = app_with_options(vec![bare, tags_option("5-9")]);
    fields.push((k, v));
    let e = Value::Table(fields);
    let rows = benchmark_to_csv_rows(&e).unwrap();
    assert_eq!(rows, vec![s("1,5,9,foo")]);
}

#[test]
fn malformed_tag_string_stops_the_run() {
    let e = entry("nope", vec![1.0], "1\nfoo");
    assert_eq!(benchmark_to_csv_rows(&e), Err(ExtractError::MalformedTags));
    let doc = document(vec![e]);
    assert_eq!(document_to_csv(&doc), Err(ExtractError::MalformedTags));
}

#[test]
fn tags_contents_not_a_string_stops_the_run() {
    let mut fields = match results_block(Some(Value::Array(vec![float(1.0)])), Some("1\nfoo")) {
        Value::Table(fields) => fields,
        _ => unreachable!(),
    };
    let bad = Value::Table(vec![
        (s("name"), text("tags")),
        (s("contents"), Value::Array(vec![Value::Int(7)])),
    ]);
    let (k, v) = app_with_options(vec![bad]);
    fields.push((k, v));
    let e = Value::Table(fields);
    assert_eq!(benchmark_to_csv_rows(&e), Err(ExtractError::MalformedTags));
}

#[test]
fn missing_ms_run_stops_the_run() {
    let mut fields = match results_block(None, Some("1\nfoo")) {
        Value::Table(fields) => fields,
        _ => unreachable!(),
    };
    let (k, v) = app_with_options(vec![tags_option("5-9")]);
    fields.push((k, v));
    let e = Value::Table(fields);
    assert_eq!(benchmark_to_csv_rows(&e), Err(ExtractError::MissingMsRun));
}

#[test]
fn missing_parameter_block_stops_the_run() {
    let mut fields = match results_block(Some(Value::Array(vec![float(1.0)])), None) {
        Value::Table(fields) => fields,
        _ => unreachable!(),
    };
    let (k, v) = app_with_options(vec![tags_option("5-9")]);
    fields.push((k, v));
    let e = Value::Table(fields);
    assert_eq!(
        benchmark_to_csv_rows(&e),
        Err(ExtractError::MissingParameterBlock)
    );
}

#[test]
fn bad_parameter_count_stops_the_run() {
    let e = entry("5-9", vec![1.0], "zero\nfoo");
    assert_eq!(
        benchmark_to_csv_rows(&e),
        Err(ExtractError::BadParameterCount)
    );
}

#[test]
fn document_without_benchmark_is_invalid() {
    let doc = Value::Table(vec![(s("other"), Value::Int(1))]);
    assert_eq!(document_to_csv(&doc), Err(ExtractError::InvalidFormat));
    let not_a_table = Value::Int(3);
    assert_eq!(document_to_csv(&not_a_table), Err(ExtractError::InvalidFormat));
    let wrong_kind = Value::Table(vec![(s("benchmark"), text("x"))]);
    assert_eq!(document_to_csv(&wrong_kind), Err(ExtractError::InvalidFormat));
}

#[test]
fn entries_keep_document_order() {
    let first = entry("1-2", vec![1.0], "1\na");
    let second = entry("3-4", vec![2.0, 3.0], "1\nb");
    let doc = document(vec![first, second]);
    let rows = document_to_csv(&doc).unwrap();
    assert_eq!(
        rows,
        vec![s("1,1,2,a"), s("2,3,4,b"), s("3,3,4,b")]
    );
}

#[test]
fn navigator_lookups() {
    let v = Value::Table(vec![(s("k"), Value::Array(vec![Value::Int(7), Value::Bool(true)]))]);
    let arr = v.get("k").unwrap();
    assert!(v.get("missing").is_none());
    assert_eq!(arr.index(0).unwrap().as_int(), Some(7));
    assert_eq!(arr.index(1).unwrap().as_bool(), Some(true));
    assert!(arr.index(2).is_none());
    assert!(arr.as_array().is_some());
    assert!(arr.as_str().is_none());
    assert_eq!(text("hi").as_str().unwrap(), "hi");
    assert_eq!(float(2.5).as_float().unwrap(), "2.5");
    assert!(Value::Other.as_float().is_none());
}
