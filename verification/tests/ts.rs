use ampiato::{Time, TimeSeriesChanges, TimeSeriesDense, TimeSeriesInterval};

#[test]
fn simple_time_series_changes() {
    let mut ts = TimeSeriesChanges::<f64>::default();
    ts.push(Time(1), 1.0);
    ts.push(Time(2), 2.0);
    ts.push(Time(3), 3.0);

    assert_eq!(ts.get(&Time(0)), None);
    assert_eq!(ts.get(&Time(1)), Some(1.0));
    assert_eq!(ts.get(&Time(2)), Some(2.0));
    assert_eq!(ts.get(&Time(3)), Some(3.0));
    assert_eq!(ts.get(&Time(4)), Some(3.0));
}

#[test]
fn simple_time_series_dense() {
    let mut ts = TimeSeriesDense::<f64>::default();
    ts.push(Time(1), 1.0);
    ts.push(Time(2), 2.0);
    ts.push(Time(3), 3.0);

    assert_eq!(ts.get(&Time(0)), None);
    assert_eq!(ts.get(&Time(1)), Some(1.0));
    assert_eq!(ts.get(&Time(2)), Some(2.0));
    assert_eq!(ts.get(&Time(3)), Some(3.0));
    assert_eq!(ts.get(&Time(4)), None);
}

#[test]
fn changes_gap_steps_from_previous() {
    let mut ts = TimeSeriesChanges::<f64>::new();
    ts.push(Time(1), 1.0);
    ts.push(Time(5), 5.0);

    assert_eq!(ts.get(&Time(3)), Some(1.0));
    assert_eq!(ts.get(&Time(5)), Some(5.0));
    assert_eq!(ts.get(&Time(9)), Some(5.0));
    assert_eq!(ts.get(&Time(0)), None);
}

#[test]
fn changes_set_overwrites_existing_instant() {
    let mut ts = TimeSeriesChanges::<f64>::new();
    ts.set(&Time(2), 2.0);
    ts.set(&Time(4), 4.0);
    ts.set(&Time(2), 20.0);

    assert_eq!(ts.get(&Time(2)), Some(20.0));
    assert_eq!(ts.get(&Time(3)), Some(20.0));
    assert_eq!(ts.get(&Time(4)), Some(4.0));
}

#[test]
fn changes_set_inserts_out_of_order() {
    let mut ts = TimeSeriesChanges::<f64>::new();
    ts.set(&Time(5), 5.0);
    ts.set(&Time(1), 1.0);
    ts.set(&Time(3), 3.0);

    assert_eq!(ts.get(&Time(1)), Some(1.0));
    assert_eq!(ts.get(&Time(2)), Some(1.0));
    assert_eq!(ts.get(&Time(3)), Some(3.0));
    assert_eq!(ts.get(&Time(4)), Some(3.0));
    assert_eq!(ts.get(&Time(5)), Some(5.0));
}

#[test]
fn dense_set_answers_exact_matches_only() {
    let mut ts = TimeSeriesDense::<f64>::new();
    ts.set(&Time(10), 1.5);
    ts.set(&Time(20), 2.5);

    assert_eq!(ts.get(&Time(10)), Some(1.5));
    assert_eq!(ts.get(&Time(15)), None);
    assert_eq!(ts.get(&Time(20)), Some(2.5));
    assert_eq!(ts.get(&Time(21)), None);
}

#[test]
fn interval_answers_containing_span() {
    let mut ts = TimeSeriesInterval::<f64>::new();
    ts.push(Time(0), Time(10), 1.0);
    ts.push(Time(10), Time(20), 2.0);

    assert_eq!(ts.get(&Time(0)), Some(1.0));
    assert_eq!(ts.get(&Time(9)), Some(1.0));
    assert_eq!(ts.get(&Time(10)), Some(2.0));
    assert_eq!(ts.get(&Time(19)), Some(2.0));
    assert_eq!(ts.get(&Time(20)), None);
}
