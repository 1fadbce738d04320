use ampiato::pgoutput::{
    LogicalReplicationMessage, MessageBegin, MessageCommit, MessageRelation, MessageUpdate,
};
use ampiato::{
    ColumnValue, Db, Error, NodeKey, Selector, TableFromTupleData, TableValues, Time, TupleData,
    ValueFn,
};

fn text_col(s: &str) -> ColumnValue {
    ColumnValue::Text { length: s.len() as u32, data: s.as_bytes().to_vec() }
}

fn row_tuple(t: i64, v: f64) -> TupleData {
    TupleData {
        number_of_columns: 2,
        columns: vec![text_col(&t.to_string()), text_col(&v.to_string())],
    }
}

fn begin_msg() -> LogicalReplicationMessage {
    LogicalReplicationMessage::Begin(MessageBegin {
        final_lsn: 0,
        commit_timestamp: Time(0),
        transaction_id: 1,
    })
}

fn commit_msg() -> LogicalReplicationMessage {
    LogicalReplicationMessage::Commit(MessageCommit {
        flags: 0,
        lsn: 0,
        end_lsn: 0,
        commit_timestamp: Time(0),
    })
}

fn update_msg(tuple: TupleData) -> LogicalReplicationMessage {
    LogicalReplicationMessage::Update(MessageUpdate {
        transaction_id: 1,
        relation_oid: 1,
        key_or_old_tuple: None,
        new_tuple: tuple,
    })
}

fn relation_msg(name: &str) -> LogicalReplicationMessage {
    LogicalReplicationMessage::Relation(MessageRelation {
        transaction_id: 0,
        relation_oid: 1,
        namespace: "public".to_string(),
        relation_name: name.to_string(),
        replica_identity_setting: 0,
        number_of_columns: 0,
        columns: vec![],
    })
}

struct TestRow {
    name: &'static str,
    t: Time,
    v: f64,
}

impl TableFromTupleData for TestRow {
    fn from_tuple_data(relation_name: &str, tuple: &TupleData) -> Result<TestRow, Error> {
        if tuple.columns.len() != 2 {
            return Err(Error::UnexpectedNumberOfColumns {
                actual: tuple.columns.len(),
                expected: 2,
            });
        }
        let t = match ampiato::decode_i64(&tuple.columns[0]) {
            Ok(secs) => Time(secs),
            Err(e) => {
                return Err(Error::ReplicationError { detail: format!("{:?}", e) });
            }
        };
        let v = match &tuple.columns[1] {
            ColumnValue::Text { data, .. } => {
                std::str::from_utf8(data).unwrap().parse::<f64>().unwrap()
            }
            _ => panic!("expected a text column"),
        };
        let name: &'static str = match relation_name {
            "" | "tx" => "x",
            "ty" => "y",
            "tz" => "z",
            other => {
                return Err(Error::UnknownTable { table_name: other.to_string() });
            }
        };
        Ok(TestRow { name, t, v })
    }
}

impl TableValues<f64> for TestRow {
    fn time(&self) -> Time {
        self.t
    }

    fn selector(&self) -> Selector {
        Selector::Unit
    }

    fn values(&self) -> Vec<(&'static str, f64)> {
        vec![(self.name, self.v)]
    }
}

struct ReadX;

impl ValueFn<f64> for ReadX {
    fn eval(&self, db: &mut Db<f64>) -> f64 {
        db.get_value("x", Selector::Unit, Time(10))
    }
}

struct SumXyz;

impl ValueFn<f64> for SumXyz {
    fn eval(&self, db: &mut Db<f64>) -> f64 {
        db.get_value("x", Selector::Unit, Time(10))
            + db.get_value("y", Selector::Unit, Time(10))
            + db.get_value("z", Selector::Unit, Time(10))
    }
}

struct TwiceF;

impl ValueFn<f64> for TwiceF {
    fn eval(&self, db: &mut Db<f64>) -> f64 {
        db.register_fn("f", Selector::Unit, Time(10), &ReadX).0 * 2.0
    }
}

#[test]
fn dep_edge_recorded() {
    let mut db = Db::<f64>::new(false);
    db.update("x", &Selector::Unit, &Time(10), 5.0);
    let (v, _) = db.register_fn("f", Selector::Unit, Time(10), &ReadX);
    assert_eq!(v, 5.0);

    let hx = db.graph().find_node(&NodeKey::new("x", Selector::Unit, Time(10))).unwrap();
    let hf = db.graph().find_node(&NodeKey::new("f", Selector::Unit, Time(10))).unwrap();
    let out = db.graph().edges_out(hx);
    assert!(out.contains(&hf));
}

#[test]
fn subscription_firing() {
    let mut db = Db::<f64>::new(true);
    db.update("x", &Selector::Unit, &Time(10), 5.0);
    db.register_fn("f", Selector::Unit, Time(10), &ReadX);
    let hf = db.subscribe("f", &Selector::Unit, &Time(10));

    let msgs = vec![begin_msg(), update_msg(row_tuple(10, 7.5)), commit_msg()];
    let fired = db.sync_changes::<TestRow>(&msgs).unwrap();
    assert_eq!(fired, vec![hf]);
    assert_eq!(db.get_value_opt("x", Selector::Unit, Time(10)), Some(7.5));
}

#[test]
fn transactional_atomicity() {
    let mut db = Db::<f64>::new(true);
    db.update("x", &Selector::Unit, &Time(10), 1.0);
    db.update("y", &Selector::Unit, &Time(10), 2.0);
    db.update("z", &Selector::Unit, &Time(10), 3.0);
    db.register_fn("g", Selector::Unit, Time(10), &SumXyz);
    let hg = db.subscribe("g", &Selector::Unit, &Time(10));

    let msgs = vec![
        begin_msg(),
        relation_msg("tx"),
        update_msg(row_tuple(10, 10.0)),
        relation_msg("ty"),
        update_msg(row_tuple(10, 20.0)),
        relation_msg("tz"),
        update_msg(row_tuple(10, 30.0)),
        commit_msg(),
    ];
    let fired = db.sync_changes::<TestRow>(&msgs).unwrap();
    assert_eq!(fired, vec![hg]);
    assert_eq!(db.get_value_opt("y", Selector::Unit, Time(10)), Some(20.0));
}

#[test]
fn nested_derived_dependency() {
    let mut db = Db::<f64>::new(true);
    db.update("x", &Selector::Unit, &Time(10), 5.0);
    let (v, _) = db.register_fn("g", Selector::Unit, Time(10), &TwiceF);
    assert_eq!(v, 10.0);
    let hg = db.subscribe("g", &Selector::Unit, &Time(10));

    let msgs = vec![begin_msg(), update_msg(row_tuple(10, 6.0)), commit_msg()];
    let fired = db.sync_changes::<TestRow>(&msgs).unwrap();
    assert_eq!(fired, vec![hg]);
}

#[test]
fn update_of_unknown_triple_fires_nothing() {
    let mut db = Db::<f64>::new(false);
    db.subscribe("f", &Selector::Unit, &Time(10));
    let fired = db.update("never-mentioned", &Selector::Unit, &Time(10), 1.0);
    assert!(fired.is_empty());
}

#[test]
fn reinserting_same_value_gives_same_set() {
    let mut db = Db::<f64>::new(false);
    db.update("x", &Selector::Unit, &Time(10), 5.0);
    db.register_fn("f", Selector::Unit, Time(10), &ReadX);
    let hf = db.subscribe("f", &Selector::Unit, &Time(10));

    let first = db.update("x", &Selector::Unit, &Time(10), 9.0);
    let second = db.update("x", &Selector::Unit, &Time(10), 9.0);
    assert_eq!(first, vec![hf]);
    assert_eq!(second, first);
    assert_eq!(db.get_value_opt("x", Selector::Unit, Time(10)), Some(9.0));
}

#[test]
fn duplicate_edge_not_recorded_twice() {
    let mut db = Db::<f64>::new(false);
    db.update("x", &Selector::Unit, &Time(10), 5.0);
    db.register_fn("f", Selector::Unit, Time(10), &ReadX);
    db.register_fn("f", Selector::Unit, Time(10), &ReadX);

    let hx = db.graph().find_node(&NodeKey::new("x", Selector::Unit, Time(10))).unwrap();
    let out = db.graph().edges_out(hx);
    assert_eq!(out.len(), 1);
}

#[test]
fn intern_gives_stable_distinct_handles() {
    let mut db = Db::<f64>::new(false);
    let h1 = db.get_ref_for_value("a", Selector::Unit, Time(1));
    let h2 = db.get_ref_for_value("b", Selector::Entity(7), Time(1));
    let h3 = db.get_ref_for_value("a", Selector::Unit, Time(1));
    let h4 = db.get_ref_for_value("a", Selector::Unit, Time(2));
    assert_eq!(h1, h3);
    assert_ne!(h1, h2);
    assert_ne!(h1, h4);
    assert_ne!(h2, h4);
}

#[test]
fn unsubscribe_stops_firing() {
    let mut db = Db::<f64>::new(false);
    db.update("x", &Selector::Unit, &Time(10), 5.0);
    db.register_fn("f", Selector::Unit, Time(10), &ReadX);
    let hf = db.subscribe("f", &Selector::Unit, &Time(10));

    let fired = db.update("x", &Selector::Unit, &Time(10), 6.0);
    assert_eq!(fired, vec![hf]);

    db.unsubscribe(hf);
    let fired = db.update("x", &Selector::Unit, &Time(10), 7.0);
    assert!(fired.is_empty());
}

#[test]
fn sync_requires_replication() {
    let mut db = Db::<f64>::new(false);
    let r = db.sync_changes::<TestRow>(&vec![]);
    assert!(matches!(r, Err(Error::ReplicationNotEnabled)));
}

#[test]
fn uncommitted_transaction_has_no_effect() {
    let mut db = Db::<f64>::new(true);
    db.update("x", &Selector::Unit, &Time(10), 5.0);
    db.register_fn("f", Selector::Unit, Time(10), &ReadX);
    db.subscribe("f", &Selector::Unit, &Time(10));

    let msgs = vec![begin_msg(), update_msg(row_tuple(10, 7.5))];
    let fired = db.sync_changes::<TestRow>(&msgs).unwrap();
    assert!(fired.is_empty());
    assert_eq!(db.get_value_opt("x", Selector::Unit, Time(10)), Some(5.0));
}

#[test]
fn change_outside_transaction_is_an_error() {
    let mut db = Db::<f64>::new(true);
    let msgs = vec![update_msg(row_tuple(10, 7.5))];
    let r = db.sync_changes::<TestRow>(&msgs);
    assert!(matches!(r, Err(Error::ReplicationError { .. })));
}

#[test]
fn commit_outside_transaction_is_an_error() {
    let mut db = Db::<f64>::new(true);
    let msgs = vec![commit_msg()];
    let r = db.sync_changes::<TestRow>(&msgs);
    assert!(matches!(r, Err(Error::ReplicationError { .. })));
}

#[test]
fn top_level_read_tracks_no_dependency() {
    let mut db = Db::<f64>::new(false);
    db.update("x", &Selector::Unit, &Time(10), 5.0);
    let v = db.get_value("x", Selector::Unit, Time(10));
    assert_eq!(v, 5.0);
    let hx = db.graph().find_node(&NodeKey::new("x", Selector::Unit, Time(10))).unwrap();
    assert!(db.graph().edges_out(hx).is_empty());
}

#[test]
fn entity_selectors_use_changes_semantics() {
    let mut db = Db::<f64>::new(false);
    db.update("p", &Selector::Entity(1), &Time(10), 1.0);
    assert_eq!(db.get_value_opt("p", Selector::Entity(1), Time(15)), Some(1.0));
    assert_eq!(db.get_value_opt("p", Selector::Entity(2), Time(15)), None);
    assert_eq!(db.get_value_opt("q", Selector::Unit, Time(15)), None);
    db.update("q", &Selector::Unit, &Time(10), 2.0);
    assert_eq!(db.get_value_opt("q", Selector::Unit, Time(15)), None);
    assert_eq!(db.get_value_opt("q", Selector::Unit, Time(10)), Some(2.0));
}

#[test]
fn wrong_column_count_is_reported() {
    let mut db = Db::<f64>::new(true);
    let tuple = TupleData { number_of_columns: 1, columns: vec![text_col("10")] };
    let msgs = vec![begin_msg(), update_msg(tuple), commit_msg()];
    let r = db.sync_changes::<TestRow>(&msgs);
    assert!(matches!(r, Err(Error::UnexpectedNumberOfColumns { actual: 1, expected: 2 })));
}

#[test]
fn unknown_relation_is_reported() {
    let mut db = Db::<f64>::new(true);
    let msgs = vec![
        begin_msg(),
        relation_msg("mystery"),
        update_msg(row_tuple(10, 1.0)),
        commit_msg(),
    ];
    let r = db.sync_changes::<TestRow>(&msgs);
    assert!(matches!(r, Err(Error::UnknownTable { .. })));
}

#[test]
fn two_transactions_both_apply() {
    let mut db = Db::<f64>::new(true);
    db.update("x", &Selector::Unit, &Time(10), 5.0);
    db.register_fn("f", Selector::Unit, Time(10), &ReadX);
    let hf = db.subscribe("f", &Selector::Unit, &Time(10));

    let msgs = vec![
        begin_msg(),
        update_msg(row_tuple(10, 6.0)),
        commit_msg(),
        begin_msg(),
        update_msg(row_tuple(10, 7.0)),
        commit_msg(),
    ];
    let fired = db.sync_changes::<TestRow>(&msgs).unwrap();
    assert_eq!(fired, vec![hf]);
    assert_eq!(db.get_value_opt("x", Selector::Unit, Time(10)), Some(7.0));
}

#[test]
fn pair_selectors_are_distinct_quantities() {
    let mut db = Db::<f64>::new(false);
    db.update("flow", &Selector::EntityPair(1, 2), &Time(10), 3.5);
    db.update("flow", &Selector::EntityPair(2, 1), &Time(10), 4.5);
    assert_eq!(db.get_value_opt("flow", Selector::EntityPair(1, 2), Time(10)), Some(3.5));
    assert_eq!(db.get_value_opt("flow", Selector::EntityPair(2, 1), Time(10)), Some(4.5));
    assert_eq!(db.get_value_opt("flow", Selector::EntityPair(1, 1), Time(10)), None);
}

#[test]
fn failing_transaction_applies_nothing() {
    let mut db = Db::<f64>::new(true);
    db.update("x", &Selector::Unit, &Time(10), 5.0);
    let bad = TupleData { number_of_columns: 1, columns: vec![text_col("10")] };
    let msgs = vec![
        begin_msg(),
        update_msg(row_tuple(10, 7.5)),
        update_msg(bad),
        commit_msg(),
    ];
    let r = db.sync_changes::<TestRow>(&msgs);
    assert!(matches!(r, Err(Error::UnexpectedNumberOfColumns { .. })));
    assert_eq!(db.get_value_opt("x", Selector::Unit, Time(10)), Some(5.0));
}
