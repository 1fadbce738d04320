use ampiato::pgoutput::LogicalReplicationMessage;
use ampiato::{decode, ParseError, Time};

fn be_u16(v: u16) -> Vec<u8> {
    v.to_be_bytes().to_vec()
}

fn be_u32(v: u32) -> Vec<u8> {
    v.to_be_bytes().to_vec()
}

fn be_u64(v: u64) -> Vec<u8> {
    v.to_be_bytes().to_vec()
}

#[test]
fn decodes_begin() {
    let mut buf = vec![b'B'];
    buf.extend(be_u64(99));
    buf.extend(be_u64(5_000_000));
    buf.extend(be_u32(7));
    match decode(&buf).unwrap() {
        LogicalReplicationMessage::Begin(m) => {
            assert_eq!(m.final_lsn, 99);
            assert_eq!(m.commit_timestamp, Time(946_684_805));
            assert_eq!(m.transaction_id, 7);
        }
        other => panic!("unexpected message: {:?}", message_tag(&other)),
    }
}

#[test]
fn decodes_commit() {
    let mut buf = vec![b'C'];
    buf.push(1);
    buf.extend(be_u64(10));
    buf.extend(be_u64(20));
    buf.extend(be_u64(2_500_000));
    match decode(&buf).unwrap() {
        LogicalReplicationMessage::Commit(m) => {
            assert_eq!(m.flags, 1);
            assert_eq!(m.lsn, 10);
            assert_eq!(m.end_lsn, 20);
            assert_eq!(m.commit_timestamp, Time(946_684_802));
        }
        other => panic!("unexpected message: {:?}", message_tag(&other)),
    }
}

#[test]
fn decodes_insert_with_text_column() {
    let mut buf = vec![b'I'];
    buf.extend(be_u16(3));
    buf.extend(be_u16(4));
    buf.push(b'N');
    buf.extend(be_u16(1));
    buf.push(b't');
    buf.extend(be_u32(2));
    buf.extend(b"42");
    match decode(&buf).unwrap() {
        LogicalReplicationMessage::Insert(m) => {
            assert_eq!(m.transaction_id, 3);
            assert_eq!(m.relation_oid, 4);
            assert_eq!(m.new_tuple.number_of_columns, 1);
            match &m.new_tuple.columns[0] {
                ampiato::ColumnValue::Text { length, data } => {
                    assert_eq!(*length, 2);
                    assert_eq!(data, b"42");
                }
                _ => panic!("expected a text column"),
            }
        }
        other => panic!("unexpected message: {:?}", message_tag(&other)),
    }
}

#[test]
fn decodes_relation_with_one_column() {
    let mut buf = vec![b'R'];
    buf.extend(be_u32(1));
    buf.extend(be_u32(2));
    buf.extend(b"public\0");
    buf.extend(b"tbl\0");
    buf.push(b'd');
    buf.extend(be_u16(1));
    buf.push(1);
    buf.extend(b"c\0");
    buf.extend(be_u32(23));
    buf.extend(be_u32(0));
    match decode(&buf).unwrap() {
        LogicalReplicationMessage::Relation(m) => {
            assert_eq!(m.namespace, "public");
            assert_eq!(m.relation_name, "tbl");
            assert_eq!(m.replica_identity_setting, b'd');
            assert_eq!(m.number_of_columns, 1);
            assert_eq!(m.columns.len(), 1);
            assert_eq!(m.columns[0].name, "c");
            assert_eq!(m.columns[0].type_oid, 23);
        }
        other => panic!("unexpected message: {:?}", message_tag(&other)),
    }
}

#[test]
fn decodes_update_with_old_tuple() {
    let mut buf = vec![b'U'];
    buf.extend(be_u16(1));
    buf.extend(be_u16(2));
    buf.push(b'O');
    buf.extend(be_u16(1));
    buf.push(b'n');
    buf.extend(be_u32(0));
    buf.push(b'N');
    buf.extend(be_u16(1));
    buf.push(b't');
    buf.extend(be_u32(1));
    buf.extend(b"9");
    match decode(&buf).unwrap() {
        LogicalReplicationMessage::Update(m) => {
            assert!(m.key_or_old_tuple.is_some());
            assert_eq!(m.new_tuple.number_of_columns, 1);
        }
        other => panic!("unexpected message: {:?}", message_tag(&other)),
    }
}

#[test]
fn decodes_stream_stop() {
    let buf = vec![b'E'];
    assert!(matches!(decode(&buf).unwrap(), LogicalReplicationMessage::StreamStop));
}

#[test]
fn empty_buffer_is_eof() {
    let buf: Vec<u8> = vec![];
    assert_eq!(decode(&buf).unwrap_err(), ParseError::UnexpectedEof);
}

#[test]
fn unknown_tag_is_reported() {
    let buf = vec![b'Z'];
    assert_eq!(decode(&buf).unwrap_err(), ParseError::UnknownTag(b'Z'));
}

#[test]
fn truncated_begin_is_eof() {
    let buf = vec![b'B', 0, 0, 0];
    assert_eq!(decode(&buf).unwrap_err(), ParseError::UnexpectedEof);
}

#[test]
fn relation_name_must_be_utf8() {
    let mut buf = vec![b'R'];
    buf.extend(be_u32(1));
    buf.extend(be_u32(2));
    buf.extend([0xFF, 0x00]);
    buf.extend(b"tbl\0");
    buf.push(b'd');
    buf.extend(be_u16(0));
    assert_eq!(decode(&buf).unwrap_err(), ParseError::Utf8Error);
}

#[test]
fn missing_terminator_is_eof() {
    let mut buf = vec![b'O'];
    buf.extend(be_u64(1));
    buf.extend(be_u32(2));
    buf.extend(b"origin-without-nul");
    assert_eq!(decode(&buf).unwrap_err(), ParseError::UnexpectedEof);
}

fn message_tag(m: &LogicalReplicationMessage) -> &'static str {
    match m {
        LogicalReplicationMessage::Begin(_) => "Begin",
        LogicalReplicationMessage::Message(_) => "Message",
        LogicalReplicationMessage::Commit(_) => "Commit",
        LogicalReplicationMessage::Origin(_) => "Origin",
        LogicalReplicationMessage::Relation(_) => "Relation",
        LogicalReplicationMessage::Type(_) => "Type",
        LogicalReplicationMessage::Insert(_) => "Insert",
        LogicalReplicationMessage::Update(_) => "Update",
        LogicalReplicationMessage::Delete(_) => "Delete",
        LogicalReplicationMessage::Truncate(_) => "Truncate",
        LogicalReplicationMessage::StreamStart(_) => "StreamStart",
        LogicalReplicationMessage::StreamStop => "StreamStop",
        LogicalReplicationMessage::StreamCommit(_) => "StreamCommit",
        LogicalReplicationMessage::StreamAbort(_) => "StreamAbort",
        LogicalReplicationMessage::BeginPrepare(_) => "BeginPrepare",
        LogicalReplicationMessage::Prepare(_) => "Prepare",
        LogicalReplicationMessage::CommitPrepared(_) => "CommitPrepared",
        LogicalReplicationMessage::RollbackPrepared(_) => "RollbackPrepared",
        LogicalReplicationMessage::StreamPrepare(_) => "StreamPrepare",
    }
}
