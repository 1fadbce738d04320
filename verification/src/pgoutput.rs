//! The logical-replication binary decoder: parses the byte buffers the
//! database publishes for its change stream (protocol version 1, all
//! integers big-endian) into typed messages.
//!
//! The top-level message is a tagged union keyed by a single ASCII byte;
//! strings inside messages are either NUL-terminated or length-prefixed,
//! and row contents arrive as tagged column values.

use vstd::prelude::*;
use crate::defs::ParseError;
use crate::time::Time;

verus! {

/// The big-endian value of two bytes at `i`.
pub open spec fn be_u16(s: Seq<u8>, i: int) -> int {
    s[i] * 0x100 + s[i + 1]
}

/// The big-endian value of four bytes at `i`.
pub open spec fn be_u32(s: Seq<u8>, i: int) -> int {
    be_u16(s, i) * 0x10000 + be_u16(s, i + 2)
}

/// The big-endian value of eight bytes at `i`.
pub open spec fn be_u64(s: Seq<u8>, i: int) -> int {
    be_u32(s, i) * 0x100000000 + be_u32(s, i + 4)
}

/// The position of the first NUL byte at or after `i`, or `-1` if none
/// follows.
pub open spec fn nul_pos(s: Seq<u8>, i: int) -> int
    decreases s.len() - i,
{
    if i < 0 || i >= s.len() {
        -1
    } else if s[i] == 0 {
        i
    } else {
        nul_pos(s, i + 1)
    }
}

/// `nul_pos` names the first NUL at or after `i`.
pub proof fn lemma_nul_pos(s: Seq<u8>, i: int)
    requires
        0 <= i <= s.len(),
    ensures
        nul_pos(s, i) == -1 || nul_pos(s, i) >= i,
        nul_pos(s, i) == -1 ==> forall|j: int| i <= j < s.len() ==> s[j] != 0,
        nul_pos(s, i) >= 0 ==> {
            &&& i <= nul_pos(s, i) < s.len()
            &&& s[nul_pos(s, i)] == 0
            &&& forall|j: int| i <= j < nul_pos(s, i) ==> s[j] != 0
        },
    decreases s.len() - i,
{
    if i < s.len() && s[i] != 0 {
        lemma_nul_pos(s, i + 1);
    }
}

/// Reads one byte.
fn read_u8(data: &[u8], pos: &mut usize) -> (r: Option<u8>)
    ensures
        match r {
            Some(b) => {
                &&& *old(pos) < data@.len()
                &&& b == data@[*old(pos) as int]
                &&& *final(pos) == *old(pos) + 1
            },
            None => {
                &&& *old(pos) >= data@.len()
                &&& *final(pos) == *old(pos)
            },
        },
{
    if *pos < data.len() {
        let b = data[*pos];
        *pos = *pos + 1;
        Some(b)
    } else {
        None
    }
}

/// Reads a big-endian two-byte integer.
fn read_u16(data: &[u8], pos: &mut usize) -> (r: Option<u16>)
    ensures
        match r {
            Some(v) => {
                &&& *old(pos) + 2 <= data@.len()
                &&& v == be_u16(data@, *old(pos) as int)
                &&& *final(pos) == *old(pos) + 2
            },
            None => {
                &&& *old(pos) + 2 > data@.len()
                &&& *final(pos) == *old(pos)
            },
        },
{
    if *pos <= data.len() && data.len() - *pos >= 2 {
        let b0 = data[*pos];
        let b1 = data[*pos + 1];
        *pos = *pos + 2;
        Some((b0 as u16) * 0x100 + (b1 as u16))
    } else {
        None
    }
}

/// Reads a big-endian four-byte integer.
fn read_u32(data: &[u8], pos: &mut usize) -> (r: Option<u32>)
    ensures
        match r {
            Some(v) => {
                &&& *old(pos) + 4 <= data@.len()
                &&& v == be_u32(data@, *old(pos) as int)
                &&& *final(pos) == *old(pos) + 4
            },
            None => {
                &&& *old(pos) + 4 > data@.len()
                &&& *final(pos) == *old(pos)
            },
        },
{
    if *pos <= data.len() && data.len() - *pos >= 4 {
        let h = read_u16(data, pos).unwrap();
        let l = read_u16(data, pos).unwrap();
        Some((h as u32) * 0x10000 + (l as u32))
    } else {
        None
    }
}

/// Reads a big-endian eight-byte integer.
fn read_u64(data: &[u8], pos: &mut usize) -> (r: Option<u64>)
    ensures
        match r {
            Some(v) => {
                &&& *old(pos) + 8 <= data@.len()
                &&& v == be_u64(data@, *old(pos) as int)
                &&& *final(pos) == *old(pos) + 8
            },
            None => {
                &&& *old(pos) + 8 > data@.len()
                &&& *final(pos) == *old(pos)
            },
        },
{
    if *pos <= data.len() && data.len() - *pos >= 8 {
        let h = read_u32(data, pos).unwrap();
        let l = read_u32(data, pos).unwrap();
        Some((h as u64) * 0x100000000 + (l as u64))
    } else {
        None
    }
}

/// Reads `count` raw bytes.
fn read_bytes(data: &[u8], pos: &mut usize, count: usize) -> (r: Option<Vec<u8>>)
    ensures
        match r {
            Some(v) => {
                &&& *old(pos) + count <= data@.len()
                &&& v@ == data@.subrange(*old(pos) as int, *old(pos) + count)
                &&& *final(pos) == *old(pos) + count
            },
            None => {
                &&& *old(pos) + count > data@.len()
                &&& *final(pos) == *old(pos)
            },
        },
{
    if *pos <= data.len() && data.len() - *pos >= count {
        let start = *pos;
        let n = data.len();
        let mut v: Vec<u8> = Vec::new();
        let mut k: usize = 0;
        while k < count
            invariant
                n == data@.len(),
                start + count <= n,
                0 <= k <= count,
                v@.len() == k,
                forall|j: int| 0 <= j < k ==> v@[j] == data@[start + j],
            decreases count - k,
        {
            v.push(data[start + k]);
            k = k + 1;
        }
        *pos = start + count;
        proof {
            assert(v@ =~= data@.subrange(start as int, start + count));
        }
        Some(v)
    } else {
        None
    }
}

/// Relies on `core::str::from_utf8`: it accepts exactly the byte sequences
/// that vstd's UTF-8 model deems valid, and decodes them to the characters
/// that model gives.
#[verifier::external_body]
pub(crate) fn bytes_to_string(b: &Vec<u8>) -> (r: Option<String>)
    ensures
        r is Some <==> vstd::utf8::valid_utf8(b@),
        r matches Some(s) ==> s@ == vstd::utf8::decode_utf8(b@),
{
    match core::str::from_utf8(b.as_slice()) {
        Ok(s) => Some(s.to_owned()),
        Err(_) => None,
    }
}

/// The bytes of the NUL-terminated string at `i`: everything before its
/// terminator.
pub open spec fn cstr_bytes(s: Seq<u8>, i: int) -> Seq<u8> {
    s.subrange(i, nul_pos(s, i))
}

/// What reading the NUL-terminated string at `i` yields: its decoded
/// characters and the position after the terminator, or the error for a
/// missing terminator or ill-formed UTF-8.
pub open spec fn spec_cstring(s: Seq<u8>, i: int) -> Result<(Seq<char>, int), ParseError> {
    if nul_pos(s, i) == -1 {
        Err(ParseError::UnexpectedEof)
    } else if !vstd::utf8::valid_utf8(cstr_bytes(s, i)) {
        Err(ParseError::Utf8Error)
    } else {
        Ok((vstd::utf8::decode_utf8(cstr_bytes(s, i)), nul_pos(s, i) + 1))
    }
}

/// Reads a NUL-terminated UTF-8 string.
fn read_cstring(data: &[u8], pos: &mut usize) -> (r: Result<String, ParseError>)
    requires
        *old(pos) <= data@.len(),
    ensures
        match r {
            Ok(st) => {
                &&& spec_cstring(data@, *old(pos) as int) matches Ok(p)
                &&& st@ == p.0
                &&& *final(pos) == p.1
                &&& *final(pos) <= data@.len()
            },
            Err(e) => spec_cstring(data@, *old(pos) as int) == Err::<(Seq<char>, int),
                ParseError,
            >(e),
        },
{
    proof {
        lemma_nul_pos(data@, *old(pos) as int);
    }
    let start = *pos;
    let mut k: usize = start;
    let n = data.len();
    while k < n
        invariant
            *pos == start,
            start == *old(pos),
            start <= k <= n,
            n == data@.len(),
            forall|j: int| start <= j < k ==> data@[j] != 0,
        decreases n - k,
    {
        if data[k] == 0 {
            proof {
                assert(data@[k as int] == 0);
                assert(nul_pos(data@, start as int) == k as int) by {
                    lemma_nul_pos(data@, start as int);
                    let np = nul_pos(data@, start as int);
                    if np == -1 {
                        assert(data@[k as int] != 0);
                        assert(false);
                    } else if np < k as int {
                        assert(data@[np] != 0);
                        assert(data@[np] == 0);
                        assert(false);
                    } else if np > k as int {
                        assert(data@[k as int] != 0);
                        assert(false);
                    }
                }
            }
            let mut sub = *pos;
            let bytes = read_bytes(data, &mut sub, k - start);
            let bytes = bytes.unwrap();
            proof {
                assert(bytes@ == cstr_bytes(data@, start as int));
            }
            match bytes_to_string(&bytes) {
                Some(st) => {
                    *pos = k + 1;
                    return Ok(st);
                },
                None => {
                    return Err(ParseError::Utf8Error);
                },
            }
        }
        k = k + 1;
    }
    proof {
        assert(nul_pos(data@, start as int) == -1) by {
            lemma_nul_pos(data@, start as int);
            let np = nul_pos(data@, start as int);
            if np >= 0 {
                assert(data@[np] != 0);
                assert(data@[np] == 0);
                assert(false);
            }
        }
    }
    Err(ParseError::UnexpectedEof)
}

/// The instant, at second precision, that a microsecond count since the
/// PostgreSQL epoch (2000-01-01 UTC) denotes.
pub open spec fn pg_ts_secs(us: int) -> int {
    946684800 + us / 1000000
}

/// One row of the change-polling query: the stream cursor, the
/// transaction id, and the binary message payload.
#[derive(Debug)]
pub struct RowData {
    pub lsn: String,
    pub xid: String,
    pub data: Option<Vec<u8>>,
}

/// A length-prefixed byte string.
#[derive(Debug)]
pub struct StringWithSize {
    pub string: Vec<u8>,
}

impl View for StringWithSize {
    type V = Seq<u8>;

    open spec fn view(&self) -> Seq<u8> {
        self.string@
    }
}

/// A transaction's opening marker.
#[derive(Debug)]
pub struct MessageBegin {
    pub final_lsn: u64,
    pub commit_timestamp: Time,
    pub transaction_id: u32,
}

/// A transaction's closing marker.
#[derive(Debug)]
pub struct MessageCommit {
    pub flags: u8,
    pub lsn: u64,
    pub end_lsn: u64,
    pub commit_timestamp: Time,
}

/// An application-defined stream message.
#[derive(Debug)]
pub struct Message {
    pub transaction_id: Option<u32>,
    pub flags: u8,
    pub lsn: u64,
    pub prefix: String,
    pub length: u32,
    pub content: Vec<u8>,
}

/// The mathematical shape of a [`Message`].
pub struct MessageV {
    pub transaction_id: Option<u32>,
    pub flags: u8,
    pub lsn: u64,
    pub prefix: Seq<char>,
    pub length: u32,
    pub content: Seq<u8>,
}

impl View for Message {
    type V = MessageV;

    open spec fn view(&self) -> MessageV {
        MessageV {
            transaction_id: self.transaction_id,
            flags: self.flags,
            lsn: self.lsn,
            prefix: self.prefix@,
            length: self.length,
            content: self.content@,
        }
    }
}

/// The origin of replicated changes.
#[derive(Debug)]
pub struct MessageOrigin {
    pub lsn: u64,
    pub size: u32,
    pub name: String,
}

/// The mathematical shape of a [`MessageOrigin`].
pub struct MessageOriginV {
    pub lsn: u64,
    pub size: u32,
    pub name: Seq<char>,
}

impl View for MessageOrigin {
    type V = MessageOriginV;

    open spec fn view(&self) -> MessageOriginV {
        MessageOriginV { lsn: self.lsn, size: self.size, name: self.name@ }
    }
}

/// One column of a relation's schema.
#[derive(Debug)]
pub struct Column {
    pub flags: u8,
    pub name: String,
    pub type_oid: u32,
    pub type_modifier: u32,
}

/// The mathematical shape of a [`Column`].
pub struct ColumnV {
    pub flags: u8,
    pub name: Seq<char>,
    pub type_oid: u32,
    pub type_modifier: u32,
}

impl View for Column {
    type V = ColumnV;

    open spec fn view(&self) -> ColumnV {
        ColumnV {
            flags: self.flags,
            name: self.name@,
            type_oid: self.type_oid,
            type_modifier: self.type_modifier,
        }
    }
}

/// The views of a column list.
pub open spec fn cols_view(v: Seq<Column>) -> Seq<ColumnV> {
    v.map_values(|c: Column| c@)
}

/// A relation's schema announcement.
#[derive(Debug)]
pub struct MessageRelation {
    pub transaction_id: u32,
    pub relation_oid: u32,
    pub namespace: String,
    pub relation_name: String,
    pub replica_identity_setting: u8,
    pub number_of_columns: u16,
    pub columns: Vec<Column>,
}

/// The mathematical shape of a [`MessageRelation`].
pub struct MessageRelationV {
    pub transaction_id: u32,
    pub relation_oid: u32,
    pub namespace: Seq<char>,
    pub relation_name: Seq<char>,
    pub replica_identity_setting: u8,
    pub number_of_columns: u16,
    pub columns: Seq<ColumnV>,
}

impl View for MessageRelation {
    type V = MessageRelationV;

    open spec fn view(&self) -> MessageRelationV {
        MessageRelationV {
            transaction_id: self.transaction_id,
            relation_oid: self.relation_oid,
            namespace: self.namespace@,
            relation_name: self.relation_name@,
            replica_identity_setting: self.replica_identity_setting,
            number_of_columns: self.number_of_columns,
            columns: cols_view(self.columns@),
        }
    }
}

/// A type announcement.
#[derive(Debug)]
pub struct MessageType {
    pub transaction_id: Option<u32>,
    pub type_oid: u32,
    pub namespace_size: u32,
    pub namespace: StringWithSize,
    pub name_size: u32,
    pub name: StringWithSize,
}

/// The mathematical shape of a [`MessageType`].
pub struct MessageTypeV {
    pub transaction_id: Option<u32>,
    pub type_oid: u32,
    pub namespace_size: u32,
    pub namespace: Seq<u8>,
    pub name_size: u32,
    pub name: Seq<u8>,
}

impl View for MessageType {
    type V = MessageTypeV;

    open spec fn view(&self) -> MessageTypeV {
        MessageTypeV {
            transaction_id: self.transaction_id,
            type_oid: self.type_oid,
            namespace_size: self.namespace_size,
            namespace: self.namespace@,
            name_size: self.name_size,
            name: self.name@,
        }
    }
}

/// One tagged column value of a replicated row.
#[derive(Debug)]
pub enum ColumnValue {
    Null { length: u32, data: Vec<u8> },
    UnchangedToast { length: u32, data: Vec<u8> },
    Text { length: u32, data: Vec<u8> },
    Binary { length: u32, data: Vec<u8> },
}

/// The mathematical shape of a [`ColumnValue`].
pub enum ColumnValueV {
    Null { length: u32, data: Seq<u8> },
    UnchangedToast { length: u32, data: Seq<u8> },
    Text { length: u32, data: Seq<u8> },
    Binary { length: u32, data: Seq<u8> },
}

impl View for ColumnValue {
    type V = ColumnValueV;

    open spec fn view(&self) -> ColumnValueV {
        match self {
            ColumnValue::Null { length, data } => ColumnValueV::Null {
                length: *length,
                data: data@,
            },
            ColumnValue::UnchangedToast { length, data } => ColumnValueV::UnchangedToast {
                length: *length,
                data: data@,
            },
            ColumnValue::Text { length, data } => ColumnValueV::Text {
                length: *length,
                data: data@,
            },
            ColumnValue::Binary { length, data } => ColumnValueV::Binary {
                length: *length,
                data: data@,
            },
        }
    }
}

/// The views of a column-value list.
pub open spec fn colvals_view(v: Seq<ColumnValue>) -> Seq<ColumnValueV> {
    v.map_values(|c: ColumnValue| c@)
}

/// One replicated row: its column values in schema order.
#[derive(Debug)]
pub struct TupleData {
    pub number_of_columns: u16,
    pub columns: Vec<ColumnValue>,
}

/// The mathematical shape of a [`TupleData`].
pub struct TupleDataV {
    pub number_of_columns: u16,
    pub columns: Seq<ColumnValueV>,
}

impl View for TupleData {
    type V = TupleDataV;

    open spec fn view(&self) -> TupleDataV {
        TupleDataV {
            number_of_columns: self.number_of_columns,
            columns: colvals_view(self.columns@),
        }
    }
}

/// The key or old-row tuple that may precede an update's or delete's data.
#[derive(Debug)]
pub enum KeyOrOldTupleData {
    Key(TupleData),
    Old(TupleData),
}

/// The mathematical shape of a [`KeyOrOldTupleData`].
pub enum KeyOrOldTupleDataV {
    Key(TupleDataV),
    Old(TupleDataV),
}

impl View for KeyOrOldTupleData {
    type V = KeyOrOldTupleDataV;

    open spec fn view(&self) -> KeyOrOldTupleDataV {
        match self {
            KeyOrOldTupleData::Key(t) => KeyOrOldTupleDataV::Key(t@),
            KeyOrOldTupleData::Old(t) => KeyOrOldTupleDataV::Old(t@),
        }
    }
}

/// A freshly inserted row.
#[derive(Debug)]
pub struct MessageInsert {
    pub transaction_id: u16,
    pub relation_oid: u16,
    pub new_tuple: TupleData,
}

/// The mathematical shape of a [`MessageInsert`].
pub struct MessageInsertV {
    pub transaction_id: u16,
    pub relation_oid: u16,
    pub new_tuple: TupleDataV,
}

impl View for MessageInsert {
    type V = MessageInsertV;

    open spec fn view(&self) -> MessageInsertV {
        MessageInsertV {
            transaction_id: self.transaction_id,
            relation_oid: self.relation_oid,
            new_tuple: self.new_tuple@,
        }
    }
}

/// An updated row.
#[derive(Debug)]
pub struct MessageUpdate {
    pub transaction_id: u16,
    pub relation_oid: u16,
    pub key_or_old_tuple: Option<KeyOrOldTupleData>,
    pub new_tuple: TupleData,
}

/// The mathematical shape of a [`MessageUpdate`].
pub struct MessageUpdateV {
    pub transaction_id: u16,
    pub relation_oid: u16,
    pub key_or_old_tuple: Option<KeyOrOldTupleDataV>,
    pub new_tuple: TupleDataV,
}

impl View for MessageUpdate {
    type V = MessageUpdateV;

    open spec fn view(&self) -> MessageUpdateV {
        MessageUpdateV {
            transaction_id: self.transaction_id,
            relation_oid: self.relation_oid,
            key_or_old_tuple: match &self.key_or_old_tuple {
                Some(k) => Some(k@),
                None => None,
            },
            new_tuple: self.new_tuple@,
        }
    }
}

/// A deleted row.
#[derive(Debug)]
pub struct MessageDelete {
    pub transaction_id: u16,
    pub relation_oid: u16,
    pub key_or_old_tuple: Option<KeyOrOldTupleData>,
}

/// The mathematical shape of a [`MessageDelete`].
pub struct MessageDeleteV {
    pub transaction_id: u16,
    pub relation_oid: u16,
    pub key_or_old_tuple: Option<KeyOrOldTupleDataV>,
}

impl View for MessageDelete {
    type V = MessageDeleteV;

    open spec fn view(&self) -> MessageDeleteV {
        MessageDeleteV {
            transaction_id: self.transaction_id,
            relation_oid: self.relation_oid,
            key_or_old_tuple: match &self.key_or_old_tuple {
                Some(k) => Some(k@),
                None => None,
            },
        }
    }
}

/// A truncation of one or more relations.
#[derive(Debug)]
pub struct MessageTruncate {
    pub transaction_id: Option<u32>,
    pub number_of_relations: u32,
    pub option_bits: u8,
    pub relation_oids: Vec<u32>,
}

/// The mathematical shape of a [`MessageTruncate`].
pub struct MessageTruncateV {
    pub transaction_id: Option<u32>,
    pub number_of_relations: u32,
    pub option_bits: u8,
    pub relation_oids: Seq<u32>,
}

impl View for MessageTruncate {
    type V = MessageTruncateV;

    open spec fn view(&self) -> MessageTruncateV {
        MessageTruncateV {
            transaction_id: self.transaction_id,
            number_of_relations: self.number_of_relations,
            option_bits: self.option_bits,
            relation_oids: self.relation_oids@,
        }
    }
}

/// The start of a streamed transaction segment.
#[derive(Debug)]
pub struct MessageStreamStart {
    pub transaction_id: u32,
    pub is_first_segment: u8,
}

/// The commit of a streamed transaction.
#[derive(Debug)]
pub struct MessageStreamCommit {
    pub transaction_id: u32,
    pub flags: u8,
    pub lsn: u64,
    pub end_lsn: u64,
    pub commit_timestamp: u64,
}

/// The abort of a streamed transaction.
#[derive(Debug)]
pub struct MessageStreamAbort {
    pub transaction_id: u32,
    pub subtransaction_id: u32,
    pub lsn: u64,
    pub abort_timestamp: u64,
}

/// The opening of a two-phase prepare.
#[derive(Debug)]
pub struct MessageBeginPrepare {
    pub prepare_lsn: u64,
    pub end_lsn: u64,
    pub prepare_timestamp: u64,
    pub transaction_id: u32,
    pub gid_size: u32,
    pub gid: StringWithSize,
}

/// A completed two-phase prepare.
#[derive(Debug)]
pub struct MessagePrepare {
    pub flags: u8,
    pub prepare_lsn: u64,
    pub end_lsn: u64,
    pub prepare_timestamp: u64,
    pub transaction_id: u32,
    pub gid_size: u32,
    pub gid: StringWithSize,
}

/// The commit of a prepared transaction.
#[derive(Debug)]
pub struct MessageCommitPrepared {
    pub flags: u8,
    pub commit_lsn: u64,
    pub end_lsn: u64,
    pub commit_timestamp: u64,
    pub transaction_id: u32,
    pub gid_size: u32,
    pub gid: StringWithSize,
}

/// The rollback of a prepared transaction.
#[derive(Debug)]
pub struct MessageRollbackPrepared {
    pub flags: u8,
    pub prepare_end_lsn: u64,
    pub rollback_end_lsn: u64,
    pub prepare_timestamp: u64,
    pub rollback_timestamp: u64,
    pub transaction_id: u32,
    pub gid_size: u32,
    pub gid: StringWithSize,
}

/// The prepare of a streamed transaction.
#[derive(Debug)]
pub struct MessageStreamPrepare {
    pub flags: u8,
    pub prepare_lsn: u64,
    pub end_lsn: u64,
    pub prepare_timestamp: u64,
    pub transaction_id: u32,
    pub gid_size: u32,
    pub gid: StringWithSize,
}

/// A mathematical prepare-family message: the plain fields beside the gid
/// bytes.
pub struct GidMessageV {
    pub flags: u8,
    pub lsn_a: u64,
    pub lsn_b: u64,
    pub timestamp_a: u64,
    pub timestamp_b: u64,
    pub transaction_id: u32,
    pub gid_size: u32,
    pub gid: Seq<u8>,
}

/// One decoded logical-replication message.
#[derive(Debug)]
pub enum LogicalReplicationMessage {
    Begin(MessageBegin),
    Message(Message),
    Commit(MessageCommit),
    Origin(MessageOrigin),
    Relation(MessageRelation),
    Type(MessageType),
    Insert(MessageInsert),
    Update(MessageUpdate),
    Delete(MessageDelete),
    Truncate(MessageTruncate),
    StreamStart(MessageStreamStart),
    StreamStop,
    StreamCommit(MessageStreamCommit),
    StreamAbort(MessageStreamAbort),
    BeginPrepare(MessageBeginPrepare),
    Prepare(MessagePrepare),
    CommitPrepared(MessageCommitPrepared),
    RollbackPrepared(MessageRollbackPrepared),
    StreamPrepare(MessageStreamPrepare),
}

/// The mathematical shape of a [`LogicalReplicationMessage`].
pub enum LrmV {
    Begin(MessageBegin),
    Message(MessageV),
    Commit(MessageCommit),
    Origin(MessageOriginV),
    Relation(MessageRelationV),
    Type(MessageTypeV),
    Insert(MessageInsertV),
    Update(MessageUpdateV),
    Delete(MessageDeleteV),
    Truncate(MessageTruncateV),
    StreamStart(MessageStreamStart),
    StreamStop,
    StreamCommit(MessageStreamCommit),
    StreamAbort(MessageStreamAbort),
    BeginPrepare(GidMessageV),
    Prepare(GidMessageV),
    CommitPrepared(GidMessageV),
    RollbackPrepared(GidMessageV),
    StreamPrepare(GidMessageV),
}

impl View for LogicalReplicationMessage {
    type V = LrmV;

    open spec fn view(&self) -> LrmV {
        match self {
            LogicalReplicationMessage::Begin(m) => LrmV::Begin(*m),
            LogicalReplicationMessage::Message(m) => LrmV::Message(m@),
            LogicalReplicationMessage::Commit(m) => LrmV::Commit(*m),
            LogicalReplicationMessage::Origin(m) => LrmV::Origin(m@),
            LogicalReplicationMessage::Relation(m) => LrmV::Relation(m@),
            LogicalReplicationMessage::Type(m) => LrmV::Type(m@),
            LogicalReplicationMessage::Insert(m) => LrmV::Insert(m@),
            LogicalReplicationMessage::Update(m) => LrmV::Update(m@),
            LogicalReplicationMessage::Delete(m) => LrmV::Delete(m@),
            LogicalReplicationMessage::Truncate(m) => LrmV::Truncate(m@),
            LogicalReplicationMessage::StreamStart(m) => LrmV::StreamStart(*m),
            LogicalReplicationMessage::StreamStop => LrmV::StreamStop,
            LogicalReplicationMessage::StreamCommit(m) => LrmV::StreamCommit(*m),
            LogicalReplicationMessage::StreamAbort(m) => LrmV::StreamAbort(*m),
            LogicalReplicationMessage::BeginPrepare(m) => LrmV::BeginPrepare(
                GidMessageV {
                    flags: 0,
                    lsn_a: m.prepare_lsn,
                    lsn_b: m.end_lsn,
                    timestamp_a: m.prepare_timestamp,
                    timestamp_b: 0,
                    transaction_id: m.transaction_id,
                    gid_size: m.gid_size,
                    gid: m.gid@,
                },
            ),
            LogicalReplicationMessage::Prepare(m) => LrmV::Prepare(
                GidMessageV {
                    flags: m.flags,
                    lsn_a: m.prepare_lsn,
                    lsn_b: m.end_lsn,
                    timestamp_a: m.prepare_timestamp,
                    timestamp_b: 0,
                    transaction_id: m.transaction_id,
                    gid_size: m.gid_size,
                    gid: m.gid@,
                },
            ),
            LogicalReplicationMessage::CommitPrepared(m) => LrmV::CommitPrepared(
                GidMessageV {
                    flags: m.flags,
                    lsn_a: m.commit_lsn,
                    lsn_b: m.end_lsn,
                    timestamp_a: m.commit_timestamp,
                    timestamp_b: 0,
                    transaction_id: m.transaction_id,
                    gid_size: m.gid_size,
                    gid: m.gid@,
                },
            ),
            LogicalReplicationMessage::RollbackPrepared(m) => LrmV::RollbackPrepared(
                GidMessageV {
                    flags: m.flags,
                    lsn_a: m.prepare_end_lsn,
                    lsn_b: m.rollback_end_lsn,
                    timestamp_a: m.prepare_timestamp,
                    timestamp_b: m.rollback_timestamp,
                    transaction_id: m.transaction_id,
                    gid_size: m.gid_size,
                    gid: m.gid@,
                },
            ),
            LogicalReplicationMessage::StreamPrepare(m) => LrmV::StreamPrepare(
                GidMessageV {
                    flags: m.flags,
                    lsn_a: m.prepare_lsn,
                    lsn_b: m.end_lsn,
                    timestamp_a: m.prepare_timestamp,
                    timestamp_b: 0,
                    transaction_id: m.transaction_id,
                    gid_size: m.gid_size,
                    gid: m.gid@,
                },
            ),
        }
    }
}

/// What parsing an optional four-byte transaction id yields: the id is
/// read only where four bytes remain; a shorter tail leaves it absent and
/// consumes nothing.
pub open spec fn spec_parse_opt_u32(s: Seq<u8>, i: int) -> (Option<u32>, int) {
    if i + 4 <= s.len() {
        (Some(be_u32(s, i) as u32), i + 4)
    } else {
        (None, i)
    }
}

/// What parsing a Begin body at `i` yields.
pub open spec fn spec_parse_begin(s: Seq<u8>, i: int) -> Result<(MessageBegin, int), ParseError> {
    if i + 20 <= s.len() {
        Ok(
            (
                MessageBegin {
                    final_lsn: be_u64(s, i) as u64,
                    commit_timestamp: Time(pg_ts_secs(be_u64(s, i + 8)) as i64),
                    transaction_id: be_u32(s, i + 16) as u32,
                },
                i + 20,
            ),
        )
    } else {
        Err(ParseError::UnexpectedEof)
    }
}

/// What parsing a Commit body at `i` yields.
pub open spec fn spec_parse_commit(s: Seq<u8>, i: int) -> Result<(MessageCommit, int), ParseError> {
    if i + 25 <= s.len() {
        Ok(
            (
                MessageCommit {
                    flags: s[i],
                    lsn: be_u64(s, i + 1) as u64,
                    end_lsn: be_u64(s, i + 9) as u64,
                    commit_timestamp: Time(pg_ts_secs(be_u64(s, i + 17)) as i64),
                },
                i + 25,
            ),
        )
    } else {
        Err(ParseError::UnexpectedEof)
    }
}

/// What parsing an Origin body at `i` yields.
pub open spec fn spec_parse_origin(s: Seq<u8>, i: int) -> Result<
    (MessageOriginV, int),
    ParseError,
> {
    if i + 12 <= s.len() {
        match spec_cstring(s, i + 12) {
            Ok((name, j)) => Ok(
                (
                    MessageOriginV {
                        lsn: be_u64(s, i) as u64,
                        size: be_u32(s, i + 8) as u32,
                        name,
                    },
                    j,
                ),
            ),
            Err(e) => Err(e),
        }
    } else {
        Err(ParseError::UnexpectedEof)
    }
}

/// What parsing a stream-message body at `i` yields.
pub open spec fn spec_parse_message_m(s: Seq<u8>, i: int) -> Result<(MessageV, int), ParseError> {
    let (xid, j) = spec_parse_opt_u32(s, i);
    if j + 9 <= s.len() {
        match spec_cstring(s, j + 9) {
            Ok((prefix, k)) => {
                if k + 4 <= s.len() {
                    let length = be_u32(s, k) as u32;
                    if k + 4 + length <= s.len() {
                        Ok(
                            (
                                MessageV {
                                    transaction_id: xid,
                                    flags: s[j],
                                    lsn: be_u64(s, j + 1) as u64,
                                    prefix,
                                    length,
                                    content: s.subrange(k + 4, k + 4 + length),
                                },
                                k + 4 + length,
                            ),
                        )
                    } else {
                        Err(ParseError::UnexpectedEof)
                    }
                } else {
                    Err(ParseError::UnexpectedEof)
                }
            },
            Err(e) => Err(e),
        }
    } else {
        Err(ParseError::UnexpectedEof)
    }
}

/// What parsing one schema column at `i` yields.
pub open spec fn spec_parse_column(s: Seq<u8>, i: int) -> Result<(ColumnV, int), ParseError> {
    if i + 1 <= s.len() {
        match spec_cstring(s, i + 1) {
            Ok((name, j)) => {
                if j + 8 <= s.len() {
                    Ok(
                        (
                            ColumnV {
                                flags: s[i],
                                name,
                                type_oid: be_u32(s, j) as u32,
                                type_modifier: be_u32(s, j + 4) as u32,
                            },
                            j + 8,
                        ),
                    )
                } else {
                    Err(ParseError::UnexpectedEof)
                }
            },
            Err(e) => Err(e),
        }
    } else {
        Err(ParseError::UnexpectedEof)
    }
}

/// What parsing `n` consecutive schema columns at `i` yields.
pub open spec fn spec_parse_columns(s: Seq<u8>, i: int, n: int) -> Result<
    (Seq<ColumnV>, int),
    ParseError,
>
    decreases n,
{
    if n <= 0 {
        Ok((Seq::<ColumnV>::empty(), i))
    } else {
        match spec_parse_column(s, i) {
            Ok((c, j)) => match spec_parse_columns(s, j, n - 1) {
                Ok((rest, k)) => Ok((seq![c] + rest, k)),
                Err(e) => Err(e),
            },
            Err(e) => Err(e),
        }
    }
}

/// What parsing a Relation body at `i` yields.
pub open spec fn spec_parse_relation(s: Seq<u8>, i: int) -> Result<
    (MessageRelationV, int),
    ParseError,
> {
    if i + 8 <= s.len() {
        match spec_cstring(s, i + 8) {
            Ok((namespace, j)) => match spec_cstring(s, j) {
                Ok((relation_name, k)) => {
                    if k + 3 <= s.len() {
                        let n = be_u16(s, k + 1) as u16;
                        match spec_parse_columns(s, k + 3, n as int) {
                            Ok((columns, m)) => Ok(
                                (
                                    MessageRelationV {
                                        transaction_id: be_u32(s, i) as u32,
                                        relation_oid: be_u32(s, i + 4) as u32,
                                        namespace,
                                        relation_name,
                                        replica_identity_setting: s[k],
                                        number_of_columns: n,
                                        columns,
                                    },
                                    m,
                                ),
                            ),
                            Err(e) => Err(e),
                        }
                    } else {
                        Err(ParseError::UnexpectedEof)
                    }
                },
                Err(e) => Err(e),
            },
            Err(e) => Err(e),
        }
    } else {
        Err(ParseError::UnexpectedEof)
    }
}

/// What parsing a Type body at `i` yields.
pub open spec fn spec_parse_type(s: Seq<u8>, i: int) -> Result<(MessageTypeV, int), ParseError> {
    let (xid, j) = spec_parse_opt_u32(s, i);
    if j + 8 <= s.len() {
        let namespace_size = be_u32(s, j + 4) as u32;
        if j + 8 + namespace_size <= s.len() {
            let j2 = j + 8 + namespace_size;
            if j2 + 4 <= s.len() {
                let name_size = be_u32(s, j2) as u32;
                if j2 + 4 + name_size <= s.len() {
                    Ok(
                        (
                            MessageTypeV {
                                transaction_id: xid,
                                type_oid: be_u32(s, j) as u32,
                                namespace_size,
                                namespace: s.subrange(j + 8, j + 8 + namespace_size),
                                name_size,
                                name: s.subrange(j2 + 4, j2 + 4 + name_size),
                            },
                            j2 + 4 + name_size,
                        ),
                    )
                } else {
                    Err(ParseError::UnexpectedEof)
                }
            } else {
                Err(ParseError::UnexpectedEof)
            }
        } else {
            Err(ParseError::UnexpectedEof)
        }
    } else {
        Err(ParseError::UnexpectedEof)
    }
}

/// What parsing one tagged column value at `i` yields.
pub open spec fn spec_parse_colvalue(s: Seq<u8>, i: int) -> Result<
    (ColumnValueV, int),
    ParseError,
> {
    if i < s.len() {
        let tag = s[i];
        if tag == 110 || tag == 117 || tag == 116 || tag == 98 {
            if i + 5 <= s.len() {
                let length = be_u32(s, i + 1) as u32;
                if i + 5 + length <= s.len() {
                    let data = s.subrange(i + 5, i + 5 + length);
                    let v = if tag == 110 {
                        ColumnValueV::Null { length, data }
                    } else if tag == 117 {
                        ColumnValueV::UnchangedToast { length, data }
                    } else if tag == 116 {
                        ColumnValueV::Text { length, data }
                    } else {
                        ColumnValueV::Binary { length, data }
                    };
                    Ok((v, i + 5 + length))
                } else {
                    Err(ParseError::UnexpectedEof)
                }
            } else {
                Err(ParseError::UnexpectedEof)
            }
        } else {
            Err(ParseError::UnknownTag(tag))
        }
    } else {
        Err(ParseError::UnexpectedEof)
    }
}

/// What parsing `n` consecutive column values at `i` yields.
pub open spec fn spec_parse_colvalues(s: Seq<u8>, i: int, n: int) -> Result<
    (Seq<ColumnValueV>, int),
    ParseError,
>
    decreases n,
{
    if n <= 0 {
        Ok((Seq::<ColumnValueV>::empty(), i))
    } else {
        match spec_parse_colvalue(s, i) {
            Ok((c, j)) => match spec_parse_colvalues(s, j, n - 1) {
                Ok((rest, k)) => Ok((seq![c] + rest, k)),
                Err(e) => Err(e),
            },
            Err(e) => Err(e),
        }
    }
}

/// What parsing one row's tuple data at `i` yields.
pub open spec fn spec_parse_tuple(s: Seq<u8>, i: int) -> Result<(TupleDataV, int), ParseError> {
    if i + 2 <= s.len() {
        let n = be_u16(s, i) as u16;
        match spec_parse_colvalues(s, i + 2, n as int) {
            Ok((columns, j)) => Ok((TupleDataV { number_of_columns: n, columns }, j)),
            Err(e) => Err(e),
        }
    } else {
        Err(ParseError::UnexpectedEof)
    }
}

/// What parsing a tagged key-or-old tuple at `i` yields.
pub open spec fn spec_parse_keyorold(s: Seq<u8>, i: int) -> Result<
    (KeyOrOldTupleDataV, int),
    ParseError,
> {
    if i < s.len() {
        let tag = s[i];
        if tag == 75 {
            match spec_parse_tuple(s, i + 1) {
                Ok((t, j)) => Ok((KeyOrOldTupleDataV::Key(t), j)),
                Err(e) => Err(e),
            }
        } else if tag == 79 {
            match spec_parse_tuple(s, i + 1) {
                Ok((t, j)) => Ok((KeyOrOldTupleDataV::Old(t), j)),
                Err(e) => Err(e),
            }
        } else {
            Err(ParseError::UnknownTag(tag))
        }
    } else {
        Err(ParseError::UnexpectedEof)
    }
}

/// What parsing an Insert body at `i` yields.
pub open spec fn spec_parse_insert(s: Seq<u8>, i: int) -> Result<
    (MessageInsertV, int),
    ParseError,
> {
    if i + 5 <= s.len() {
        if s[i + 4] == 78 {
            match spec_parse_tuple(s, i + 5) {
                Ok((t, j)) => Ok(
                    (
                        MessageInsertV {
                            transaction_id: be_u16(s, i) as u16,
                            relation_oid: be_u16(s, i + 2) as u16,
                            new_tuple: t,
                        },
                        j,
                    ),
                ),
                Err(e) => Err(e),
            }
        } else {
            Err(ParseError::UnknownTag(s[i + 4]))
        }
    } else {
        Err(ParseError::UnexpectedEof)
    }
}

/// What attempting an optional key-or-old tuple at `i` yields: the tuple
/// where one parses, otherwise nothing with no input consumed.
pub open spec fn spec_parse_opt_keyorold(s: Seq<u8>, i: int) -> (
    Option<KeyOrOldTupleDataV>,
    int,
) {
    match spec_parse_keyorold(s, i) {
        Ok((k, j)) => (Some(k), j),
        Err(_) => (None, i),
    }
}

/// What parsing an Update body at `i` yields.
pub open spec fn spec_parse_update(s: Seq<u8>, i: int) -> Result<
    (MessageUpdateV, int),
    ParseError,
> {
    if i + 4 <= s.len() {
        let (key_or_old, j) = spec_parse_opt_keyorold(s, i + 4);
        if j < s.len() {
            if s[j] == 78 {
                match spec_parse_tuple(s, j + 1) {
                    Ok((t, k)) => Ok(
                        (
                            MessageUpdateV {
                                transaction_id: be_u16(s, i) as u16,
                                relation_oid: be_u16(s, i + 2) as u16,
                                key_or_old_tuple: key_or_old,
                                new_tuple: t,
                            },
                            k,
                        ),
                    ),
                    Err(e) => Err(e),
                }
            } else {
                Err(ParseError::UnknownTag(s[j]))
            }
        } else {
            Err(ParseError::UnexpectedEof)
        }
    } else {
        Err(ParseError::UnexpectedEof)
    }
}

/// What parsing a Delete body at `i` yields.
pub open spec fn spec_parse_delete(s: Seq<u8>, i: int) -> Result<
    (MessageDeleteV, int),
    ParseError,
> {
    if i + 4 <= s.len() {
        let (key_or_old, j) = spec_parse_opt_keyorold(s, i + 4);
        Ok(
            (
                MessageDeleteV {
                    transaction_id: be_u16(s, i) as u16,
                    relation_oid: be_u16(s, i + 2) as u16,
                    key_or_old_tuple: key_or_old,
                },
                j,
            ),
        )
    } else {
        Err(ParseError::UnexpectedEof)
    }
}

/// What parsing `n` consecutive four-byte relation ids at `i` yields.
pub open spec fn spec_parse_u32s(s: Seq<u8>, i: int, n: int) -> Result<
    (Seq<u32>, int),
    ParseError,
>
    decreases n,
{
    if n <= 0 {
        Ok((Seq::<u32>::empty(), i))
    } else {
        if i + 4 <= s.len() {
            match spec_parse_u32s(s, i + 4, n - 1) {
                Ok((rest, k)) => Ok((seq![be_u32(s, i) as u32] + rest, k)),
                Err(e) => Err(e),
            }
        } else {
            Err(ParseError::UnexpectedEof)
        }
    }
}

/// What parsing a Truncate body at `i` yields.
pub open spec fn spec_parse_truncate(s: Seq<u8>, i: int) -> Result<
    (MessageTruncateV, int),
    ParseError,
> {
    let (xid, j) = spec_parse_opt_u32(s, i);
    if j + 5 <= s.len() {
        let n = be_u32(s, j) as u32;
        match spec_parse_u32s(s, j + 5, n as int) {
            Ok((oids, k)) => Ok(
                (
                    MessageTruncateV {
                        transaction_id: xid,
                        number_of_relations: n,
                        option_bits: s[j + 4],
                        relation_oids: oids,
                    },
                    k,
                ),
            ),
            Err(e) => Err(e),
        }
    } else {
        Err(ParseError::UnexpectedEof)
    }
}

/// What parsing a StreamStart body at `i` yields.
pub open spec fn spec_parse_stream_start(s: Seq<u8>, i: int) -> Result<
    (MessageStreamStart, int),
    ParseError,
> {
    if i + 5 <= s.len() {
        Ok(
            (
                MessageStreamStart {
                    transaction_id: be_u32(s, i) as u32,
                    is_first_segment: s[i + 4],
                },
                i + 5,
            ),
        )
    } else {
        Err(ParseError::UnexpectedEof)
    }
}

/// What parsing a StreamCommit body at `i` yields.
pub open spec fn spec_parse_stream_commit(s: Seq<u8>, i: int) -> Result<
    (MessageStreamCommit, int),
    ParseError,
> {
    if i + 29 <= s.len() {
        Ok(
            (
                MessageStreamCommit {
                    transaction_id: be_u32(s, i) as u32,
                    flags: s[i + 4],
                    lsn: be_u64(s, i + 5) as u64,
                    end_lsn: be_u64(s, i + 13) as u64,
                    commit_timestamp: be_u64(s, i + 21) as u64,
                },
                i + 29,
            ),
        )
    } else {
        Err(ParseError::UnexpectedEof)
    }
}

/// What parsing a StreamAbort body at `i` yields.
pub open spec fn spec_parse_stream_abort(s: Seq<u8>, i: int) -> Result<
    (MessageStreamAbort, int),
    ParseError,
> {
    if i + 24 <= s.len() {
        Ok(
            (
                MessageStreamAbort {
                    transaction_id: be_u32(s, i) as u32,
                    subtransaction_id: be_u32(s, i + 4) as u32,
                    lsn: be_u64(s, i + 8) as u64,
                    abort_timestamp: be_u64(s, i + 16) as u64,
                },
                i + 24,
            ),
        )
    } else {
        Err(ParseError::UnexpectedEof)
    }
}

/// What parsing a BeginPrepare body at `i` yields.
pub open spec fn spec_parse_begin_prepare(s: Seq<u8>, i: int) -> Result<
    (GidMessageV, int),
    ParseError,
> {
    if i + 32 <= s.len() {
        let gid_size = be_u32(s, i + 28) as u32;
        if i + 32 + gid_size <= s.len() {
            Ok(
                (
                    GidMessageV {
                        flags: 0,
                        lsn_a: be_u64(s, i) as u64,
                        lsn_b: be_u64(s, i + 8) as u64,
                        timestamp_a: be_u64(s, i + 16) as u64,
                        timestamp_b: 0,
                        transaction_id: be_u32(s, i + 24) as u32,
                        gid_size,
                        gid: s.subrange(i + 32, i + 32 + gid_size),
                    },
                    i + 32 + gid_size,
                ),
            )
        } else {
            Err(ParseError::UnexpectedEof)
        }
    } else {
        Err(ParseError::UnexpectedEof)
    }
}

/// What parsing a Prepare, CommitPrepared or StreamPrepare body at `i`
/// yields: a flags byte, two positions, a timestamp, the transaction id
/// and the gid.
pub open spec fn spec_parse_flagged_prepare(s: Seq<u8>, i: int) -> Result<
    (GidMessageV, int),
    ParseError,
> {
    if i + 33 <= s.len() {
        let gid_size = be_u32(s, i + 29) as u32;
        if i + 33 + gid_size <= s.len() {
            Ok(
                (
                    GidMessageV {
                        flags: s[i],
                        lsn_a: be_u64(s, i + 1) as u64,
                        lsn_b: be_u64(s, i + 9) as u64,
                        timestamp_a: be_u64(s, i + 17) as u64,
                        timestamp_b: 0,
                        transaction_id: be_u32(s, i + 25) as u32,
                        gid_size,
                        gid: s.subrange(i + 33, i + 33 + gid_size),
                    },
                    i + 33 + gid_size,
                ),
            )
        } else {
            Err(ParseError::UnexpectedEof)
        }
    } else {
        Err(ParseError::UnexpectedEof)
    }
}

/// What parsing a RollbackPrepared body at `i` yields.
pub open spec fn spec_parse_rollback_prepared(s: Seq<u8>, i: int) -> Result<
    (GidMessageV, int),
    ParseError,
> {
    if i + 41 <= s.len() {
        let gid_size = be_u32(s, i + 37) as u32;
        if i + 41 + gid_size <= s.len() {
            Ok(
                (
                    GidMessageV {
                        flags: s[i],
                        lsn_a: be_u64(s, i + 1) as u64,
                        lsn_b: be_u64(s, i + 9) as u64,
                        timestamp_a: be_u64(s, i + 17) as u64,
                        timestamp_b: be_u64(s, i + 25) as u64,
                        transaction_id: be_u32(s, i + 33) as u32,
                        gid_size,
                        gid: s.subrange(i + 41, i + 41 + gid_size),
                    },
                    i + 41 + gid_size,
                ),
            )
        } else {
            Err(ParseError::UnexpectedEof)
        }
    } else {
        Err(ParseError::UnexpectedEof)
    }
}

/// What decoding one replication buffer yields: the message its leading
/// tag byte announces, parsed from the bytes that follow; trailing bytes
/// are ignored.
pub open spec fn spec_decode(s: Seq<u8>) -> Result<LrmV, ParseError> {
    if s.len() < 1 {
        Err(ParseError::UnexpectedEof)
    } else {
        let tag = s[0];
        if tag == 66 {
            match spec_parse_begin(s, 1) {
                Ok((m, _)) => Ok(LrmV::Begin(m)),
                Err(e) => Err(e),
            }
        } else if tag == 77 {
            match spec_parse_message_m(s, 1) {
                Ok((m, _)) => Ok(LrmV::Message(m)),
                Err(e) => Err(e),
            }
        } else if tag == 67 {
            match spec_parse_commit(s, 1) {
                Ok((m, _)) => Ok(LrmV::Commit(m)),
                Err(e) => Err(e),
            }
        } else if tag == 79 {
            match spec_parse_origin(s, 1) {
                Ok((m, _)) => Ok(LrmV::Origin(m)),
                Err(e) => Err(e),
            }
        } else if tag == 82 {
            match spec_parse_relation(s, 1) {
                Ok((m, _)) => Ok(LrmV::Relation(m)),
                Err(e) => Err(e),
            }
        } else if tag == 89 {
            match spec_parse_type(s, 1) {
                Ok((m, _)) => Ok(LrmV::Type(m)),
                Err(e) => Err(e),
            }
        } else if tag == 73 {
            match spec_parse_insert(s, 1) {
                Ok((m, _)) => Ok(LrmV::Insert(m)),
                Err(e) => Err(e),
            }
        } else if tag == 85 {
            match spec_parse_update(s, 1) {
                Ok((m, _)) => Ok(LrmV::Update(m)),
                Err(e) => Err(e),
            }
        } else if tag == 68 {
            match spec_parse_delete(s, 1) {
                Ok((m, _)) => Ok(LrmV::Delete(m)),
                Err(e) => Err(e),
            }
        } else if tag == 84 {
            match spec_parse_truncate(s, 1) {
                Ok((m, _)) => Ok(LrmV::Truncate(m)),
                Err(e) => Err(e),
            }
        } else if tag == 83 {
            match spec_parse_stream_start(s, 1) {
                Ok((m, _)) => Ok(LrmV::StreamStart(m)),
                Err(e) => Err(e),
            }
        } else if tag == 69 {
            Ok(LrmV::StreamStop)
        } else if tag == 99 {
            match spec_parse_stream_commit(s, 1) {
                Ok((m, _)) => Ok(LrmV::StreamCommit(m)),
                Err(e) => Err(e),
            }
        } else if tag == 65 {
            match spec_parse_stream_abort(s, 1) {
                Ok((m, _)) => Ok(LrmV::StreamAbort(m)),
                Err(e) => Err(e),
            }
        } else if tag == 98 {
            match spec_parse_begin_prepare(s, 1) {
                Ok((m, _)) => Ok(LrmV::BeginPrepare(m)),
                Err(e) => Err(e),
            }
        } else if tag == 80 {
            match spec_parse_flagged_prepare(s, 1) {
                Ok((m, _)) => Ok(LrmV::Prepare(m)),
                Err(e) => Err(e),
            }
        } else if tag == 75 {
            match spec_parse_flagged_prepare(s, 1) {
                Ok((m, _)) => Ok(LrmV::CommitPrepared(m)),
                Err(e) => Err(e),
            }
        } else if tag == 114 {
            match spec_parse_rollback_prepared(s, 1) {
                Ok((m, _)) => Ok(LrmV::RollbackPrepared(m)),
                Err(e) => Err(e),
            }
        } else if tag == 112 {
            match spec_parse_flagged_prepare(s, 1) {
                Ok((m, _)) => Ok(LrmV::StreamPrepare(m)),
                Err(e) => Err(e),
            }
        } else {
            Err(ParseError::UnknownTag(tag))
        }
    }
}

/// Converts a microsecond count since the PostgreSQL epoch to an instant.
fn pg_time_from_us(us: u64) -> (t: Time)
    ensures
        t.0 == pg_ts_secs(us as int),
{
    let q: u64 = us / 1000000u64;
    proof {
        assert(q <= us);
        assert(q < 18446744073710u64);
    }
    Time((946684800u64 + q) as i64)
}

/// Parses an optional four-byte transaction id, backtracking at end of
/// input.
fn parse_opt_u32(data: &[u8], pos: &mut usize) -> (r: Option<u32>)
    ensures
        (r, *final(pos) as int) == spec_parse_opt_u32(data@, *old(pos) as int),
{
    match read_u32(data, pos) {
        Some(v) => Some(v),
        None => None,
    }
}

/// Parses a Begin body.
fn parse_begin(data: &[u8], pos: &mut usize) -> (r: Result<MessageBegin, ParseError>)
    ensures
        match r {
            Ok(m) => spec_parse_begin(data@, *old(pos) as int) == Ok::<_, ParseError>(
                (m, *final(pos) as int),
            ) && *final(pos) <= data@.len(),
            Err(e) => spec_parse_begin(data@, *old(pos) as int) == Err::<(MessageBegin, int),
                ParseError,
            >(e),
        },
{
    let final_lsn = match read_u64(data, pos) {
        Some(v) => v,
        None => {
            return Err(ParseError::UnexpectedEof);
        },
    };
    let ts = match read_u64(data, pos) {
        Some(v) => v,
        None => {
            return Err(ParseError::UnexpectedEof);
        },
    };
    let transaction_id = match read_u32(data, pos) {
        Some(v) => v,
        None => {
            return Err(ParseError::UnexpectedEof);
        },
    };
    Ok(MessageBegin { final_lsn, commit_timestamp: pg_time_from_us(ts), transaction_id })
}

/// Parses a Commit body.
fn parse_commit(data: &[u8], pos: &mut usize) -> (r: Result<MessageCommit, ParseError>)
    ensures
        match r {
            Ok(m) => spec_parse_commit(data@, *old(pos) as int) == Ok::<_, ParseError>(
                (m, *final(pos) as int),
            ) && *final(pos) <= data@.len(),
            Err(e) => spec_parse_commit(data@, *old(pos) as int) == Err::<(MessageCommit, int),
                ParseError,
            >(e),
        },
{
    let flags = match read_u8(data, pos) {
        Some(v) => v,
        None => {
            return Err(ParseError::UnexpectedEof);
        },
    };
    let lsn = match read_u64(data, pos) {
        Some(v) => v,
        None => {
            return Err(ParseError::UnexpectedEof);
        },
    };
    let end_lsn = match read_u64(data, pos) {
        Some(v) => v,
        None => {
            return Err(ParseError::UnexpectedEof);
        },
    };
    let ts = match read_u64(data, pos) {
        Some(v) => v,
        None => {
            return Err(ParseError::UnexpectedEof);
        },
    };
    Ok(MessageCommit { flags, lsn, end_lsn, commit_timestamp: pg_time_from_us(ts) })
}

/// Parses an Origin body.
fn parse_origin(data: &[u8], pos: &mut usize) -> (r: Result<MessageOrigin, ParseError>)
    requires
        *old(pos) <= data@.len(),
    ensures
        match r {
            Ok(m) => spec_parse_origin(data@, *old(pos) as int) == Ok::<_, ParseError>(
                (m@, *final(pos) as int),
            ) && *final(pos) <= data@.len(),
            Err(e) => spec_parse_origin(data@, *old(pos) as int) == Err::<
                (MessageOriginV, int),
                ParseError,
            >(e),
        },
{
    let lsn = match read_u64(data, pos) {
        Some(v) => v,
        None => {
            return Err(ParseError::UnexpectedEof);
        },
    };
    let size = match read_u32(data, pos) {
        Some(v) => v,
        None => {
            return Err(ParseError::UnexpectedEof);
        },
    };
    let name = match read_cstring(data, pos) {
        Ok(v) => v,
        Err(e) => {
            return Err(e);
        },
    };
    Ok(MessageOrigin { lsn, size, name })
}

/// Parses a stream-message body.
fn parse_message_m(data: &[u8], pos: &mut usize) -> (r: Result<Message, ParseError>)
    requires
        *old(pos) <= data@.len(),
    ensures
        match r {
            Ok(m) => spec_parse_message_m(data@, *old(pos) as int) == Ok::<_, ParseError>(
                (m@, *final(pos) as int),
            ) && *final(pos) <= data@.len(),
            Err(e) => spec_parse_message_m(data@, *old(pos) as int) == Err::<(MessageV, int),
                ParseError,
            >(e),
        },
{
    let transaction_id = parse_opt_u32(data, pos);
    let flags = match read_u8(data, pos) {
        Some(v) => v,
        None => {
            return Err(ParseError::UnexpectedEof);
        },
    };
    let lsn = match read_u64(data, pos) {
        Some(v) => v,
        None => {
            return Err(ParseError::UnexpectedEof);
        },
    };
    let prefix = match read_cstring(data, pos) {
        Ok(v) => v,
        Err(e) => {
            return Err(e);
        },
    };
    let length = match read_u32(data, pos) {
        Some(v) => v,
        None => {
            return Err(ParseError::UnexpectedEof);
        },
    };
    let content = match read_bytes(data, pos, length as usize) {
        Some(v) => v,
        None => {
            return Err(ParseError::UnexpectedEof);
        },
    };
    Ok(Message { transaction_id, flags, lsn, prefix, length, content })
}

/// Parses one schema column.
fn parse_column(data: &[u8], pos: &mut usize) -> (r: Result<Column, ParseError>)
    requires
        *old(pos) <= data@.len(),
    ensures
        match r {
            Ok(c) => spec_parse_column(data@, *old(pos) as int) == Ok::<_, ParseError>(
                (c@, *final(pos) as int),
            ) && *final(pos) <= data@.len(),
            Err(e) => spec_parse_column(data@, *old(pos) as int) == Err::<(ColumnV, int),
                ParseError,
            >(e),
        },
{
    let flags = match read_u8(data, pos) {
        Some(v) => v,
        None => {
            return Err(ParseError::UnexpectedEof);
        },
    };
    let name = match read_cstring(data, pos) {
        Ok(v) => v,
        Err(e) => {
            return Err(e);
        },
    };
    let type_oid = match read_u32(data, pos) {
        Some(v) => v,
        None => {
            return Err(ParseError::UnexpectedEof);
        },
    };
    let type_modifier = match read_u32(data, pos) {
        Some(v) => v,
        None => {
            return Err(ParseError::UnexpectedEof);
        },
    };
    Ok(Column { flags, name, type_oid, type_modifier })
}

/// Parses `n` consecutive schema columns.
fn parse_columns(data: &[u8], pos: &mut usize, n: u16) -> (r: Result<Vec<Column>, ParseError>)
    requires
        *old(pos) <= data@.len(),
    ensures
        match r {
            Ok(v) => spec_parse_columns(data@, *old(pos) as int, n as int) == Ok::<
                _,
                ParseError,
            >((cols_view(v@), *final(pos) as int)) && *final(pos) <= data@.len(),
            Err(e) => spec_parse_columns(data@, *old(pos) as int, n as int) == Err::<
                (Seq<ColumnV>, int),
                ParseError,
            >(e),
        },
{
    let mut acc: Vec<Column> = Vec::new();
    let mut k: u16 = 0;
    while k < n
        invariant
            *pos <= data@.len(),
            0 <= k <= n,
            cols_view(acc@).len() == k,
            spec_parse_columns(data@, *old(pos) as int, n as int) == (
            match spec_parse_columns(data@, *pos as int, n - k) {
                Ok((rest, end)) => Ok::<_, ParseError>((cols_view(acc@) + rest, end)),
                Err(e) => Err::<(Seq<ColumnV>, int), ParseError>(e),
            }),
        decreases n - k,
    {
        let ghost pos0 = *pos;
        let ghost acc0 = acc@;
        match parse_column(data, pos) {
            Ok(c) => {
                acc.push(c);
                proof {
                    assert(cols_view(acc@) =~= cols_view(acc0).push(c@));
                    match spec_parse_columns(data@, *pos as int, n - k - 1) {
                        Ok((rest, end)) => {
                            assert(cols_view(acc0) + (seq![c@] + rest) =~= cols_view(acc@)
                                + rest);
                        },
                        Err(e) => {},
                    }
                }
            },
            Err(e) => {
                return Err(e);
            },
        }
        k = k + 1;
    }
    proof {
        assert(cols_view(acc@) + Seq::<ColumnV>::empty() =~= cols_view(acc@));
    }
    Ok(acc)
}

/// Parses a Relation body.
fn parse_relation(data: &[u8], pos: &mut usize) -> (r: Result<MessageRelation, ParseError>)
    requires
        *old(pos) <= data@.len(),
    ensures
        match r {
            Ok(m) => spec_parse_relation(data@, *old(pos) as int) == Ok::<_, ParseError>(
                (m@, *final(pos) as int),
            ) && *final(pos) <= data@.len(),
            Err(e) => spec_parse_relation(data@, *old(pos) as int) == Err::<
                (MessageRelationV, int),
                ParseError,
            >(e),
        },
{
    let transaction_id = match read_u32(data, pos) {
        Some(v) => v,
        None => {
            return Err(ParseError::UnexpectedEof);
        },
    };
    let relation_oid = match read_u32(data, pos) {
        Some(v) => v,
        None => {
            return Err(ParseError::UnexpectedEof);
        },
    };
    let namespace = match read_cstring(data, pos) {
        Ok(v) => v,
        Err(e) => {
            return Err(e);
        },
    };
    let relation_name = match read_cstring(data, pos) {
        Ok(v) => v,
        Err(e) => {
            return Err(e);
        },
    };
    let replica_identity_setting = match read_u8(data, pos) {
        Some(v) => v,
        None => {
            return Err(ParseError::UnexpectedEof);
        },
    };
    let number_of_columns = match read_u16(data, pos) {
        Some(v) => v,
        None => {
            return Err(ParseError::UnexpectedEof);
        },
    };
    let columns = match parse_columns(data, pos, number_of_columns) {
        Ok(v) => v,
        Err(e) => {
            return Err(e);
        },
    };
    Ok(
        MessageRelation {
            transaction_id,
            relation_oid,
            namespace,
            relation_name,
            replica_identity_setting,
            number_of_columns,
            columns,
        },
    )
}

/// Parses a Type body.
fn parse_type(data: &[u8], pos: &mut usize) -> (r: Result<MessageType, ParseError>)
    requires
        *old(pos) <= data@.len(),
    ensures
        match r {
            Ok(m) => spec_parse_type(data@, *old(pos) as int) == Ok::<_, ParseError>(
                (m@, *final(pos) as int),
            ) && *final(pos) <= data@.len(),
            Err(e) => spec_parse_type(data@, *old(pos) as int) == Err::<(MessageTypeV, int),
                ParseError,
            >(e),
        },
{
    let transaction_id = parse_opt_u32(data, pos);
    let type_oid = match read_u32(data, pos) {
        Some(v) => v,
        None => {
            return Err(ParseError::UnexpectedEof);
        },
    };
    let namespace_size = match read_u32(data, pos) {
        Some(v) => v,
        None => {
            return Err(ParseError::UnexpectedEof);
        },
    };
    let namespace = match read_bytes(data, pos, namespace_size as usize) {
        Some(v) => StringWithSize { string: v },
        None => {
            return Err(ParseError::UnexpectedEof);
        },
    };
    let name_size = match read_u32(data, pos) {
        Some(v) => v,
        None => {
            return Err(ParseError::UnexpectedEof);
        },
    };
    let name = match read_bytes(data, pos, name_size as usize) {
        Some(v) => StringWithSize { string: v },
        None => {
            return Err(ParseError::UnexpectedEof);
        },
    };
    Ok(MessageType { transaction_id, type_oid, namespace_size, namespace, name_size, name })
}

/// Parses one tagged column value.
fn parse_colvalue(data: &[u8], pos: &mut usize) -> (r: Result<ColumnValue, ParseError>)
    ensures
        match r {
            Ok(c) => spec_parse_colvalue(data@, *old(pos) as int) == Ok::<_, ParseError>(
                (c@, *final(pos) as int),
            ) && *final(pos) <= data@.len(),
            Err(e) => spec_parse_colvalue(data@, *old(pos) as int) == Err::<
                (ColumnValueV, int),
                ParseError,
            >(e),
        },
{
    let tag = match read_u8(data, pos) {
        Some(v) => v,
        None => {
            return Err(ParseError::UnexpectedEof);
        },
    };
    if tag == 110 || tag == 117 || tag == 116 || tag == 98 {
        let length = match read_u32(data, pos) {
            Some(v) => v,
            None => {
                return Err(ParseError::UnexpectedEof);
            },
        };
        let payload = match read_bytes(data, pos, length as usize) {
            Some(v) => v,
            None => {
                return Err(ParseError::UnexpectedEof);
            },
        };
        if tag == 110 {
            Ok(ColumnValue::Null { length, data: payload })
        } else if tag == 117 {
            Ok(ColumnValue::UnchangedToast { length, data: payload })
        } else if tag == 116 {
            Ok(ColumnValue::Text { length, data: payload })
        } else {
            Ok(ColumnValue::Binary { length, data: payload })
        }
    } else {
        Err(ParseError::UnknownTag(tag))
    }
}

/// Parses `n` consecutive column values.
fn parse_colvalues(data: &[u8], pos: &mut usize, n: u16) -> (r: Result<
    Vec<ColumnValue>,
    ParseError,
>)
    requires
        *old(pos) <= data@.len(),
    ensures
        match r {
            Ok(v) => spec_parse_colvalues(data@, *old(pos) as int, n as int) == Ok::<
                _,
                ParseError,
            >((colvals_view(v@), *final(pos) as int)) && *final(pos) <= data@.len(),
            Err(e) => spec_parse_colvalues(data@, *old(pos) as int, n as int) == Err::<
                (Seq<ColumnValueV>, int),
                ParseError,
            >(e),
        },
{
    let mut acc: Vec<ColumnValue> = Vec::new();
    let mut k: u16 = 0;
    while k < n
        invariant
            *pos <= data@.len(),
            0 <= k <= n,
            colvals_view(acc@).len() == k,
            spec_parse_colvalues(data@, *old(pos) as int, n as int) == (
            match spec_parse_colvalues(data@, *pos as int, n - k) {
                Ok((rest, end)) => Ok::<_, ParseError>((colvals_view(acc@) + rest, end)),
                Err(e) => Err::<(Seq<ColumnValueV>, int), ParseError>(e),
            }),
        decreases n - k,
    {
        let ghost acc0 = acc@;
        match parse_colvalue(data, pos) {
            Ok(c) => {
                acc.push(c);
                proof {
                    assert(colvals_view(acc@) =~= colvals_view(acc0).push(c@));
                    match spec_parse_colvalues(data@, *pos as int, n - k - 1) {
                        Ok((rest, end)) => {
                            assert(colvals_view(acc0) + (seq![c@] + rest) =~= colvals_view(
                                acc@,
                            ) + rest);
                        },
                        Err(e) => {},
                    }
                }
            },
            Err(e) => {
                return Err(e);
            },
        }
        k = k + 1;
    }
    proof {
        assert(colvals_view(acc@) + Seq::<ColumnValueV>::empty() =~= colvals_view(acc@));
    }
    Ok(acc)
}

/// Parses one row's tuple data.
fn parse_tuple(data: &[u8], pos: &mut usize) -> (r: Result<TupleData, ParseError>)
    requires
        *old(pos) <= data@.len(),
    ensures
        match r {
            Ok(t) => spec_parse_tuple(data@, *old(pos) as int) == Ok::<_, ParseError>(
                (t@, *final(pos) as int),
            ) && *final(pos) <= data@.len(),
            Err(e) => spec_parse_tuple(data@, *old(pos) as int) == Err::<(TupleDataV, int),
                ParseError,
            >(e),
        },
{
    let number_of_columns = match read_u16(data, pos) {
        Some(v) => v,
        None => {
            return Err(ParseError::UnexpectedEof);
        },
    };
    let columns = match parse_colvalues(data, pos, number_of_columns) {
        Ok(v) => v,
        Err(e) => {
            return Err(e);
        },
    };
    Ok(TupleData { number_of_columns, columns })
}

/// Parses a tagged key-or-old tuple.
fn parse_keyorold(data: &[u8], pos: &mut usize) -> (r: Result<KeyOrOldTupleData, ParseError>)
    requires
        *old(pos) <= data@.len(),
    ensures
        match r {
            Ok(t) => spec_parse_keyorold(data@, *old(pos) as int) == Ok::<_, ParseError>(
                (t@, *final(pos) as int),
            ) && *final(pos) <= data@.len(),
            Err(e) => spec_parse_keyorold(data@, *old(pos) as int) == Err::<
                (KeyOrOldTupleDataV, int),
                ParseError,
            >(e),
        },
{
    let tag = match read_u8(data, pos) {
        Some(v) => v,
        None => {
            return Err(ParseError::UnexpectedEof);
        },
    };
    if tag == 75 {
        match parse_tuple(data, pos) {
            Ok(t) => Ok(KeyOrOldTupleData::Key(t)),
            Err(e) => Err(e),
        }
    } else if tag == 79 {
        match parse_tuple(data, pos) {
            Ok(t) => Ok(KeyOrOldTupleData::Old(t)),
            Err(e) => Err(e),
        }
    } else {
        Err(ParseError::UnknownTag(tag))
    }
}

/// Parses an Insert body.
fn parse_insert(data: &[u8], pos: &mut usize) -> (r: Result<MessageInsert, ParseError>)
    requires
        *old(pos) <= data@.len(),
    ensures
        match r {
            Ok(m) => spec_parse_insert(data@, *old(pos) as int) == Ok::<_, ParseError>(
                (m@, *final(pos) as int),
            ) && *final(pos) <= data@.len(),
            Err(e) => spec_parse_insert(data@, *old(pos) as int) == Err::<
                (MessageInsertV, int),
                ParseError,
            >(e),
        },
{
    let transaction_id = match read_u16(data, pos) {
        Some(v) => v,
        None => {
            return Err(ParseError::UnexpectedEof);
        },
    };
    let relation_oid = match read_u16(data, pos) {
        Some(v) => v,
        None => {
            return Err(ParseError::UnexpectedEof);
        },
    };
    let magic = match read_u8(data, pos) {
        Some(v) => v,
        None => {
            return Err(ParseError::UnexpectedEof);
        },
    };
    if magic != 78 {
        return Err(ParseError::UnknownTag(magic));
    }
    let new_tuple = match parse_tuple(data, pos) {
        Ok(t) => t,
        Err(e) => {
            return Err(e);
        },
    };
    Ok(MessageInsert { transaction_id, relation_oid, new_tuple })
}

/// Parses an Update body.
fn parse_update(data: &[u8], pos: &mut usize) -> (r: Result<MessageUpdate, ParseError>)
    requires
        *old(pos) <= data@.len(),
    ensures
        match r {
            Ok(m) => spec_parse_update(data@, *old(pos) as int) == Ok::<_, ParseError>(
                (m@, *final(pos) as int),
            ) && *final(pos) <= data@.len(),
            Err(e) => spec_parse_update(data@, *old(pos) as int) == Err::<
                (MessageUpdateV, int),
                ParseError,
            >(e),
        },
{
    let transaction_id = match read_u16(data, pos) {
        Some(v) => v,
        None => {
            return Err(ParseError::UnexpectedEof);
        },
    };
    let relation_oid = match read_u16(data, pos) {
        Some(v) => v,
        None => {
            return Err(ParseError::UnexpectedEof);
        },
    };
    let save = *pos;
    let key_or_old_tuple = match parse_keyorold(data, pos) {
        Ok(t) => Some(t),
        Err(_) => {
            *pos = save;
            None
        },
    };
    let magic = match read_u8(data, pos) {
        Some(v) => v,
        None => {
            return Err(ParseError::UnexpectedEof);
        },
    };
    if magic != 78 {
        return Err(ParseError::UnknownTag(magic));
    }
    let new_tuple = match parse_tuple(data, pos) {
        Ok(t) => t,
        Err(e) => {
            return Err(e);
        },
    };
    Ok(MessageUpdate { transaction_id, relation_oid, key_or_old_tuple, new_tuple })
}

/// Parses a Delete body.
fn parse_delete(data: &[u8], pos: &mut usize) -> (r: Result<MessageDelete, ParseError>)
    requires
        *old(pos) <= data@.len(),
    ensures
        match r {
            Ok(m) => spec_parse_delete(data@, *old(pos) as int) == Ok::<_, ParseError>(
                (m@, *final(pos) as int),
            ) && *final(pos) <= data@.len(),
            Err(e) => spec_parse_delete(data@, *old(pos) as int) == Err::<
                (MessageDeleteV, int),
                ParseError,
            >(e),
        },
{
    let transaction_id = match read_u16(data, pos) {
        Some(v) => v,
        None => {
            return Err(ParseError::UnexpectedEof);
        },
    };
    let relation_oid = match read_u16(data, pos) {
        Some(v) => v,
        None => {
            return Err(ParseError::UnexpectedEof);
        },
    };
    let save = *pos;
    let key_or_old_tuple = match parse_keyorold(data, pos) {
        Ok(t) => Some(t),
        Err(_) => {
            *pos = save;
            None
        },
    };
    Ok(MessageDelete { transaction_id, relation_oid, key_or_old_tuple })
}

/// Parses `n` consecutive four-byte relation ids.
fn parse_u32s(data: &[u8], pos: &mut usize, n: u32) -> (r: Result<Vec<u32>, ParseError>)
    requires
        *old(pos) <= data@.len(),
    ensures
        match r {
            Ok(v) => spec_parse_u32s(data@, *old(pos) as int, n as int) == Ok::<_, ParseError>(
                (v@, *final(pos) as int),
            ) && *final(pos) <= data@.len(),
            Err(e) => spec_parse_u32s(data@, *old(pos) as int, n as int) == Err::<
                (Seq<u32>, int),
                ParseError,
            >(e),
        },
{
    let mut acc: Vec<u32> = Vec::new();
    let mut k: u32 = 0;
    while k < n
        invariant
            *pos <= data@.len(),
            0 <= k <= n,
            acc@.len() == k,
            spec_parse_u32s(data@, *old(pos) as int, n as int) == (
            match spec_parse_u32s(data@, *pos as int, n - k) {
                Ok((rest, end)) => Ok::<_, ParseError>((acc@ + rest, end)),
                Err(e) => Err::<(Seq<u32>, int), ParseError>(e),
            }),
        decreases n - k,
    {
        let ghost acc0 = acc@;
        match read_u32(data, pos) {
            Some(v) => {
                acc.push(v);
                proof {
                    match spec_parse_u32s(data@, *pos as int, n - k - 1) {
                        Ok((rest, end)) => {
                            assert(acc0 + (seq![v] + rest) =~= acc@ + rest);
                        },
                        Err(e) => {},
                    }
                }
            },
            None => {
                return Err(ParseError::UnexpectedEof);
            },
        }
        k = k + 1;
    }
    proof {
        assert(acc@ + Seq::<u32>::empty() =~= acc@);
    }
    Ok(acc)
}

/// Parses a Truncate body.
fn parse_truncate(data: &[u8], pos: &mut usize) -> (r: Result<MessageTruncate, ParseError>)
    requires
        *old(pos) <= data@.len(),
    ensures
        match r {
            Ok(m) => spec_parse_truncate(data@, *old(pos) as int) == Ok::<_, ParseError>(
                (m@, *final(pos) as int),
            ) && *final(pos) <= data@.len(),
            Err(e) => spec_parse_truncate(data@, *old(pos) as int) == Err::<
                (MessageTruncateV, int),
                ParseError,
            >(e),
        },
{
    let transaction_id = parse_opt_u32(data, pos);
    let number_of_relations = match read_u32(data, pos) {
        Some(v) => v,
        None => {
            return Err(ParseError::UnexpectedEof);
        },
    };
    let option_bits = match read_u8(data, pos) {
        Some(v) => v,
        None => {
            return Err(ParseError::UnexpectedEof);
        },
    };
    let relation_oids = match parse_u32s(data, pos, number_of_relations) {
        Ok(v) => v,
        Err(e) => {
            return Err(e);
        },
    };
    Ok(MessageTruncate { transaction_id, number_of_relations, option_bits, relation_oids })
}

/// Parses a StreamStart body.
fn parse_stream_start(data: &[u8], pos: &mut usize) -> (r: Result<MessageStreamStart, ParseError>)
    ensures
        match r {
            Ok(m) => spec_parse_stream_start(data@, *old(pos) as int) == Ok::<_, ParseError>(
                (m, *final(pos) as int),
            ) && *final(pos) <= data@.len(),
            Err(e) => spec_parse_stream_start(data@, *old(pos) as int) == Err::<
                (MessageStreamStart, int),
                ParseError,
            >(e),
        },
{
    let transaction_id = match read_u32(data, pos) {
        Some(v) => v,
        None => {
            return Err(ParseError::UnexpectedEof);
        },
    };
    let is_first_segment = match read_u8(data, pos) {
        Some(v) => v,
        None => {
            return Err(ParseError::UnexpectedEof);
        },
    };
    Ok(MessageStreamStart { transaction_id, is_first_segment })
}

/// Parses a StreamCommit body.
fn parse_stream_commit(data: &[u8], pos: &mut usize) -> (r: Result<
    MessageStreamCommit,
    ParseError,
>)
    ensures
        match r {
            Ok(m) => spec_parse_stream_commit(data@, *old(pos) as int) == Ok::<_, ParseError>(
                (m, *final(pos) as int),
            ) && *final(pos) <= data@.len(),
            Err(e) => spec_parse_stream_commit(data@, *old(pos) as int) == Err::<
                (MessageStreamCommit, int),
                ParseError,
            >(e),
        },
{
    let transaction_id = match read_u32(data, pos) {
        Some(v) => v,
        None => {
            return Err(ParseError::UnexpectedEof);
        },
    };
    let flags = match read_u8(data, pos) {
        Some(v) => v,
        None => {
            return Err(ParseError::UnexpectedEof);
        },
    };
    let lsn = match read_u64(data, pos) {
        Some(v) => v,
        None => {
            return Err(ParseError::UnexpectedEof);
        },
    };
    let end_lsn = match read_u64(data, pos) {
        Some(v) => v,
        None => {
            return Err(ParseError::UnexpectedEof);
        },
    };
    let commit_timestamp = match read_u64(data, pos) {
        Some(v) => v,
        None => {
            return Err(ParseError::UnexpectedEof);
        },
    };
    Ok(MessageStreamCommit { transaction_id, flags, lsn, end_lsn, commit_timestamp })
}

/// Parses a StreamAbort body.
fn parse_stream_abort(data: &[u8], pos: &mut usize) -> (r: Result<MessageStreamAbort, ParseError>)
    ensures
        match r {
            Ok(m) => spec_parse_stream_abort(data@, *old(pos) as int) == Ok::<_, ParseError>(
                (m, *final(pos) as int),
            ) && *final(pos) <= data@.len(),
            Err(e) => spec_parse_stream_abort(data@, *old(pos) as int) == Err::<
                (MessageStreamAbort, int),
                ParseError,
            >(e),
        },
{
    let transaction_id = match read_u32(data, pos) {
        Some(v) => v,
        None => {
            return Err(ParseError::UnexpectedEof);
        },
    };
    let subtransaction_id = match read_u32(data, pos) {
        Some(v) => v,
        None => {
            return Err(ParseError::UnexpectedEof);
        },
    };
    let lsn = match read_u64(data, pos) {
        Some(v) => v,
        None => {
            return Err(ParseError::UnexpectedEof);
        },
    };
    let abort_timestamp = match read_u64(data, pos) {
        Some(v) => v,
        None => {
            return Err(ParseError::UnexpectedEof);
        },
    };
    Ok(MessageStreamAbort { transaction_id, subtransaction_id, lsn, abort_timestamp })
}

/// Parses a BeginPrepare body.
fn parse_begin_prepare(data: &[u8], pos: &mut usize) -> (r: Result<
    MessageBeginPrepare,
    ParseError,
>)
    ensures
        match r {
            Ok(m) => spec_parse_begin_prepare(data@, *old(pos) as int) == Ok::<_, ParseError>(
                (
                    GidMessageV {
                        flags: 0,
                        lsn_a: m.prepare_lsn,
                        lsn_b: m.end_lsn,
                        timestamp_a: m.prepare_timestamp,
                        timestamp_b: 0,
                        transaction_id: m.transaction_id,
                        gid_size: m.gid_size,
                        gid: m.gid@,
                    },
                    *final(pos) as int,
                ),
            ) && *final(pos) <= data@.len(),
            Err(e) => spec_parse_begin_prepare(data@, *old(pos) as int) == Err::<
                (GidMessageV, int),
                ParseError,
            >(e),
        },
{
    let prepare_lsn = match read_u64(data, pos) {
        Some(v) => v,
        None => {
            return Err(ParseError::UnexpectedEof);
        },
    };
    let end_lsn = match read_u64(data, pos) {
        Some(v) => v,
        None => {
            return Err(ParseError::UnexpectedEof);
        },
    };
    let prepare_timestamp = match read_u64(data, pos) {
        Some(v) => v,
        None => {
            return Err(ParseError::UnexpectedEof);
        },
    };
    let transaction_id = match read_u32(data, pos) {
        Some(v) => v,
        None => {
            return Err(ParseError::UnexpectedEof);
        },
    };
    let gid_size = match read_u32(data, pos) {
        Some(v) => v,
        None => {
            return Err(ParseError::UnexpectedEof);
        },
    };
    let gid = match read_bytes(data, pos, gid_size as usize) {
        Some(v) => StringWithSize { string: v },
        None => {
            return Err(ParseError::UnexpectedEof);
        },
    };
    Ok(
        MessageBeginPrepare {
            prepare_lsn,
            end_lsn,
            prepare_timestamp,
            transaction_id,
            gid_size,
            gid,
        },
    )
}

/// Parses a Prepare, CommitPrepared or StreamPrepare body.
fn parse_flagged_prepare(data: &[u8], pos: &mut usize) -> (r: Result<
    (u8, u64, u64, u64, u32, u32, StringWithSize),
    ParseError,
>)
    ensures
        match r {
            Ok(m) => spec_parse_flagged_prepare(data@, *old(pos) as int) == Ok::<_, ParseError>(
                (
                    GidMessageV {
                        flags: m.0,
                        lsn_a: m.1,
                        lsn_b: m.2,
                        timestamp_a: m.3,
                        timestamp_b: 0,
                        transaction_id: m.4,
                        gid_size: m.5,
                        gid: m.6@,
                    },
                    *final(pos) as int,
                ),
            ) && *final(pos) <= data@.len(),
            Err(e) => spec_parse_flagged_prepare(data@, *old(pos) as int) == Err::<
                (GidMessageV, int),
                ParseError,
            >(e),
        },
{
    let flags = match read_u8(data, pos) {
        Some(v) => v,
        None => {
            return Err(ParseError::UnexpectedEof);
        },
    };
    let lsn_a = match read_u64(data, pos) {
        Some(v) => v,
        None => {
            return Err(ParseError::UnexpectedEof);
        },
    };
    let lsn_b = match read_u64(data, pos) {
        Some(v) => v,
        None => {
            return Err(ParseError::UnexpectedEof);
        },
    };
    let timestamp_a = match read_u64(data, pos) {
        Some(v) => v,
        None => {
            return Err(ParseError::UnexpectedEof);
        },
    };
    let transaction_id = match read_u32(data, pos) {
        Some(v) => v,
        None => {
            return Err(ParseError::UnexpectedEof);
        },
    };
    let gid_size = match read_u32(data, pos) {
        Some(v) => v,
        None => {
            return Err(ParseError::UnexpectedEof);
        },
    };
    let gid = match read_bytes(data, pos, gid_size as usize) {
        Some(v) => StringWithSize { string: v },
        None => {
            return Err(ParseError::UnexpectedEof);
        },
    };
    Ok((flags, lsn_a, lsn_b, timestamp_a, transaction_id, gid_size, gid))
}

/// Parses a RollbackPrepared body.
fn parse_rollback_prepared(data: &[u8], pos: &mut usize) -> (r: Result<
    MessageRollbackPrepared,
    ParseError,
>)
    ensures
        match r {
            Ok(m) => spec_parse_rollback_prepared(data@, *old(pos) as int) == Ok::<
                _,
                ParseError,
            >(
                (
                    GidMessageV {
                        flags: m.flags,
                        lsn_a: m.prepare_end_lsn,
                        lsn_b: m.rollback_end_lsn,
                        timestamp_a: m.prepare_timestamp,
                        timestamp_b: m.rollback_timestamp,
                        transaction_id: m.transaction_id,
                        gid_size: m.gid_size,
                        gid: m.gid@,
                    },
                    *final(pos) as int,
                ),
            ) && *final(pos) <= data@.len(),
            Err(e) => spec_parse_rollback_prepared(data@, *old(pos) as int) == Err::<
                (GidMessageV, int),
                ParseError,
            >(e),
        },
{
    let flags = match read_u8(data, pos) {
        Some(v) => v,
        None => {
            return Err(ParseError::UnexpectedEof);
        },
    };
    let prepare_end_lsn = match read_u64(data, pos) {
        Some(v) => v,
        None => {
            return Err(ParseError::UnexpectedEof);
        },
    };
    let rollback_end_lsn = match read_u64(data, pos) {
        Some(v) => v,
        None => {
            return Err(ParseError::UnexpectedEof);
        },
    };
    let prepare_timestamp = match read_u64(data, pos) {
        Some(v) => v,
        None => {
            return Err(ParseError::UnexpectedEof);
        },
    };
    let rollback_timestamp = match read_u64(data, pos) {
        Some(v) => v,
        None => {
            return Err(ParseError::UnexpectedEof);
        },
    };
    let transaction_id = match read_u32(data, pos) {
        Some(v) => v,
        None => {
            return Err(ParseError::UnexpectedEof);
        },
    };
    let gid_size = match read_u32(data, pos) {
        Some(v) => v,
        None => {
            return Err(ParseError::UnexpectedEof);
        },
    };
    let gid = match read_bytes(data, pos, gid_size as usize) {
        Some(v) => StringWithSize { string: v },
        None => {
            return Err(ParseError::UnexpectedEof);
        },
    };
    Ok(
        MessageRollbackPrepared {
            flags,
            prepare_end_lsn,
            rollback_end_lsn,
            prepare_timestamp,
            rollback_timestamp,
            transaction_id,
            gid_size,
            gid,
        },
    )
}

/// Decodes one replication buffer into the message its leading tag byte
/// announces; trailing bytes are ignored, an unknown tag or malformed body
/// is an error.
pub fn decode(msg: &[u8]) -> (r: Result<LogicalReplicationMessage, ParseError>)
    ensures
        match r {
            Ok(m) => spec_decode(msg@) == Ok::<LrmV, ParseError>(m@),
            Err(e) => spec_decode(msg@) == Err::<LrmV, ParseError>(e),
        },
{
    let mut pos: usize = 0;
    let tag = match read_u8(msg, &mut pos) {
        Some(v) => v,
        None => {
            return Err(ParseError::UnexpectedEof);
        },
    };
    if tag == 66 {
        match parse_begin(msg, &mut pos) {
            Ok(m) => Ok(LogicalReplicationMessage::Begin(m)),
            Err(e) => Err(e),
        }
    } else if tag == 77 {
        match parse_message_m(msg, &mut pos) {
            Ok(m) => Ok(LogicalReplicationMessage::Message(m)),
            Err(e) => Err(e),
        }
    } else if tag == 67 {
        match parse_commit(msg, &mut pos) {
            Ok(m) => Ok(LogicalReplicationMessage::Commit(m)),
            Err(e) => Err(e),
        }
    } else if tag == 79 {
        match parse_origin(msg, &mut pos) {
            Ok(m) => Ok(LogicalReplicationMessage::Origin(m)),
            Err(e) => Err(e),
        }
    } else if tag == 82 {
        match parse_relation(msg, &mut pos) {
            Ok(m) => Ok(LogicalReplicationMessage::Relation(m)),
            Err(e) => Err(e),
        }
    } else if tag == 89 {
        match parse_type(msg, &mut pos) {
            Ok(m) => Ok(LogicalReplicationMessage::Type(m)),
            Err(e) => Err(e),
        }
    } else if tag == 73 {
        match parse_insert(msg, &mut pos) {
            Ok(m) => Ok(LogicalReplicationMessage::Insert(m)),
            Err(e) => Err(e),
        }
    } else if tag == 85 {
        match parse_update(msg, &mut pos) {
            Ok(m) => Ok(LogicalReplicationMessage::Update(m)),
            Err(e) => Err(e),
        }
    } else if tag == 68 {
        match parse_delete(msg, &mut pos) {
            Ok(m) => Ok(LogicalReplicationMessage::Delete(m)),
            Err(e) => Err(e),
        }
    } else if tag == 84 {
        match parse_truncate(msg, &mut pos) {
            Ok(m) => Ok(LogicalReplicationMessage::Truncate(m)),
            Err(e) => Err(e),
        }
    } else if tag == 83 {
        match parse_stream_start(msg, &mut pos) {
            Ok(m) => Ok(LogicalReplicationMessage::StreamStart(m)),
            Err(e) => Err(e),
        }
    } else if tag == 69 {
        Ok(LogicalReplicationMessage::StreamStop)
    } else if tag == 99 {
        match parse_stream_commit(msg, &mut pos) {
            Ok(m) => Ok(LogicalReplicationMessage::StreamCommit(m)),
            Err(e) => Err(e),
        }
    } else if tag == 65 {
        match parse_stream_abort(msg, &mut pos) {
            Ok(m) => Ok(LogicalReplicationMessage::StreamAbort(m)),
            Err(e) => Err(e),
        }
    } else if tag == 98 {
        match parse_begin_prepare(msg, &mut pos) {
            Ok(m) => Ok(LogicalReplicationMessage::BeginPrepare(m)),
            Err(e) => Err(e),
        }
    } else if tag == 80 {
        match parse_flagged_prepare(msg, &mut pos) {
            Ok((flags, prepare_lsn, end_lsn, prepare_timestamp, transaction_id, gid_size, gid)) => {
                Ok(
                    LogicalReplicationMessage::Prepare(
                        MessagePrepare {
                            flags,
                            prepare_lsn,
                            end_lsn,
                            prepare_timestamp,
                            transaction_id,
                            gid_size,
                            gid,
                        },
                    ),
                )
            },
            Err(e) => Err(e),
        }
    } else if tag == 75 {
        match parse_flagged_prepare(msg, &mut pos) {
            Ok((flags, commit_lsn, end_lsn, commit_timestamp, transaction_id, gid_size, gid)) => {
                Ok(
                    LogicalReplicationMessage::CommitPrepared(
                        MessageCommitPrepared {
                            flags,
                            commit_lsn,
                            end_lsn,
                            commit_timestamp,
                            transaction_id,
                            gid_size,
                            gid,
                        },
                    ),
                )
            },
            Err(e) => Err(e),
        }
    } else if tag == 114 {
        match parse_rollback_prepared(msg, &mut pos) {
            Ok(m) => Ok(LogicalReplicationMessage::RollbackPrepared(m)),
            Err(e) => Err(e),
        }
    } else if tag == 112 {
        match parse_flagged_prepare(msg, &mut pos) {
            Ok((flags, prepare_lsn, end_lsn, prepare_timestamp, transaction_id, gid_size, gid)) => {
                Ok(
                    LogicalReplicationMessage::StreamPrepare(
                        MessageStreamPrepare {
                            flags,
                            prepare_lsn,
                            end_lsn,
                            prepare_timestamp,
                            transaction_id,
                            gid_size,
                            gid,
                        },
                    ),
                )
            },
            Err(e) => Err(e),
        }
    } else {
        Err(ParseError::UnknownTag(tag))
    }
}

} // verus!
