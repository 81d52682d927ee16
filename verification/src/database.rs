//! The peers that the server knows, in a database: the statements that it is sent, and what its
//! replies mean.

use crate::args::{get_arg_or, Environment};
use crate::text::{chars_of, number_up_to, part_of, text_equal};
use vstd::prelude::*;

verus! {

/// Where the connections of a pool lead.
#[derive(Debug)]
pub struct DbPool {
    pub url: String,
}

/// A device that the server knows.
#[derive(Debug)]
pub struct Peer {
    pub guid: Vec<u8>,
    pub id: String,
    pub uuid: Vec<u8>,
    pub pk: Vec<u8>,
    pub user: Option<Vec<u8>>,
    pub info: String,
    pub status: Option<i64>,
}

impl Default for Peer {
    fn default() -> (peer: Self)
        ensures
            peer.guid@.len() == 0,
            peer.id@.len() == 0,
            peer.uuid@.len() == 0,
            peer.pk@.len() == 0,
            peer.user is None,
            peer.info@.len() == 0,
            peer.status is None,
    {
        Peer {
            guid: Vec::new(),
            id: String::new(),
            uuid: Vec::new(),
            pk: Vec::new(),
            user: None,
            info: String::new(),
            status: None,
        }
    }
}

/// What became of a request for another id.
#[derive(Debug, PartialEq, Eq, Structural, Clone, Copy)]
pub enum ChangePeerIdOutcome {
    /// The peer has the new id.
    Changed,
    /// Another peer has that id.
    IdExists,
    /// There is no peer with this id, uuid and key under this guid.
    IdentityMismatch,
}

/// A value that stands for a question mark in a statement.
#[derive(Debug)]
pub enum SqlValue {
    Text(String),
    Blob(Vec<u8>),
}

/// A statement, and the values for its question marks in their order.
#[derive(Debug)]
pub struct Statement {
    pub sql: String,
    pub values: Vec<SqlValue>,
}

/// What a value is.
pub enum SqlValueView {
    Text(Seq<char>),
    Blob(Seq<u8>),
}

impl View for SqlValue {
    type V = SqlValueView;

    open spec fn view(&self) -> SqlValueView {
        match self {
            SqlValue::Text(text) => SqlValueView::Text(text@),
            SqlValue::Blob(bytes) => SqlValueView::Blob(bytes@),
        }
    }
}

impl Statement {
    /// The statement is `sql` with `values`.
    pub open spec fn says(self, sql: Seq<char>, values: Seq<SqlValueView>) -> bool {
        &&& self.sql@ == sql
        &&& self.values@.len() == values.len()
        &&& forall|i: int| 0 <= i < values.len() ==> (#[trigger] self.values@[i])@ == values[i]
    }
}

/// What the database replies to an update.
#[derive(Debug)]
pub enum UpdateReply {
    /// It was carried out, and so many rows were changed.
    Changed(u64),
    /// It was refused, with the code of an error if the database gave one.
    Refused(Option<String>),
}

/// The table of peers: an id is unique.
pub const CREATE_TABLES: &'static str = "
            create table if not exists peer (
                guid blob primary key not null,
                id varchar(100) not null,
                uuid blob not null,
                pk blob not null,
                created_at datetime not null default(current_timestamp),
                user blob,
                status tinyint,
                note varchar(300),
                info text not null
            ) without rowid;
            create unique index if not exists index_peer_id on peer (id);
            create index if not exists index_peer_user on peer (user);
            create index if not exists index_peer_created_at on peer (created_at);
            create index if not exists index_peer_status on peer (status);
        ";

/// Reads the peer with an id.
pub const GET_PEER: &'static str =
    "select guid, id, uuid, pk, user, status, info from peer where id = ?";

/// Adds a peer.
pub const INSERT_PEER: &'static str =
    "insert into peer(guid, id, uuid, pk, info) values(?, ?, ?, ?, ?)";

/// Replaces what may change of a peer.
pub const UPDATE_PK: &'static str = "update peer set id=?, pk=?, info=? where guid=?";

/// Changes the id of a peer, in one step, if all that identifies it is as given.
pub const CHANGE_PEER_ID: &'static str =
    "update peer set id=? where guid=? and id=? and uuid=? and pk=?";

/// The code with which the database refuses a second row with the same value in a unique index.
pub const UNIQUE_VIOLATION: &'static str = "2067";

/// The code with which the database refuses a second row with the same primary key.
pub const PRIMARY_KEY_VIOLATION: &'static str = "1555";

/// The number that a decimal numeral spells, where it fits in `usize`. A plus sign may stand in
/// front.
pub open spec fn decimal_usize(s: Seq<char>) -> Option<nat> {
    let digits = if s.len() > 0 && s[0] == '+' {
        s.drop_first()
    } else {
        s
    };
    match crate::text::number(digits, 10) {
        Some(n) => if digits.len() > 0 && n <= usize::MAX {
            Some(n)
        } else {
            None
        },
        None => None,
    }
}

/// How many connections to the database a setting allows: one where it is no number.
pub open spec fn connections(setting: Seq<char>) -> nat {
    match decimal_usize(setting) {
        Some(n) => n,
        None => 1,
    }
}

/// How many connections to the database a setting allows.
pub fn parse_connections(setting: &str) -> (count: usize)
    ensures
        count == connections(setting@),
{
    let chars = chars_of(setting);
    let start: usize = if chars.len() > 0 && chars[0] == '+' {
        1
    } else {
        0
    };
    let digits = part_of(&chars, start, chars.len());
    proof {
        if start == 1 {
            assert(digits@ =~= setting@.drop_first());
        } else {
            assert(digits@ =~= setting@);
        }
    }
    if digits.len() == 0 {
        return 1;
    }
    match number_up_to(&digits, 10, usize::MAX as u64) {
        Some(n) => n as usize,
        None => 1,
    }
}

/// How many connections to the database the settings allow.
pub fn max_connections(env: &Environment) -> (count: usize)
    ensures
        count == (match crate::args::arg_value(env@, "MAX_DATABASE_CONNECTIONS"@) {
            Some(setting) => connections(setting),
            None => 1,
        }),
{
    proof {
        reveal_strlit("1");
        assert("1"@ =~= seq!['1']);
        assert(seq!['1'].drop_last() =~= seq![]);
        reveal_with_fuel(crate::text::number, 2);
    }
    let setting = get_arg_or(env, "MAX_DATABASE_CONNECTIONS", "1".to_owned());
    parse_connections(setting.as_str())
}

fn text(s: &str) -> (value: SqlValue)
    ensures
        value@ == SqlValueView::Text(s@),
{
    SqlValue::Text(s.to_owned())
}

fn blob(bytes: &[u8]) -> (value: SqlValue)
    ensures
        value@ == SqlValueView::Blob(bytes@),
{
    SqlValue::Blob(vstd::slice::slice_to_vec(bytes))
}

/// The statement that reads the peer with an id.
pub fn get_peer(id: &str) -> (statement: Statement)
    ensures
        statement.says(GET_PEER@, seq![SqlValueView::Text(id@)]),
{
    Statement { sql: GET_PEER.to_owned(), values: vec![text(id)] }
}

/// The statement that adds a peer under a guid.
pub fn insert_peer_as(guid: &[u8], id: &str, uuid: &[u8], pk: &[u8], info: &str) -> (statement:
    Statement)
    ensures
        statement.says(
            INSERT_PEER@,
            seq![
                SqlValueView::Blob(guid@),
                SqlValueView::Text(id@),
                SqlValueView::Blob(uuid@),
                SqlValueView::Blob(pk@),
                SqlValueView::Text(info@),
            ],
        ),
{
    Statement {
        sql: INSERT_PEER.to_owned(),
        values: vec![blob(guid), text(id), blob(uuid), blob(pk), text(info)],
    }
}

/// `uuid::Uuid::new_v4`. Whatever it draws has 16 bytes, of which two tell that they were drawn at
/// random.
#[verifier::external_body]
pub fn new_guid() -> (guid: Vec<u8>)
    ensures
        guid@.len() == 16,
        guid@[6] / 16 == 4,
        guid@[8] / 64 == 2,
{
    uuid::Uuid::new_v4().as_bytes().to_vec()
}

/// A new guid, and the statement that adds a peer under it.
pub fn insert_peer(id: &str, uuid: &[u8], pk: &[u8], info: &str) -> (added: (Vec<u8>, Statement))
    ensures
        call_ensures(new_guid, (), added.0),
        added.0@.len() == 16,
        added.0@[6] / 16 == 4,
        added.0@[8] / 64 == 2,
        added.1.says(
            INSERT_PEER@,
            seq![
                SqlValueView::Blob(added.0@),
                SqlValueView::Text(id@),
                SqlValueView::Blob(uuid@),
                SqlValueView::Blob(pk@),
                SqlValueView::Text(info@),
            ],
        ),
{
    let draw = new_guid;
    let guid = draw();
    let statement = insert_peer_as(&guid, id, uuid, pk, info);
    (guid, statement)
}

/// The statement that replaces the id, the key and the information of a peer.
pub fn update_pk(guid: &[u8], id: &str, pk: &[u8], info: &str) -> (statement: Statement)
    ensures
        statement.says(
            UPDATE_PK@,
            seq![
                SqlValueView::Text(id@),
                SqlValueView::Blob(pk@),
                SqlValueView::Text(info@),
                SqlValueView::Blob(guid@),
            ],
        ),
{
    Statement {
        sql: UPDATE_PK.to_owned(),
        values: vec![text(id), blob(pk), text(info), blob(guid)],
    }
}

/// The statement that changes the id of a peer, bound to all that identifies it.
pub fn change_peer_id(guid: &[u8], old_id: &str, new_id: &str, uuid: &[u8], pk: &[u8]) -> (statement:
    Statement)
    ensures
        statement.says(
            CHANGE_PEER_ID@,
            seq![
                SqlValueView::Text(new_id@),
                SqlValueView::Blob(guid@),
                SqlValueView::Text(old_id@),
                SqlValueView::Blob(uuid@),
                SqlValueView::Blob(pk@),
            ],
        ),
{
    Statement {
        sql: CHANGE_PEER_ID.to_owned(),
        values: vec![text(new_id), blob(guid), text(old_id), blob(uuid), blob(pk)],
    }
}

/// What the reply to `change_peer_id` means. The refusals that are no outcome are left to the
/// caller.
pub fn change_peer_id_outcome(reply: &UpdateReply) -> (outcome: Option<ChangePeerIdOutcome>)
    ensures
        outcome == (match *reply {
            UpdateReply::Changed(rows) => Some(
                if rows == 1 {
                    ChangePeerIdOutcome::Changed
                } else {
                    ChangePeerIdOutcome::IdentityMismatch
                },
            ),
            UpdateReply::Refused(Some(code)) => if code@ == UNIQUE_VIOLATION@ || code@
                == PRIMARY_KEY_VIOLATION@ {
                Some(ChangePeerIdOutcome::IdExists)
            } else {
                None
            },
            UpdateReply::Refused(None) => None,
        }),
{
    match reply {
        UpdateReply::Changed(rows) => if *rows == 1 {
            Some(ChangePeerIdOutcome::Changed)
        } else {
            Some(ChangePeerIdOutcome::IdentityMismatch)
        },
        UpdateReply::Refused(Some(code)) => if text_equal(code.as_str(), UNIQUE_VIOLATION)
            || text_equal(code.as_str(), PRIMARY_KEY_VIOLATION) {
            Some(ChangePeerIdOutcome::IdExists)
        } else {
            None
        },
        UpdateReply::Refused(None) => None,
    }
}

/// A count is a number in decimal: in its shortest form, with any zeros in front, and with a plus
/// sign in front of these or not. Nothing else is, nor a number that does not fit.
pub proof fn law_counts(s: Seq<char>, n: nat)
    ensures
        decimal_usize(s) == Some(n) <==> n <= usize::MAX && exists|k: nat|
            {
                ||| s == #[trigger] crate::text::zeros(k) + crate::text::decimal(n)
                ||| s == seq!['+'] + (crate::text::zeros(k) + crate::text::decimal(n))
            },
{
    if decimal_usize(s) == Some(n) {
        if s.len() > 0 && s[0] == '+' {
            let k = crate::text::law_read_number_is_decimal(s.drop_first());
            let written = crate::text::zeros(k) + crate::text::decimal(n);
            assert(s =~= seq!['+'] + written);
        } else {
            let k = crate::text::law_read_number_is_decimal(s);
            let written = crate::text::zeros(k) + crate::text::decimal(n);
            assert(s == written);
        }
    }
    if n <= usize::MAX && exists|k: nat|
        {
            ||| s == #[trigger] crate::text::zeros(k) + crate::text::decimal(n)
            ||| s == seq!['+'] + (crate::text::zeros(k) + crate::text::decimal(n))
        } {
        let k = choose|k: nat|
            {
                ||| s == #[trigger] crate::text::zeros(k) + crate::text::decimal(n)
                ||| s == seq!['+'] + (crate::text::zeros(k) + crate::text::decimal(n))
            };
        let written = crate::text::zeros(k) + crate::text::decimal(n);
        crate::text::law_decimal_is_read_back(n, k);
        crate::text::law_decimal_form(n);
        if s == written {
            if k == 0 {
                assert(written[0] == crate::text::decimal(n)[0]);
            } else {
                assert(written[0] == '0');
            }
        } else {
            assert(s.drop_first() =~= written);
        }
    }
}

/// A setting that is a count allows so many connections; every other setting allows one, and so
/// does none.
pub proof fn law_connections(
    setting: &str,
    count: usize,
    env: &Environment,
    allowed: usize,
    n: nat,
)
    requires
        call_ensures(parse_connections, (setting,), count),
        call_ensures(max_connections, (env,), allowed),
    ensures
        decimal_usize(setting@) == Some(n) ==> count == n,
        decimal_usize(setting@) is None ==> count == 1,
        match crate::args::arg_value(env@, "MAX_DATABASE_CONNECTIONS"@) {
            Some(text) => match decimal_usize(text) {
                Some(m) => allowed == m,
                None => allowed == 1,
            },
            None => allowed == 1,
        },
{
}

/// A statement that says a text and values holds that text, and a value for each, in order.
pub proof fn law_statement_says(statement: Statement, sql: Seq<char>, values: Seq<SqlValueView>)
    ensures
        statement.says(sql, values) ==> {
            &&& statement.sql@ == sql
            &&& statement.values@.len() == values.len()
            &&& forall|i: int|
                0 <= i < values.len() ==> match #[trigger] statement.values@[i] {
                    SqlValue::Text(text) => values[i] == SqlValueView::Text(text@),
                    SqlValue::Blob(bytes) => values[i] == SqlValueView::Blob(bytes@),
                }
        },
{
}

/// What the statements say: a peer is read by its id alone; it is added with all that identifies it;
/// its id, key and information are replaced under its guid; its id is changed only where its guid,
/// its old id, its uuid and its key are as given.
pub proof fn law_statements(
    guid: &[u8],
    id: &str,
    new_id: &str,
    uuid: &[u8],
    pk: &[u8],
    info: &str,
    read: Statement,
    added: Statement,
    updated: Statement,
    changed: Statement,
)
    requires
        call_ensures(get_peer, (id,), read),
        call_ensures(insert_peer_as, (guid, id, uuid, pk, info), added),
        call_ensures(update_pk, (guid, id, pk, info), updated),
        call_ensures(change_peer_id, (guid, id, new_id, uuid, pk), changed),
    ensures
        read.sql@ == "select guid, id, uuid, pk, user, status, info from peer where id = ?"@,
        read.values@.len() == 1,
        read.values@[0]@ == SqlValueView::Text(id@),
        added.sql@ == "insert into peer(guid, id, uuid, pk, info) values(?, ?, ?, ?, ?)"@,
        added.values@.len() == 5,
        added.values@[0]@ == SqlValueView::Blob(guid@),
        added.values@[1]@ == SqlValueView::Text(id@),
        added.values@[2]@ == SqlValueView::Blob(uuid@),
        added.values@[3]@ == SqlValueView::Blob(pk@),
        added.values@[4]@ == SqlValueView::Text(info@),
        updated.sql@ == "update peer set id=?, pk=?, info=? where guid=?"@,
        updated.values@.len() == 4,
        updated.values@[0]@ == SqlValueView::Text(id@),
        updated.values@[1]@ == SqlValueView::Blob(pk@),
        updated.values@[2]@ == SqlValueView::Text(info@),
        updated.values@[3]@ == SqlValueView::Blob(guid@),
        changed.sql@ == "update peer set id=? where guid=? and id=? and uuid=? and pk=?"@,
        changed.values@.len() == 5,
        changed.values@[0]@ == SqlValueView::Text(new_id@),
        changed.values@[1]@ == SqlValueView::Blob(guid@),
        changed.values@[2]@ == SqlValueView::Text(id@),
        changed.values@[3]@ == SqlValueView::Blob(uuid@),
        changed.values@[4]@ == SqlValueView::Blob(pk@),
{
}

/// A new peer is added under the guid that is given back.
pub proof fn law_new_peer(
    id: &str,
    uuid: &[u8],
    pk: &[u8],
    info: &str,
    added: (Vec<u8>, Statement),
)
    requires
        call_ensures(insert_peer, (id, uuid, pk, info), added),
    ensures
        call_ensures(new_guid, (), added.0),
        added.1.sql@ == "insert into peer(guid, id, uuid, pk, info) values(?, ?, ?, ?, ?)"@,
        added.1.values@.len() == 5,
        added.1.values@[0]@ == SqlValueView::Blob(added.0@),
        added.1.values@[1]@ == SqlValueView::Text(id@),
        added.1.values@[2]@ == SqlValueView::Blob(uuid@),
        added.1.values@[3]@ == SqlValueView::Blob(pk@),
        added.1.values@[4]@ == SqlValueView::Text(info@),
{
}

/// What a reply means: the id was changed exactly where one row was; it exists exactly where the
/// database refused with the code of a violated unique index or primary key; there is a mismatch
/// where any other number of rows was changed; every other refusal is no outcome.
pub proof fn law_outcomes(reply: &UpdateReply, outcome: Option<ChangePeerIdOutcome>)
    requires
        call_ensures(change_peer_id_outcome, (reply,), outcome),
    ensures
        outcome == Some(ChangePeerIdOutcome::Changed) <==> *reply == UpdateReply::Changed(1),
        outcome == Some(ChangePeerIdOutcome::IdentityMismatch) <==> (*reply matches
            UpdateReply::Changed(rows) && rows != 1),
        outcome == Some(ChangePeerIdOutcome::IdExists) <==> (*reply matches UpdateReply::Refused(
            Some(code),
        ) && (code@ == "2067"@ || code@ == "1555"@)),
{
}

/// The table of peers: one row for a guid, and one for an id.
pub proof fn law_table_of_peers()
    ensures
        CREATE_TABLES@ == "
            create table if not exists peer (
                guid blob primary key not null,
                id varchar(100) not null,
                uuid blob not null,
                pk blob not null,
                created_at datetime not null default(current_timestamp),
                user blob,
                status tinyint,
                note varchar(300),
                info text not null
            ) without rowid;
            create unique index if not exists index_peer_id on peer (id);
            create index if not exists index_peer_user on peer (user);
            create index if not exists index_peer_created_at on peer (created_at);
            create index if not exists index_peer_status on peer (status);
        "@,
{
}

} // verus!
