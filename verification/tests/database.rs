use ongrow_server::args::Environment;
use ongrow_server::database::{
    change_peer_id, change_peer_id_outcome, get_peer, insert_peer, insert_peer_as,
    max_connections, parse_connections, update_pk, ChangePeerIdOutcome, DbPool, Peer, SqlValue,
    Statement, UpdateReply, CREATE_TABLES,
};
use sqlx::sqlite::SqliteRow;
use sqlx::{ConnectOptions, Connection, Executor, Row, SqliteConnection};
use std::str::FromStr;

struct Db {
    runtime: tokio::runtime::Runtime,
    connection: SqliteConnection,
}

impl Db {
    fn new() -> Db {
        let runtime = tokio::runtime::Builder::new_current_thread()
            .enable_all()
            .build()
            .unwrap();
        let connection = runtime.block_on(async {
            let mut options =
                sqlx::sqlite::SqliteConnectOptions::from_str("sqlite::memory:").unwrap();
            options.disable_statement_logging();
            let mut connection = SqliteConnection::connect_with(&options).await.unwrap();
            connection.execute(CREATE_TABLES).await.unwrap();
            connection
        });
        Db { runtime, connection }
    }

    fn run(&mut self, statement: &Statement) -> UpdateReply {
        let Db { runtime, connection } = self;
        match runtime.block_on(bound(statement).execute(connection)) {
            Ok(result) => UpdateReply::Changed(result.rows_affected()),
            Err(error) => UpdateReply::Refused(
                error
                    .as_database_error()
                    .and_then(|error| error.code())
                    .map(|code| code.to_string()),
            ),
        }
    }

    fn fetch(&mut self, statement: &Statement) -> Option<SqliteRow> {
        let Db { runtime, connection } = self;
        runtime
            .block_on(bound(statement).fetch_optional(connection))
            .unwrap()
    }

    fn insert(&mut self, id: &str, uuid: &[u8], pk: &[u8], info: &str) -> Vec<u8> {
        let (guid, statement) = insert_peer(id, uuid, pk, info);
        assert!(matches!(self.run(&statement), UpdateReply::Changed(1)));
        guid
    }
}

fn bound(
    statement: &Statement,
) -> sqlx::query::Query<'_, sqlx::Sqlite, sqlx::sqlite::SqliteArguments<'_>> {
    let mut query = sqlx::query(&statement.sql);
    for value in &statement.values {
        query = match value {
            SqlValue::Text(text) => query.bind(text),
            SqlValue::Blob(bytes) => query.bind(bytes),
        };
    }
    query
}

#[test]
fn test_insert() {
    let mut db = Db::new();
    for i in 0..10000 {
        db.insert(&i.to_string(), &[], &[], "");
    }
    for i in 0..10000 {
        assert!(db.fetch(&get_peer(&i.to_string())).is_some());
    }
}

#[test]
fn change_peer_id_is_atomic_and_identity_bound() {
    let mut db = Db::new();
    let uuid_a = b"uuid-a";
    let public_key_a = b"public-key-a";
    let guid_a = db.insert("123456789", uuid_a, public_key_a, "{}");
    db.insert("OG-0002", b"uuid-b", b"public-key-b", "{}");

    let reply = db.run(&change_peer_id(&guid_a, "123456789", "OG-0001", uuid_a, public_key_a));
    assert_eq!(
        change_peer_id_outcome(&reply).unwrap(),
        ChangePeerIdOutcome::Changed
    );
    assert!(db.fetch(&get_peer("123456789")).is_none());
    assert!(db.fetch(&get_peer("OG-0001")).is_some());

    let reply = db.run(&change_peer_id(&guid_a, "OG-0001", "OG-0002", uuid_a, public_key_a));
    assert_eq!(
        change_peer_id_outcome(&reply).unwrap(),
        ChangePeerIdOutcome::IdExists
    );
    let reply = db.run(&change_peer_id(&guid_a, "OG-0001", "OG-0003", b"wrong-uuid", public_key_a));
    assert_eq!(
        change_peer_id_outcome(&reply).unwrap(),
        ChangePeerIdOutcome::IdentityMismatch
    );
}

#[test]
fn identity_is_guid_id_uuid_and_key() {
    let mut db = Db::new();
    let guid = db.insert("1", b"uuid", b"pk", "");
    for statement in [
        change_peer_id(&guid, "2", "OG-0001", b"uuid", b"pk"),
        change_peer_id(b"guid", "1", "OG-0001", b"uuid", b"pk"),
        change_peer_id(&guid, "1", "OG-0001", b"uuid-", b"pk"),
        change_peer_id(&guid, "1", "OG-0001", b"uuid", b"pk-"),
    ] {
        let reply = db.run(&statement);
        assert_eq!(
            change_peer_id_outcome(&reply),
            Some(ChangePeerIdOutcome::IdentityMismatch)
        );
    }
    assert!(db.fetch(&get_peer("1")).is_some());
}

#[test]
fn rows_hold_what_was_inserted_and_updated() {
    let mut db = Db::new();
    let guid = db.insert("1", b"uuid", b"pk", "{\"ip\":\"\"}");
    let row = db.fetch(&get_peer("1")).unwrap();
    assert_eq!(row.get::<Vec<u8>, _>("guid"), guid);
    assert_eq!(row.get::<String, _>("id"), "1");
    assert_eq!(row.get::<Vec<u8>, _>("uuid"), b"uuid");
    assert_eq!(row.get::<Vec<u8>, _>("pk"), b"pk");
    assert_eq!(row.get::<Option<Vec<u8>>, _>("user"), None);
    assert_eq!(row.get::<Option<i64>, _>("status"), None);
    assert_eq!(row.get::<String, _>("info"), "{\"ip\":\"\"}");

    assert!(matches!(
        db.run(&update_pk(&guid, "2", b"other", "i")),
        UpdateReply::Changed(1)
    ));
    assert!(db.fetch(&get_peer("1")).is_none());
    let row = db.fetch(&get_peer("2")).unwrap();
    assert_eq!(row.get::<Vec<u8>, _>("guid"), guid);
    assert_eq!(row.get::<Vec<u8>, _>("uuid"), b"uuid");
    assert_eq!(row.get::<Vec<u8>, _>("pk"), b"other");
    assert_eq!(row.get::<String, _>("info"), "i");

    match db.run(&insert_peer_as(&guid, "3", b"", b"", "")) {
        UpdateReply::Refused(Some(code)) => assert_eq!(code, "1555"),
        _ => panic!("a guid was used twice"),
    }
}

#[test]
fn replies_have_outcomes() {
    let refused = |code: &str| change_peer_id_outcome(&UpdateReply::Refused(Some(code.to_owned())));
    assert_eq!(refused("2067"), Some(ChangePeerIdOutcome::IdExists));
    assert_eq!(refused("1555"), Some(ChangePeerIdOutcome::IdExists));
    assert_eq!(refused("5"), None);
    assert_eq!(change_peer_id_outcome(&UpdateReply::Refused(None)), None);
    let changed = |rows| change_peer_id_outcome(&UpdateReply::Changed(rows));
    assert_eq!(changed(0), Some(ChangePeerIdOutcome::IdentityMismatch));
    assert_eq!(changed(1), Some(ChangePeerIdOutcome::Changed));
    assert_eq!(changed(2), Some(ChangePeerIdOutcome::IdentityMismatch));
}

#[test]
fn guids_are_random_uuids() {
    let (guid, _) = insert_peer("1", b"", b"", "");
    let (other, _) = insert_peer("1", b"", b"", "");
    assert_eq!(guid.len(), 16);
    assert_ne!(guid, other);
    assert_eq!((guid[6] >> 4, guid[8] >> 6), (4, 2));
}

#[test]
fn connections_are_counted() {
    for text in [
        "1", "12", "+7", "007", "0", "18446744073709551615", "18446744073709551616", "", "+", "-1",
        "++1", " 1", "1 ", "a", "1_0", "\u{661}",
    ] {
        assert_eq!(parse_connections(text), text.parse().unwrap_or(1), "{}", text);
    }
    let mut env = Environment { vars: vec![] };
    assert_eq!(max_connections(&env), 1);
    env.vars.push(("max-database-connections".to_owned(), "8".to_owned()));
    assert_eq!(max_connections(&env), 8);
}

#[test]
fn default_peer_is_empty() {
    let peer = Peer::default();
    assert!(peer.guid.is_empty() && peer.id.is_empty() && peer.uuid.is_empty());
    assert!(peer.pk.is_empty() && peer.user.is_none() && peer.info.is_empty());
    assert!(peer.status.is_none());
    let pool = DbPool { url: "db.sqlite3".to_owned() };
    assert_eq!(pool.url, "db.sqlite3");
}
