use navalyze::sqlite::InternalDB;

#[test]
fn add_domain_statement() {
    assert_eq!(
        InternalDB::add_domain_sql("https://nd.example"),
        "\n            INSERT INTO domain (domain)\n            VALUES ('https://nd.example')\n            "
    );
}

#[test]
fn add_artist_statement() {
    assert_eq!(
        InternalDB::add_artist_sql(12, 0x550e8400e29b41d4a716446655440000, "{\"type\":\"Group\"}"),
        "\n            INSERT INTO artist (id, domain_id, json) VALUES ('550e8400-e29b-41d4-a716-446655440000', 12, '{\"type\":\"Group\"}')\n        "
    );
}

#[test]
fn get_artist_statement() {
    assert_eq!(
        InternalDB::get_artist_sql(3, 1),
        "\n            SELECT json FROM artist\n            WHERE domain_id=3 AND id='00000000-0000-0000-0000-000000000001'\n            LIMIT 1\n        "
    );
}

#[test]
fn new_keeps_path() {
    assert_eq!(InternalDB::new("data.db".into()).path, "data.db");
}
