use pow_service::text::{endpoint_url, health_url, id_of_submission, key_of_node, pad_row_id};

fn counting() -> [u8; 32] {
    let mut node_id = [0u8; 32];
    for i in 0..32 {
        node_id[i] = i as u8;
    }
    node_id
}

#[test]
fn key_is_lower_case_hex() {
    assert_eq!(
        key_of_node(&counting()),
        "000102030405060708090a0b0c0d0e0f101112131415161718191a1b1c1d1e1f"
    );
    assert_eq!(key_of_node(&[0xab; 32]), "ab".repeat(32));
    assert_eq!(key_of_node(&[255; 32]), "f".repeat(64));
}

#[test]
fn submission_id_joins_key_and_bounds() {
    assert_eq!(
        id_of_submission(&[0xab; 32], 0, 288),
        format!("{}-0-288", "ab".repeat(32))
    );
    assert_eq!(
        id_of_submission(&[0; 32], 10, u32::MAX),
        format!("{}-10-4294967295", "0".repeat(64))
    );
}

#[test]
fn submission_ids_differ_where_the_tasks_differ() {
    let id = id_of_submission(&[1; 32], 1, 11);
    assert_ne!(id, id_of_submission(&[1; 32], 11, 1));
    assert_ne!(id, id_of_submission(&[1; 32], 1, 12));
    assert_ne!(id, id_of_submission(&[2; 32], 1, 11));
    assert_eq!(id, id_of_submission(&[1; 32], 1, 11));
    assert_ne!(id, key_of_node(&[1; 32]));
}

#[test]
fn row_id_is_padded_with_asterisks() {
    assert_eq!(pad_row_id("testid"), format!("testid{}", "*".repeat(74)));
    assert_eq!(pad_row_id(""), "*".repeat(80));
    assert_eq!(pad_row_id(&"x".repeat(80)), "x".repeat(80));
    assert_eq!(pad_row_id(&"x".repeat(81)), "x".repeat(81));
    assert_eq!(pad_row_id("testid"), format!("{:*<80}", "testid"));
}

#[test]
fn row_id_counts_characters() {
    let padded = pad_row_id("\u{e4}\u{1f600}");
    assert_eq!(padded.chars().count(), 80);
    assert_eq!(padded, format!("{:*<80}", "\u{e4}\u{1f600}"));
}

#[test]
fn padding_twice_is_padding_once() {
    let once = pad_row_id("testid");
    assert_eq!(pad_row_id(&once), once);
}

#[test]
fn urls_name_the_endpoints() {
    assert_eq!(endpoint_url("127.0.0.1:80", "/submit"), "http://127.0.0.1:80/submit");
    assert_eq!(health_url("localhost:9094"), "http://localhost:9094/health");
}
