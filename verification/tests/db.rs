use pow_service::db::DBPowResponse;
use pow_service::messages::TaskResponse;
use pow_service::text::pad_row_id;
use std::collections::HashMap;

fn padded(id: &str) -> String {
    format!("{}{}", id, "*".repeat(80 - id.len()))
}

#[test]
fn row_holds_padded_id_status_and_json() {
    let mut data = HashMap::new();
    data.insert(1u32, 2u64);
    let row = DBPowResponse::new(TaskResponse {
        id: "testid".to_string(),
        status: 3,
        data: Some(data),
    });
    assert_eq!(row.id, padded("testid"));
    assert_eq!(row.status, 3);
    assert_eq!(row.data, "{\"1\":2}");
    assert_eq!(row.ts, None);
}

#[test]
fn row_without_proofs_of_work_holds_null() {
    let row = DBPowResponse::new(TaskResponse::init("a".to_string()));
    assert_eq!(row.data, "null");
    let row = DBPowResponse::new(TaskResponse::completed("a".to_string(), HashMap::new()));
    assert_eq!(row.data, "{}");
}

#[test]
fn row_holds_its_entries_in_some_order() {
    let mut data = HashMap::new();
    data.insert(7u32, u64::MAX);
    data.insert(u32::MAX, 0u64);
    let row = DBPowResponse::new(TaskResponse::completed("a".to_string(), data));
    let one = "\"7\":18446744073709551615";
    let other = "\"4294967295\":0";
    assert!(
        row.data == format!("{{{},{}}}", one, other)
            || row.data == format!("{{{},{}}}", other, one)
    );
}

#[test]
fn row_reads_back_what_was_written() {
    let mut data = HashMap::new();
    for group in 0..300u32 {
        data.insert(group, u64::MAX - group as u64);
    }
    data.insert(u32::MAX, 0);
    let row = DBPowResponse::new(TaskResponse {
        id: "testid".to_string(),
        status: 2,
        data: Some(data.clone()),
    });
    assert_eq!(
        row.clone().read(),
        Some(TaskResponse { id: padded("testid"), status: 2, data: Some(data.clone()) })
    );
    assert_eq!(
        row.to_task_response(),
        TaskResponse { id: padded("testid"), status: 2, data: Some(data) }
    );
    let row = DBPowResponse::new(TaskResponse::missed("gone".to_string()));
    assert_eq!(row.read(), Some(TaskResponse { id: padded("gone"), status: 3, data: None }));
}

#[test]
fn row_with_other_data_cannot_be_read() {
    for data in ["", "{", "[1]", "{\"a\":1}", "{\"1\":-1}", "1", "{\"4294967296\":1}"] {
        let row = DBPowResponse {
            id: "x".to_string(),
            status: 1,
            data: data.to_string(),
            ts: None,
        };
        assert_eq!(row.read(), None);
    }
}

#[test]
fn data_that_were_read_are_taken_as_they_are() {
    let row = DBPowResponse {
        id: "x".to_string(),
        status: 9,
        data: "ignored".to_string(),
        ts: Some(1),
    };
    assert_eq!(
        row.with_data(None),
        TaskResponse { id: "x".to_string(), status: 9, data: None }
    );
}

#[test]
fn inserted_row_is_found_under_either_id() {
    let mut data = HashMap::new();
    data.insert(1u32, 2u64);
    let mut table: HashMap<String, DBPowResponse> = HashMap::new();
    for (id, status) in [("testid", 3), ("testid*x", 2)] {
        let mut row = DBPowResponse::new(TaskResponse {
            id: id.to_string(),
            status,
            data: Some(data.clone()),
        });
        row.ts = Some(1700000000);
        table.insert(row.id.clone(), row);
    }
    let expected = TaskResponse { id: padded("testid"), status: 3, data: Some(data) };
    for id in ["testid".to_string(), padded("testid"), "testid**".to_string()] {
        let row = table.get(&pad_row_id(&id)).unwrap().clone();
        assert_eq!(row.read(), Some(expected.clone()));
    }
    assert!(table.get(&pad_row_id("other")).is_none());
}
