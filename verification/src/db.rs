//! The rows in which task results are kept.

use std::collections::HashMap;
use vstd::prelude::*;

use crate::messages::{pows_view, TaskResponse, TaskResponseView};
use crate::text::{decimal, pad_row_id, row_id, row_id_is_idempotent};

verus! {

/// What a JSON text says of an optional map of proofs of work, or `None` if it says no such
/// thing.
pub uninterp spec fn parsed_pows(text: Seq<char>) -> Option<Option<Map<u32, u64>>>;

/// Calls `serde_json::from_str` for an optional map of proofs of work. The contract names what
/// the text says; `None` stands for its error.
#[verifier::external_body]
fn pows_from_json(text: &str) -> (parsed: Option<Option<HashMap<u32, u64>>>)
    ensures
        match parsed {
            Some(data) => parsed_pows(text@) == Some(pows_view(data)),
            None => parsed_pows(text@) is None,
        },
{
    serde_json::from_str(text).ok()
}

/// The JSON text of an entry of a map of proofs of work.
pub open spec fn entry_text(entry: (u32, u64)) -> Seq<char> {
    seq!['"'] + decimal(entry.0 as nat) + seq!['"', ':'] + decimal(entry.1 as nat)
}

/// The JSON texts of entries, with commas between them.
pub open spec fn entries_text(entries: Seq<(u32, u64)>) -> Seq<char>
    decreases entries.len(),
{
    if entries.len() == 0 {
        Seq::empty()
    } else if entries.len() == 1 {
        entry_text(entries[0])
    } else {
        entries_text(entries.drop_last()) + seq![','] + entry_text(entries.last())
    }
}

/// `entries` are the entries of `pows`, each once.
pub open spec fn are_entries(entries: Seq<(u32, u64)>, pows: Map<u32, u64>) -> bool {
    &&& forall|i: int|
        0 <= i < entries.len() ==> pows.contains_key((#[trigger] entries[i]).0)
            && pows[entries[i].0] == entries[i].1
    &&& forall|i: int, j: int|
        0 <= i < j < entries.len() ==> (#[trigger] entries[i]).0 != (#[trigger] entries[j]).0
    &&& forall|group: u32| #[trigger]
        pows.contains_key(group) ==> entries.contains((group, pows[group]))
}

/// `text` is the JSON text of an optional map of proofs of work: `null`, or an object with the
/// entries in some order.
pub open spec fn is_pows_text(text: Seq<char>, data: Option<Map<u32, u64>>) -> bool {
    match data {
        None => text == "null"@,
        Some(pows) => exists|entries: Seq<(u32, u64)>| #[trigger]
            are_entries(entries, pows) && text == seq!['{'] + entries_text(entries) + seq!['}'],
    }
}

/// Calls `serde_json::to_string` on an optional map of proofs of work, which does not fail on a
/// map from integers to integers. The contract claims that no map is written as `null`, and a map
/// as an object without blanks, with its numbers in decimal, and that `serde_json::from_str` reads
/// back what was written; it does not say in which order the entries are written.
#[verifier::external_body]
fn pows_to_json(data: &Option<HashMap<u32, u64>>) -> (text: String)
    ensures
        is_pows_text(text@, pows_view(*data)),
        parsed_pows(text@) == Some(pows_view(*data)),
{
    serde_json::to_string(data).unwrap()
}

/// A task result as it is kept in the database.
#[derive(Debug, Clone, PartialEq)]
pub struct DBPowResponse {
    /// The padded identifier of the task.
    pub id: String,
    pub status: u8,
    /// The proofs of work, in JSON.
    pub data: String,
    /// When the row was written, in seconds of Unix time; the database fills it in.
    pub ts: Option<i64>,
}

/// `row` is a row in which `response` is kept.
pub open spec fn keeps(row: DBPowResponse, response: TaskResponseView) -> bool {
    &&& row.id@ == row_id(response.id)
    &&& row.status == response.status
    &&& is_pows_text(row.data@, response.data)
    &&& parsed_pows(row.data@) == Some(response.data)
    &&& row.ts is None
}

/// What a row says, if its data can be read.
pub open spec fn kept_in(row: DBPowResponse) -> Option<TaskResponseView> {
    match parsed_pows(row.data@) {
        Some(data) => Some(TaskResponseView { id: row.id@, status: row.status, data }),
        None => None,
    }
}

impl DBPowResponse {
    /// The row in which a task result is kept.
    pub fn new(task_response: TaskResponse) -> (row: Self)
        ensures
            keeps(row, task_response@),
            task_response.data is None ==> row.data@ == "null"@,
            row.id@ == row_id(task_response.id@),
            row.status == task_response.status,
            row.ts is None,
            parsed_pows(row.data@) == Some(pows_view(task_response.data)),
    {
        DBPowResponse {
            id: pad_row_id(task_response.id.as_str()),
            status: task_response.status,
            data: pows_to_json(&task_response.data),
            ts: None,
        }
    }

    /// The task result of a row whose data were read.
    pub fn with_data(self, data: Option<HashMap<u32, u64>>) -> (response: TaskResponse)
        ensures
            response == (TaskResponse { id: self.id, status: self.status, data }),
    {
        TaskResponse { id: self.id, status: self.status, data }
    }

    /// The task result that is kept in the row, under the padded identifier.
    pub fn to_task_response(self) -> (response: TaskResponse)
        requires
            parsed_pows(self.data@) is Some,
        ensures
            kept_in(self) == Some(response@),
            response.id == self.id,
            response.status == self.status,
            parsed_pows(self.data@) == Some(pows_view(response.data)),
    {
        let parsed = pows_from_json(self.data.as_str());
        match parsed {
            Some(data) => self.with_data(data),
            None => self.with_data(None),
        }
    }

    /// The task result that is kept in the row, or `None` if its data cannot be read.
    pub fn read(self) -> (response: Option<TaskResponse>)
        ensures
            match response {
                Some(response) => kept_in(self) == Some(response@),
                None => kept_in(self) is None,
            },
            response is Some <==> parsed_pows(self.data@) is Some,
            response matches Some(result) ==> {
                &&& result.id == self.id
                &&& result.status == self.status
                &&& parsed_pows(self.data@) == Some(pows_view(result.data))
            },
    {
        let parsed = pows_from_json(self.data.as_str());
        if parsed.is_some() {
            Some(self.to_task_response())
        } else {
            None
        }
    }
}

/// A row without proofs of work holds `null`, one with an empty map of them `{}`, and one with a
/// single proof of work that entry.
pub proof fn text_of_few_pows(row: DBPowResponse, response: TaskResponseView)
    requires
        keeps(row, response),
    ensures
        response.data is None ==> row.data@ == "null"@,
        response.data == Some(Map::<u32, u64>::empty()) ==> row.data@ == seq!['{', '}'],
        forall|group: u32, pow: u64|
            response.data == Some(#[trigger] Map::<u32, u64>::empty().insert(group, pow))
                ==> row.data@ == seq!['{'] + entry_text((group, pow)) + seq!['}'],
{
    if response.data == Some(Map::<u32, u64>::empty()) {
        let pows = Map::<u32, u64>::empty();
        let entries = choose|entries: Seq<(u32, u64)>| #[trigger]
            are_entries(entries, pows) && row.data@ == seq!['{'] + entries_text(entries)
                + seq!['}'];
        if entries.len() > 0 {
            assert(pows.contains_key(entries[0].0));
        }
        assert(row.data@ =~= seq!['{', '}']);
    }
    assert forall|group: u32, pow: u64|
        response.data == Some(
            #[trigger] Map::<u32, u64>::empty().insert(group, pow),
        ) implies row.data@ == seq!['{'] + entry_text((group, pow)) + seq!['}'] by {
        let pows = Map::<u32, u64>::empty().insert(group, pow);
        let entries = choose|entries: Seq<(u32, u64)>| #[trigger]
            are_entries(entries, pows) && row.data@ == seq!['{'] + entries_text(entries)
                + seq!['}'];
        assert(pows.contains_key(group));
        assert(entries.contains((group, pow)));
        if entries.len() > 1 {
            assert(entries[0].0 == group && entries[1].0 == group);
        }
    }
}

/// What was written is read back: the row of a task result holds its status and its proofs of
/// work, under the padded identifier.
pub proof fn row_reads_back(row: DBPowResponse, response: TaskResponseView)
    requires
        keeps(row, response),
    ensures
        kept_in(row) == Some(
            TaskResponseView {
                id: row_id(response.id),
                status: response.status,
                data: response.data,
            },
        ),
{
}

/// A table of rows, by their identifiers, after `row` was put into it at the time `ts`.
pub open spec fn with_row(
    table: Map<Seq<char>, DBPowResponse>,
    row: DBPowResponse,
    ts: Option<i64>,
) -> Map<Seq<char>, DBPowResponse> {
    table.insert(row.id@, DBPowResponse { ts, ..row })
}

/// What is found in a table for the task `id`: what the row under the padded identifier says.
pub open spec fn found_in(
    table: Map<Seq<char>, DBPowResponse>,
    id: Seq<char>,
) -> Option<TaskResponseView> {
    if table.contains_key(row_id(id)) {
        kept_in(table[row_id(id)])
    } else {
        None
    }
}

/// A task result that was put into a table which had no row under its padded identifier is found
/// there, under its identifier and under its padded identifier alike, whatever the time. What is
/// found for an identifier that is padded to another text is what was found before, and nothing
/// is found for one whose padded text no row has.
pub proof fn inserted_result_is_found(
    table: Map<Seq<char>, DBPowResponse>,
    row: DBPowResponse,
    ts: Option<i64>,
    response: TaskResponseView,
    other: Seq<char>,
)
    requires
        keeps(row, response),
        !table.contains_key(row_id(response.id)),
    ensures
        found_in(table, response.id) is None,
        found_in(with_row(table, row, ts), response.id) == Some(
            TaskResponseView {
                id: row_id(response.id),
                status: response.status,
                data: response.data,
            },
        ),
        found_in(with_row(table, row, ts), row_id(response.id)) == found_in(
            with_row(table, row, ts),
            response.id,
        ),
        row_id(other) != row_id(response.id) ==> found_in(with_row(table, row, ts), other)
            == found_in(table, other),
        !table.contains_key(row_id(other)) && row_id(other) != row_id(response.id) ==> found_in(
            with_row(table, row, ts),
            other,
        ) is None,
{
    row_reads_back(row, response);
    row_id_is_idempotent(response.id);
}

} // verus!
