//! Tests for the dataset rendering, including a round trip through a
//! standard reader of delimited text.

use commit_extractor::writer::render_dataset;
use commit_extractor::Record;

fn record(message: &str, changes: &str) -> Record {
    Record { commit_message: message.to_string(), commit_changes: changes.to_string() }
}

#[test]
fn plain_fields_are_written_bare() {
    let out = render_dataset(&vec![record("fix bug", "+line")], true);
    assert_eq!(out, "commit_message,commit_changes\nfix bug,+line\n");
}

#[test]
fn header_is_omitted_on_request() {
    let out = render_dataset(&vec![record("fix bug", "+line")], false);
    assert_eq!(out, "fix bug,+line\n");
}

#[test]
fn fields_with_newlines_are_quoted() {
    let out = render_dataset(&vec![record("fix bug", "+a\n+b\n")], false);
    assert_eq!(out, "fix bug,\"+a\n+b\n\"\n");
}

#[test]
fn quotes_are_doubled_and_commas_quoted() {
    let out = render_dataset(&vec![record("say \"hi\"", "a,b")], false);
    assert_eq!(out, "\"say \"\"hi\"\"\",\"a,b\"\n");
}

#[test]
fn rows_keep_acceptance_order() {
    let out = render_dataset(&vec![record("first fix", "+1"), record("second fix", "+2")], false);
    assert_eq!(out, "first fix,+1\nsecond fix,+2\n");
}

#[test]
fn comma_and_quote_round_trip_through_standard_reader() {
    let changes = "line with , a comma and a \"quoted\" word\n+code\n";
    let message = "fix, the \"parser\"";
    let out = render_dataset(&vec![record(message, changes)], true);

    let mut reader = csv::Reader::from_reader(out.as_bytes());
    let headers = reader.headers().expect("header row").clone();
    assert_eq!(&headers[0], "commit_message");
    assert_eq!(&headers[1], "commit_changes");
    let rows: Vec<csv::StringRecord> =
        reader.records().collect::<Result<_, _>>().expect("data rows");
    assert_eq!(rows.len(), 1);
    assert_eq!(&rows[0][0], message);
    assert_eq!(&rows[0][1], changes);
}

#[test]
fn every_saved_record_round_trips() {
    let records = vec![
        record("fix bug", "+line1\n+line2\n+line3\n"),
        record("quote \" comma ,", ",\",\n"),
        record("plain", "simple"),
    ];
    let out = render_dataset(&records, true);
    let mut reader = csv::Reader::from_reader(out.as_bytes());
    let rows: Vec<csv::StringRecord> =
        reader.records().collect::<Result<_, _>>().expect("data rows");
    assert_eq!(rows.len(), records.len());
    for (row, rec) in rows.iter().zip(records.iter()) {
        assert_eq!(&row[0], rec.commit_message.as_str());
        assert_eq!(&row[1], rec.commit_changes.as_str());
    }
}
