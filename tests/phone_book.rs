use phone_book::command::handle_command;
use phone_book::device::{read_state, write_state, PhoneBook};
use phone_book::record::User;
use phone_book::session::{consumed_len, read_until_zero, Data, DeviceError};
use phone_book::store::RecordStore;
use phone_book::text::{parse_uint_text, push_decimal, split_text_lines, IntError};

fn device() -> PhoneBook {
    let dev = PhoneBook::new();
    dev.install().unwrap();
    dev
}

fn response(dev: &PhoneBook) -> String {
    String::from_utf8(dev.read(0, 100).unwrap()).unwrap()
}

#[test]
fn scenario_add_then_read() {
    let dev = device();
    assert_eq!(dev.write(b"ADD\nDoe\nJohn\nj@x.com\n555\n30\0"), Ok(28));
    assert_eq!(response(&dev), "User#0: Doe John, 30 y.o. (555)\n");
}

#[test]
fn scenario_add_del_find() {
    let dev = device();
    dev.write(b"ADD\nDoe\nJohn\nj@x.com\n555\n30\0").unwrap();
    dev.write(b"ADD\nSmith\nAnn\na@x.com\n222\n25\0").unwrap();
    dev.write(b"DEL\n0\0").unwrap();
    assert_eq!(response(&dev), "Removed: User#0: Doe John, 30 y.o. (555)\n");
    dev.write(b"FIND\nSmith\0").unwrap();
    assert_eq!(response(&dev), "User#1: Smith Ann, 25 y.o. (222)\nFound 1 users\n");
}

#[test]
fn scenario_unknown_command() {
    let dev = device();
    dev.write(b"FOO\0").unwrap();
    assert_eq!(response(&dev), "Unknown command: `FOO`\n");
}

#[test]
fn scenario_missing_command() {
    let dev = device();
    dev.write(b"\0").unwrap();
    assert_eq!(response(&dev), "Command is missing\n");
}

#[test]
fn scenario_add_wrong_count() {
    let dev = device();
    dev.write(b"ADD\nA\nB\nC\0").unwrap();
    assert_eq!(
        response(&dev),
        "Expected 5 arguments, but given `[\n    \"A\",\n    \"B\",\n    \"C\",\n]`\n"
    );
}

#[test]
fn add_without_arguments_lists_none() {
    let dev = device();
    dev.write(b"ADD\0").unwrap();
    assert_eq!(response(&dev), "Expected 5 arguments, but given `[]`\n");
}

#[test]
fn debug_form_escapes_quotes() {
    let dev = device();
    dev.write(b"FIND\na\"b\nc\\d\0").unwrap();
    assert_eq!(
        response(&dev),
        "Expected 1 argument, but given `[\n    \"a\\\"b\",\n    \"c\\\\d\",\n]`\n"
    );
}

#[test]
fn del_wrong_count() {
    let dev = device();
    dev.write(b"DEL\0").unwrap();
    assert_eq!(response(&dev), "Expected 1 argument, but given `[]`\n");
}

#[test]
fn invalid_age_messages() {
    let dev = device();
    dev.write(b"ADD\nA\nB\nC\nD\nxx\0").unwrap();
    assert_eq!(response(&dev), "Invalid age: invalid digit found in string\n");
    dev.write(b"ADD\nA\nB\nC\nD\n\0").unwrap();
    assert_eq!(response(&dev), "Invalid age: cannot parse integer from empty string\n");
    dev.write(b"ADD\nA\nB\nC\nD\n4294967296\0").unwrap();
    assert_eq!(response(&dev), "Invalid age: number too large to fit in target type\n");
    dev.write(b"ADD\nA\nB\nC\nD\n-1\0").unwrap();
    assert_eq!(response(&dev), "Invalid age: invalid digit found in string\n");
}

#[test]
fn largest_age_is_accepted() {
    let dev = device();
    dev.write(b"ADD\nA\nB\nC\nD\n4294967295\0").unwrap();
    assert_eq!(response(&dev), "User#0: A B, 4294967295 y.o. (D)\n");
}

#[test]
fn invalid_id_message() {
    let dev = device();
    dev.write(b"DEL\nabc\0").unwrap();
    assert_eq!(response(&dev), "Invalid id given: invalid digit found in string\n");
    dev.write(b"DEL\n18446744073709551616\0").unwrap();
    assert_eq!(response(&dev), "Invalid id given: number too large to fit in target type\n");
}

#[test]
fn del_twice_reports_not_found() {
    let dev = device();
    dev.write(b"ADD\nDoe\nJohn\nj@x.com\n555\n30\0").unwrap();
    dev.write(b"DEL\n0\0").unwrap();
    assert_eq!(response(&dev), "Removed: User#0: Doe John, 30 y.o. (555)\n");
    dev.write(b"DEL\n0\0").unwrap();
    assert_eq!(response(&dev), "Matching user not found\n");
    dev.write(b"DEL\n7\0").unwrap();
    assert_eq!(response(&dev), "Matching user not found\n");
}

#[test]
fn ids_are_never_reused() {
    let dev = device();
    dev.write(b"ADD\nA\nB\nC\nD\n1\0").unwrap();
    dev.write(b"ADD\nE\nF\nG\nH\n2\0").unwrap();
    dev.write(b"DEL\n1\0").unwrap();
    dev.write(b"FIND\nnobody\0").unwrap();
    dev.write(b"ADD\nI\nJ\nK\nL\n3\0").unwrap();
    assert_eq!(response(&dev), "User#2: I J, 3 y.o. (L)\n");
}

#[test]
fn find_lists_matches_in_store_order() {
    let dev = device();
    dev.write(b"ADD\nDoe\nJohn\nj@x.com\n555\n30\0").unwrap();
    dev.write(b"ADD\nSmith\nAnn\na@x.com\n222\n25\0").unwrap();
    dev.write(b"ADD\nDoe\nJane\nd@x.com\n777\n41\0").unwrap();
    dev.write(b"FIND\nDoe\0").unwrap();
    assert_eq!(
        response(&dev),
        "User#0: Doe John, 30 y.o. (555)\nUser#2: Doe Jane, 41 y.o. (777)\nFound 2 users\n"
    );
    dev.write(b"DEL\n0\0").unwrap();
    dev.write(b"FIND\nDoe\0").unwrap();
    assert_eq!(response(&dev), "User#2: Doe Jane, 41 y.o. (777)\nFound 1 users\n");
    dev.write(b"FIND\ndoe\0").unwrap();
    assert_eq!(response(&dev), "Found 0 users\n");
}

#[test]
fn fragmented_write_matches_single_write() {
    let whole = device();
    whole.write(b"ADD\nDoe\nJohn\nj@x.com\n555\n30\0").unwrap();
    let parts = device();
    parts.write(b"AD").unwrap();
    parts.write(b"D\nDoe\nJo").unwrap();
    parts.write(b"").unwrap();
    parts.write(b"hn\nj@x.com\n555\n3").unwrap();
    parts.write(b"0\0").unwrap();
    assert_eq!(response(&whole), response(&parts));
    assert_eq!(response(&parts), "User#0: Doe John, 30 y.o. (555)\n");
}

#[test]
fn bytes_after_zero_are_discarded() {
    let dev = device();
    assert_eq!(dev.write(b"FOO\0BAR"), Ok(4));
    assert_eq!(response(&dev), "Unknown command: `FOO`\n");
    dev.write(b"\0").unwrap();
    assert_eq!(response(&dev), "Command is missing\n");
}

#[test]
fn invalid_encoding_keeps_pending_text() {
    let dev = device();
    dev.write(b"FI").unwrap();
    assert_eq!(dev.write(b"N\xff"), Err(DeviceError::InvalidEncoding));
    dev.write(b"ND\nx\0").unwrap();
    assert_eq!(response(&dev), "Found 0 users\n");
}

#[test]
fn not_initialized_before_install_and_after_teardown() {
    let dev = PhoneBook::new();
    assert_eq!(dev.write(b"FOO\0"), Err(DeviceError::NotInitialized));
    assert_eq!(dev.read(0, 10), Err(DeviceError::NotInitialized));
    dev.install().unwrap();
    dev.write(b"FOO\0").unwrap();
    dev.teardown().unwrap();
    assert_eq!(dev.read(0, 10), Err(DeviceError::NotInitialized));
}

#[test]
fn invalid_encoding_wins_over_missing_state() {
    let dev = PhoneBook::new();
    assert_eq!(dev.write(b"\xc3\0"), Err(DeviceError::InvalidEncoding));
}

#[test]
fn read_with_offsets_and_small_buffers() {
    let dev = device();
    dev.write(b"FOO\0").unwrap();
    // "Unknown command: `FOO`" has 22 bytes.
    assert_eq!(dev.read(0, 5).unwrap(), b"Unkno".to_vec());
    assert_eq!(dev.read(17, 5).unwrap(), b"`FOO`".to_vec());
    assert_eq!(dev.read(17, 6).unwrap(), b"`FOO`\n".to_vec());
    assert_eq!(dev.read(22, 10).unwrap(), b"\n".to_vec());
    assert_eq!(dev.read(22, 0).unwrap(), Vec::<u8>::new());
    assert_eq!(dev.read(23, 10).unwrap(), Vec::<u8>::new());
    assert_eq!(dev.read(1000, 10).unwrap(), Vec::<u8>::new());
}

#[test]
fn empty_response_before_any_command() {
    let dev = device();
    assert_eq!(dev.read(0, 4).unwrap(), b"\n".to_vec());
    assert_eq!(dev.read(1, 4).unwrap(), Vec::<u8>::new());
}

#[test]
fn non_ascii_text_is_kept() {
    let dev = device();
    dev.write("ADD\nMüller\nJürgen\nm@x.de\n1\n50\0".as_bytes()).unwrap();
    assert_eq!(response(&dev), "User#0: Müller Jürgen, 50 y.o. (1)\n");
}

#[test]
fn data_write_and_read_directly() {
    let mut data = Data::new();
    assert_eq!(data.write(b"FIND\nX"), Ok(()));
    assert_eq!(data.request(), "FIND\nX");
    assert_eq!(data.write(b"\0"), Ok(()));
    assert_eq!(data.request(), "");
    assert_eq!(data.response(), "Found 0 users");
    assert_eq!(data.read_response(6, 100), b"0 users\n".to_vec());
    assert_eq!(data.store().len(), 0);
}

#[test]
fn read_until_zero_splits_at_first_zero() {
    assert_eq!(read_until_zero(b"ab\0cd\0"), (b"ab".to_vec(), true));
    assert_eq!(read_until_zero(b"abc"), (b"abc".to_vec(), false));
    assert_eq!(read_until_zero(b""), (Vec::new(), false));
}

#[test]
fn store_insert_remove_find() {
    let mut store = RecordStore::new();
    let u = store
        .insert("Doe".to_string(), "John".to_string(), "j@x".to_string(), "5".to_string(), 30)
        .unwrap();
    assert_eq!(u.id, 0);
    store.insert("Roe".to_string(), "Ann".to_string(), "a@x".to_string(), "6".to_string(), 20).unwrap();
    assert_eq!(store.next_id(), 2);
    let found = store.find_by_surname(&"Roe".to_string());
    assert_eq!(found.len(), 1);
    assert_eq!(found[0].name, "Ann");
    let removed = store.remove_by_id(0).unwrap();
    assert_eq!(removed.surname, "Doe");
    assert!(store.remove_by_id(0).is_none());
    assert_eq!(store.len(), 1);
    assert_eq!(store.next_id(), 2);
}

#[test]
fn handle_command_on_store() {
    let mut store = RecordStore::new();
    let r = handle_command(&mut store, "ADD\nDoe\nJohn\nj@x.com\n555\n30");
    assert_eq!(r, "User#0: Doe John, 30 y.o. (555)");
    assert_eq!(handle_command(&mut store, ""), "Command is missing");
    assert_eq!(handle_command(&mut store, "\nx"), "Unknown command: ``");
}

#[test]
fn user_display_hides_email() {
    let u = User {
        id: 12,
        name: "John".to_string(),
        surname: "Doe".to_string(),
        email: "secret@x.com".to_string(),
        phone: "555".to_string(),
        age: 7,
    };
    assert_eq!(u.to_string(), "User#12: Doe John, 7 y.o. (555)");
}

#[test]
fn decimal_rendering() {
    let mut s = String::new();
    push_decimal(&mut s, 0);
    s.push(' ');
    push_decimal(&mut s, 1234567890);
    s.push(' ');
    push_decimal(&mut s, u64::MAX);
    assert_eq!(s, "0 1234567890 18446744073709551615");
}

#[test]
fn integer_parsing() {
    assert_eq!(parse_uint_text("42", 100), Ok(42));
    assert_eq!(parse_uint_text("+42", 100), Ok(42));
    assert_eq!(parse_uint_text("+", 100), Err(IntError::InvalidDigit));
    assert_eq!(parse_uint_text("", 100), Err(IntError::Empty));
    assert_eq!(parse_uint_text("101", 100), Err(IntError::Overflow));
    assert_eq!(parse_uint_text("1x", 100), Err(IntError::InvalidDigit));
    assert_eq!(parse_uint_text("1000x", 100), Err(IntError::Overflow));
    assert_eq!(parse_uint_text("18446744073709551615", u64::MAX), Ok(u64::MAX));
}

#[test]
fn line_splitting() {
    assert_eq!(split_text_lines(""), vec![String::new()]);
    assert_eq!(split_text_lines("a\n\nb\n"), vec!["a".to_string(), String::new(), "b".to_string(), String::new()]);
}

#[test]
fn consumed_count_stops_after_zero() {
    assert_eq!(consumed_len(b"ab\0cd"), 3);
    assert_eq!(consumed_len(b"\0"), 1);
    assert_eq!(consumed_len(b"abc"), 3);
    assert_eq!(consumed_len(b""), 0);
    let dev = device();
    assert_eq!(dev.write(b"FI"), Ok(2));
    assert_eq!(dev.write(b"ND\nx\0junk"), Ok(5));
}

#[test]
fn write_state_without_state_is_not_initialized() {
    let (state, result) = write_state(None, "FOO", true);
    assert!(state.is_none());
    assert_eq!(result, Err(DeviceError::NotInitialized));
}

#[test]
fn write_state_with_state_runs_the_command() {
    let (state, result) = write_state(Some(Data::new()), "FOO", true);
    assert_eq!(result, Ok(()));
    let data = state.unwrap();
    assert_eq!(data.response(), "Unknown command: `FOO`");
    assert_eq!(data.request(), "");
    let (state, result) = write_state(Some(data), "FI", false);
    assert_eq!(result, Ok(()));
    assert_eq!(state.unwrap().request(), "FI");
}

#[test]
fn read_state_with_and_without_state() {
    assert_eq!(read_state(&None, 0, 10), Err(DeviceError::NotInitialized));
    let mut data = Data::new();
    data.write(b"FOO\0").unwrap();
    assert_eq!(read_state(&Some(data), 18, 10), Ok(b"FOO`\n".to_vec()));
}
