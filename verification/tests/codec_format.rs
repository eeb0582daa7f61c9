use book_lending::codec::{decode_book, decode_rental, encode_book, encode_rental};
use book_lending::model::{Book, Rental};

#[test]
fn book_round_trip() {
    let b = Book {
        id: 42,
        title: "Dune".to_string(),
        author: "Frank Herbert".to_string(),
        available: false,
        created_at: 1_700_000_000,
        updated_at: Some(1_700_000_999),
    };
    let bytes = encode_book(&b);
    assert_eq!(decode_book(&bytes), Some(b));
}

#[test]
fn book_round_trip_non_ascii() {
    let b = Book {
        id: 7,
        title: "Caf\u{e9} \u{1F4D6}".to_string(),
        author: "\u{3042}\u{3044}".to_string(),
        available: true,
        created_at: 3,
        updated_at: None,
    };
    let bytes = encode_book(&b);
    // UTF-8 makes the text longer in bytes than in characters
    assert!(bytes.len() > 34 + 7 + 2);
    assert_eq!(decode_book(&bytes), Some(b));
}

#[test]
fn rental_round_trip() {
    let r = Rental {
        id: 9,
        book_id: 42,
        user_id: "alice".to_string(),
        rented_at: 5,
        due_date: 6,
        returned_at: None,
    };
    let bytes = encode_rental(&r);
    assert_eq!(decode_rental(&bytes), Some(r));

    let closed = Rental { returned_at: Some(7), ..decode_rental(&bytes).unwrap() };
    assert_eq!(decode_rental(&encode_rental(&closed)), Some(closed));
}

#[test]
fn book_wire_format_exact() {
    let b = Book {
        id: 1,
        title: "A".to_string(),
        author: "B".to_string(),
        available: true,
        created_at: 5,
        updated_at: None,
    };
    let mut expected: Vec<u8> = Vec::new();
    expected.extend_from_slice(&[1, 0, 0, 0, 0, 0, 0, 0]); // id
    expected.extend_from_slice(&[5, 0, 0, 0, 0, 0, 0, 0]); // created_at
    expected.push(1); // available
    expected.extend_from_slice(&[0, 0, 0, 0, 0, 0, 0, 0, 0]); // updated_at absent
    expected.extend_from_slice(&[1, 0, 0, 0, 0, 0, 0, 0]); // title length
    expected.push(b'A');
    expected.push(b'B');
    assert_eq!(encode_book(&b), expected);
}

#[test]
fn rental_wire_format_exact() {
    let r = Rental {
        id: 2,
        book_id: 3,
        user_id: "u".to_string(),
        rented_at: 4,
        due_date: 260,
        returned_at: Some(6),
    };
    let mut expected: Vec<u8> = Vec::new();
    expected.extend_from_slice(&[2, 0, 0, 0, 0, 0, 0, 0]); // id
    expected.extend_from_slice(&[3, 0, 0, 0, 0, 0, 0, 0]); // book_id
    expected.extend_from_slice(&[4, 0, 0, 0, 0, 0, 0, 0]); // rented_at
    expected.extend_from_slice(&[4, 1, 0, 0, 0, 0, 0, 0]); // due_date, little-endian
    expected.push(1); // returned_at present
    expected.extend_from_slice(&[6, 0, 0, 0, 0, 0, 0, 0]);
    expected.push(b'u');
    assert_eq!(encode_rental(&r), expected);
}

#[test]
fn decode_rejects_malformed_bytes() {
    assert_eq!(decode_book(&Vec::new()), None);
    assert_eq!(decode_book(&vec![0u8; 33]), None);
    assert_eq!(decode_rental(&vec![0u8; 40]), None);

    let b = Book {
        id: 1,
        title: String::new(),
        author: String::new(),
        available: true,
        created_at: 0,
        updated_at: None,
    };
    let mut bytes = encode_book(&b);
    bytes[16] = 2; // availability byte out of range
    assert_eq!(decode_book(&bytes), None);
    bytes[16] = 1;
    bytes[17] = 9; // option tag out of range
    assert_eq!(decode_book(&bytes), None);
    bytes[17] = 0;
    bytes[18] = 1; // absent timestamp must carry a zero payload
    assert_eq!(decode_book(&bytes), None);
    bytes[18] = 0;
    bytes[26] = 200; // title length runs past the record
    assert_eq!(decode_book(&bytes), None);

    // invalid UTF-8 in the text
    let t = Book { title: "ab".to_string(), ..b };
    let mut bytes = encode_book(&t);
    bytes[34] = 0xff;
    bytes[35] = 0xfe;
    assert_eq!(decode_book(&bytes), None);
}

#[test]
fn oversized_encodings_are_not_decoded() {
    let b = Book {
        id: 1,
        title: "x".repeat(600),
        author: String::new(),
        available: true,
        created_at: 0,
        updated_at: None,
    };
    let bytes = encode_book(&b);
    assert!(bytes.len() > 512);
    assert_eq!(decode_book(&bytes), None);
}
