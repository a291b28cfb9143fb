use scopa::parse_message;
use scopa::parse_header;
use scopa::encode_header;
use scopa::bits_set;
use scopa::Buffer;
use scopa::DecodeError;
use scopa::Header;
use scopa::Ipv4Address;
use scopa::Message;
use scopa::Question;
use scopa::ResourceData;
use scopa::ResourceRecord;

#[test]
fn test_parse_question() {
    let buf = [
        141, 225, 1, 32, 0, 1, 0, 0, 0, 0, 0, 0, 7, 101, 120, 97, 109, 112, 108, 101, 3, 99, 111,
        109, 0, 0, 1, 0, 1,
    ];
    let parsed_message = parse_message(&buf).unwrap();

    let expected_message = Message {
        header: Header {
            id: 36321,
            q_type: 0,
            truncated: false,
            recursion_desired: true,
            question_count: 1,
            answer_count: 0,
            authority_count: 0,
            additional_count: 0,
        },
        question: Question {
            domain_name: vec!["example".to_string(), "com".to_string()],
            q_type: 1,
            q_class: 1,
        },
        answers: None,
    };

    assert_eq!(expected_message.header, parsed_message.header);
    assert_eq!(expected_message.question, parsed_message.question);
    assert_eq!(expected_message.answers, parsed_message.answers);
}

#[test]
fn test_parse_response() {
    let buf = [
        141, 225, 129, 160, 0, 1, 0, 1, 0, 0, 0, 0, 7, 101, 120, 97, 109, 112, 108, 101, 3, 99,
        111, 109, 0, 0, 1, 0, 1, 192, 12, 0, 1, 0, 1, 0, 1, 42, 15, 0, 4, 93, 184, 216, 34,
    ];
    let parsed_message = parse_message(&buf).unwrap();

    let domain_name = vec!["example".to_string(), "com".to_string()];
    let expected_message = Message {
        header: Header {
            id: 36321,
            q_type: 0,
            truncated: false,
            recursion_desired: true,
            question_count: 1,
            answer_count: 1,
            authority_count: 0,
            additional_count: 0,
        },
        question: Question {
            domain_name: domain_name.clone(),
            q_type: 1,
            q_class: 1,
        },
        answers: Some(vec![ResourceRecord {
            name: domain_name,
            r_type: 1,
            class: 1,
            ttl: 76303,
            data_length: 4,
            data: ResourceData::A(Ipv4Address::new(93, 184, 216, 34)),
        }]),
    };

    assert_eq!(expected_message.header, parsed_message.header);
    assert_eq!(expected_message.question, parsed_message.question);
    assert_eq!(expected_message.answers, parsed_message.answers);
}

#[test]
fn test_header_round_trip() {
    // Flag byte 0x7b uses every decoded bit (opcode 15, truncated,
    // recursion desired) and none of the undecoded ones.
    let bytes = [141, 225, 0x7b, 0, 0, 1, 0, 2, 0, 3, 0, 4];
    let mut cursor = Buffer::new(&bytes);
    let header = parse_header(&mut cursor).unwrap();
    assert_eq!(header.id, 36321);
    assert_eq!(header.q_type, 15);
    assert!(header.truncated);
    assert!(header.recursion_desired);
    assert_eq!(header.question_count, 1);
    assert_eq!(header.answer_count, 2);
    assert_eq!(header.authority_count, 3);
    assert_eq!(header.additional_count, 4);
    let encoded = encode_header(&header);
    assert_eq!(encoded, bytes.to_vec());
}

#[test]
fn test_zero_answers_absent() {
    // answer_count = 0: the answers are absent, not an empty sequence.
    let buf = [0, 7, 0, 0, 0, 1, 0, 0, 0, 0, 0, 0, 1, 97, 0, 0, 1, 0, 1];
    let parsed_message = parse_message(&buf).unwrap();
    assert_eq!(parsed_message.header.answer_count, 0);
    assert!(parsed_message.answers.is_none());
}

#[test]
fn test_unknown_type_skipped() {
    // Two answers: the first of unrecognized type 5 with a 3-byte payload,
    // the second a well-formed address record. The first must be skipped by
    // its declared length, leaving the second intact.
    let buf = [
        0, 7, 0, 0, 0, 1, 0, 2, 0, 0, 0, 0, // header, 2 answers
        1, 97, 0, 0, 1, 0, 1, // question: "a"
        192, 12, 0, 5, 0, 1, 0, 0, 0, 7, 0, 3, 9, 9, 9, // type 5, 3 payload bytes
        192, 12, 0, 1, 0, 1, 0, 0, 0, 9, 0, 4, 1, 2, 3, 4, // address record
    ];
    let parsed_message = parse_message(&buf).unwrap();
    let answers = parsed_message.answers.unwrap();
    assert_eq!(answers.len(), 2);
    assert_eq!(answers[0].r_type, 5);
    assert_eq!(answers[0].data_length, 3);
    assert_eq!(answers[0].data, ResourceData::A(Ipv4Address::new(0, 0, 0, 0)));
    assert_eq!(answers[1].name, vec!["a".to_string()]);
    assert_eq!(answers[1].r_type, 1);
    assert_eq!(answers[1].class, 1);
    assert_eq!(answers[1].ttl, 9);
    assert_eq!(answers[1].data_length, 4);
    assert_eq!(answers[1].data, ResourceData::A(Ipv4Address::new(1, 2, 3, 4)));
}

#[test]
fn test_mismatched_length_skipped() {
    // An address record whose declared length is not 4 keeps the zero
    // placeholder, and the record after it still decodes correctly.
    let buf = [
        0, 7, 0, 0, 0, 1, 0, 2, 0, 0, 0, 0, // header, 2 answers
        1, 97, 0, 0, 1, 0, 1, // question: "a"
        192, 12, 0, 1, 0, 1, 0, 0, 0, 7, 0, 2, 8, 8, // type 1 but 2 payload bytes
        192, 12, 0, 1, 0, 1, 0, 0, 0, 9, 0, 4, 5, 6, 7, 8, // address record
    ];
    let parsed_message = parse_message(&buf).unwrap();
    let answers = parsed_message.answers.unwrap();
    assert_eq!(answers.len(), 2);
    assert_eq!(answers[0].r_type, 1);
    assert_eq!(answers[0].data_length, 2);
    assert_eq!(answers[0].data, ResourceData::A(Ipv4Address::new(0, 0, 0, 0)));
    assert_eq!(answers[1].ttl, 9);
    assert_eq!(answers[1].data, ResourceData::A(Ipv4Address::new(5, 6, 7, 8)));
}

#[test]
fn test_pointer_after_labels() {
    // An answer name of one plain label followed by a pointer back to the
    // question's name: the cached labels are appended after the plain one.
    let buf = [
        141, 225, 129, 160, 0, 1, 0, 1, 0, 0, 0, 0, // header
        7, 101, 120, 97, 109, 112, 108, 101, 3, 99, 111, 109, 0, 0, 1, 0, 1, // question
        3, 119, 119, 119, 192, 12, // answer name: "www" + pointer to offset 12
        0, 1, 0, 1, 0, 0, 0, 60, 0, 4, 10, 0, 0, 1,
    ];
    let parsed_message = parse_message(&buf).unwrap();
    let answers = parsed_message.answers.unwrap();
    assert_eq!(
        answers[0].name,
        vec!["www".to_string(), "example".to_string(), "com".to_string()]
    );
    assert_eq!(answers[0].ttl, 60);
    assert_eq!(answers[0].data, ResourceData::A(Ipv4Address::new(10, 0, 0, 1)));
}

#[test]
fn test_dangling_pointer_fails() {
    // The question's name is a pointer to offset 0, where no name was ever
    // decoded: a distinguishable failure, not a wrong or empty name.
    let buf = [0, 7, 0, 0, 0, 1, 0, 0, 0, 0, 0, 0, 192, 0, 0, 1, 0, 1];
    assert_eq!(parse_message(&buf), Err(DecodeError::DanglingPointer));
}

#[test]
fn test_truncated_header_fails() {
    let buf = [141, 225, 1];
    assert_eq!(parse_message(&buf), Err(DecodeError::OutOfBounds));
}

#[test]
fn test_truncated_label_fails() {
    // The label claims 7 bytes but the buffer ends after 3.
    let buf = [0, 7, 0, 0, 0, 1, 0, 0, 0, 0, 0, 0, 7, 101, 120, 97];
    assert_eq!(parse_message(&buf), Err(DecodeError::OutOfBounds));
}

#[test]
fn test_count_exceeds_buffer_fails() {
    // The header promises an answer the buffer does not hold.
    let buf = [0, 7, 0, 0, 0, 1, 0, 1, 0, 0, 0, 0, 1, 97, 0, 0, 1, 0, 1];
    assert_eq!(parse_message(&buf), Err(DecodeError::OutOfBounds));
}

#[test]
fn test_empty_name() {
    // A bare root byte is a valid, empty name.
    let buf = [0, 7, 0, 0, 0, 1, 0, 0, 0, 0, 0, 0, 0, 0, 1, 0, 1];
    let parsed_message = parse_message(&buf).unwrap();
    assert_eq!(parsed_message.question.domain_name, Vec::<String>::new());
    assert_eq!(parsed_message.question.q_type, 1);
    assert_eq!(parsed_message.question.q_class, 1);
}

#[test]
fn test_non_ascii_label_replaced() {
    // A label byte that is not valid UTF-8 decodes to the replacement
    // character rather than failing the parse.
    let buf = [0, 7, 0, 0, 0, 1, 0, 0, 0, 0, 0, 0, 1, 255, 0, 0, 1, 0, 1];
    let parsed_message = parse_message(&buf).unwrap();
    assert_eq!(parsed_message.question.domain_name, vec!["\u{fffd}".to_string()]);
}

#[test]
fn test_bits_set() {
    assert!(bits_set(0b1100_0000, 0b1100_0000));
    assert!(bits_set(0b1110_0000, 0b1100_0000));
    assert!(!bits_set(0b1000_0000, 0b1100_0000));
    assert!(!bits_set(0b0000_0000, 0b0000_0010));
    assert!(bits_set(0b0000_0011, 0b0000_0001));
}
