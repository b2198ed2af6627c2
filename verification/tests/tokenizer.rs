use tiny_basic::char_stream::{AsciiCharStream, Keyword, RelationalOperator};

#[test]
fn test_consume_number() {
    {
        let mut stream = AsciiCharStream::from_ascii_str(b"10123 1232".to_vec());
        assert_eq!(
            String::from_utf8(stream.consume_number().unwrap())
                .unwrap()
                .parse::<i32>()
                .unwrap(),
            10123
        );
        assert_eq!(
            String::from_utf8(stream.consume_number().unwrap())
                .unwrap()
                .parse::<i32>()
                .unwrap(),
            1232
        );
        assert!(stream.consume_number().is_none());
    }
}

#[test]
fn test_consume_keyword() {
    {
        let mut stream = AsciiCharStream::from_ascii_str(b"PRINT IF 10123 1232".to_vec());
        assert_eq!(stream.consume_keyword().unwrap(), Keyword::Print);
        assert_eq!(stream.consume_keyword().unwrap(), Keyword::If);
        assert!(stream.consume_keyword().is_none());
    }
}

#[test]
fn test_consume_string() {
    {
        let mut stream = AsciiCharStream::from_ascii_str(b"PRINT \"Hello world\"".to_vec());
        assert_eq!(stream.consume_keyword().unwrap(), Keyword::Print);
        assert_eq!(stream.consume_string().unwrap().unwrap(), b"Hello world".to_vec());
        assert!(stream.is_empty());
    }

    {
        let mut stream = AsciiCharStream::from_ascii_str(b"PRINT \"\"".to_vec());
        assert_eq!(stream.consume_keyword().unwrap(), Keyword::Print);
        assert_eq!(stream.consume_string().unwrap().unwrap(), b"".to_vec());
    }
}

#[test]
fn test_consume_var() {
    {
        let mut stream = AsciiCharStream::from_ascii_str(b"PRINT A".to_vec());
        assert_eq!(stream.consume_keyword().unwrap(), Keyword::Print);
        assert_eq!(stream.consume_var().unwrap(), b"A".to_vec());
    }
}

#[test]
fn test_is_empty() {
    {
        let mut stream = AsciiCharStream::from_ascii_str(b"PRINT A".to_vec());
        assert_eq!(stream.consume_keyword().unwrap(), Keyword::Print);
        assert_eq!(stream.consume_var().unwrap(), b"A".to_vec());
        assert!(stream.is_empty());
    }
}

#[test]
fn test_consume_relop_forms() {
    let cases: Vec<(&[u8], RelationalOperator)> = vec![
        (b"<", RelationalOperator::Less),
        (b">", RelationalOperator::Greater),
        (b"<=", RelationalOperator::LessEqual),
        (b">=", RelationalOperator::GreaterEqual),
        (b"<>", RelationalOperator::NotEqual),
        (b"><", RelationalOperator::NotEqual),
        (b"=", RelationalOperator::Equal),
    ];
    for (text, expected) in cases {
        let mut stream = AsciiCharStream::from_ascii_str(text.to_vec());
        assert_eq!(stream.consume_relop().unwrap(), expected);
        assert!(stream.is_empty());
    }
}

#[test]
fn test_check_ascii_rejects_high_bytes() {
    // Exercises the ASCII validation through the library: a pure pass-through
    // would accept these bytes.
    assert!(tiny_basic::text::check_ascii(&b"PRINT 1".to_vec()));
    assert!(!tiny_basic::text::check_ascii(&vec![80u8, 200u8]));
    assert!(!tiny_basic::text::check_ascii(&vec![128u8]));
    assert!(tiny_basic::text::check_ascii(&vec![127u8]));
}
