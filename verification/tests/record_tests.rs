use record_codec::error::DecodeError;
use record_codec::record::ColumnType;
use record_codec::record::Record;
use record_codec::record::RecordType;
use record_codec::record::Value;

fn names(list: &[&str]) -> Vec<String> {
    list.iter().map(|s| String::from(*s)).collect()
}

#[test]
fn tag_resolution_fixed_codes() {
    assert_eq!(ColumnType::try_from(0).unwrap(), ColumnType::Null);
    assert_eq!(ColumnType::try_from(1).unwrap(), ColumnType::I8);
    assert_eq!(ColumnType::try_from(2).unwrap(), ColumnType::I16);
    assert_eq!(ColumnType::try_from(3).unwrap(), ColumnType::I24);
    assert_eq!(ColumnType::try_from(4).unwrap(), ColumnType::I32);
    assert_eq!(ColumnType::try_from(5).unwrap(), ColumnType::I48);
    assert_eq!(ColumnType::try_from(6).unwrap(), ColumnType::I64);
    assert_eq!(ColumnType::try_from(7).unwrap(), ColumnType::F64);
    assert_eq!(ColumnType::try_from(8).unwrap(), ColumnType::Zero);
    assert_eq!(ColumnType::try_from(9).unwrap(), ColumnType::One);
}

#[test]
fn tag_resolution_reserved_codes_fail() {
    assert_eq!(ColumnType::try_from(10).unwrap_err(), DecodeError::InvalidColumnType);
    assert_eq!(ColumnType::try_from(11).unwrap_err(), DecodeError::InvalidColumnType);
}

#[test]
fn tag_resolution_blob_and_text_lengths() {
    assert_eq!(ColumnType::try_from(12).unwrap(), ColumnType::Blob(0));
    assert_eq!(ColumnType::try_from(13).unwrap(), ColumnType::Text(0));
    assert_eq!(ColumnType::try_from(19).unwrap(), ColumnType::Text(3));
    assert_eq!(ColumnType::try_from(20).unwrap(), ColumnType::Blob(4));
    assert_eq!(ColumnType::try_from(1000).unwrap(), ColumnType::Blob(494));
    assert_eq!(ColumnType::try_from(1001).unwrap(), ColumnType::Text(494));
}

#[test]
fn tag_sizes() {
    assert_eq!(ColumnType::Null.size(), 0);
    assert_eq!(ColumnType::I8.size(), 1);
    assert_eq!(ColumnType::I16.size(), 2);
    assert_eq!(ColumnType::I24.size(), 3);
    assert_eq!(ColumnType::I32.size(), 4);
    assert_eq!(ColumnType::I48.size(), 6);
    assert_eq!(ColumnType::I64.size(), 8);
    assert_eq!(ColumnType::F64.size(), 8);
    assert_eq!(ColumnType::Zero.size(), 0);
    assert_eq!(ColumnType::One.size(), 0);
    assert_eq!(ColumnType::Blob(17).size(), 17);
    assert_eq!(ColumnType::Text(5).size(), 5);
}

#[test]
fn value_equality_text_blob_group() {
    assert_eq!(Value::Text(String::from("abc")), Value::Blob(String::from("abc")));
    assert_eq!(Value::Blob(String::from("abc")), Value::Text(String::from("abc")));
    assert_eq!(Value::Text(String::from("abc")), Value::Text(String::from("abc")));
    assert_ne!(Value::Text(String::from("abc")), Value::Blob(String::from("abd")));
}

#[test]
fn value_equality_null_equals_nothing() {
    assert_ne!(Value::Null, Value::Null);
    assert_ne!(Value::Null, Value::Integer(0));
    assert_ne!(Value::Integer(0), Value::Null);
    assert_ne!(Value::Null, Value::Text(String::from("")));
}

#[test]
fn value_equality_integer_real_strict() {
    assert_eq!(Value::Integer(5), Value::Integer(5));
    assert_ne!(Value::Integer(5), Value::Integer(6));
    assert_ne!(Value::Integer(5), Value::Real((5.0f64).to_bits()));
    assert_eq!(Value::Real((5.0f64).to_bits()), Value::Real((5.0f64).to_bits()));
    assert_ne!(Value::Real((5.0f64).to_bits()), Value::Real((6.0f64).to_bits()));
    assert_ne!(Value::Integer(5), Value::Text(String::from("5")));
}

#[test]
fn value_accessors() {
    assert_eq!(Value::Integer(-7).as_integer(), Some(-7));
    assert_eq!(Value::Null.as_integer(), None);
    assert_eq!(Value::Real((2.5f64).to_bits()).as_real(), Some((2.5f64).to_bits()));
    assert_eq!(Value::Integer(1).as_real(), None);
    assert_eq!(Value::Text(String::from("hi")).as_text(), Some("hi"));
    assert_eq!(Value::Blob(String::from("hi")).as_text(), None);
    assert_eq!(Value::Blob(String::from("hi")).as_blob(), Some("hi"));
    assert_eq!(Value::Text(String::from("hi")).as_blob(), None);
}

#[test]
fn table_record_with_id_alias_and_text() {
    // Row id 7; header: size 3, tags Null and Text(3); payload "bob".
    let bytes = [0x07, 0x03, 0x00, 0x13, b'b', b'o', b'b'];
    let cols = names(&["id", "name"]);
    let (rest, rec) = Record::parse(&bytes, &cols, RecordType::Table).unwrap();
    assert!(rest.is_empty());
    assert_eq!(rec.values.len(), 2);
    assert_eq!(rec.get("id").unwrap().as_integer(), Some(7));
    assert_eq!(rec.get("name").unwrap().as_text(), Some("bob"));
}

#[test]
fn index_record_sign_extends_i8() {
    let bytes = [0x02, 0x01, 0xFF];
    let cols = names(&["key"]);
    let (rest, rec) = Record::parse(&bytes, &cols, RecordType::Index).unwrap();
    assert!(rest.is_empty());
    assert_eq!(rec.get("key").unwrap().as_integer(), Some(-1));
}

#[test]
fn header_size_mismatch_fails_before_payload() {
    // Declared size 3, but the size field and one tag consume only 2 bytes.
    let bytes = [0x03, 0x01, 0xFF];
    let cols = names(&["key"]);
    let err = Record::parse(&bytes, &cols, RecordType::Index).unwrap_err();
    assert_eq!(err, DecodeError::SizeMismatch);
}

#[test]
fn blob_payload_truncated() {
    // Tag 0x14 is Blob(4), but only two payload bytes remain.
    let bytes = [0x02, 0x14, b'a', b'b'];
    let cols = names(&["b"]);
    let err = Record::parse(&bytes, &cols, RecordType::Index).unwrap_err();
    assert_eq!(err, DecodeError::Truncated);
}

#[test]
fn reserved_tag_fails() {
    let bytes = [0x02, 0x0A];
    let cols = names(&["c"]);
    let err = Record::parse(&bytes, &cols, RecordType::Index).unwrap_err();
    assert_eq!(err, DecodeError::InvalidColumnType);
}

#[test]
fn unsupported_widths_fail() {
    for tag in [0x05u8, 0x06, 0x07] {
        let bytes = [0x02, tag, 0, 0, 0, 0, 0, 0, 0, 0];
        let cols = names(&["c"]);
        let err = Record::parse(&bytes, &cols, RecordType::Index).unwrap_err();
        assert_eq!(err, DecodeError::UnsupportedWidth);
    }
}

#[test]
fn invalid_utf8_text_fails() {
    // Tag 0x0F is Text(1); 0xFF is not valid UTF-8.
    let bytes = [0x02, 0x0F, 0xFF];
    let cols = names(&["t"]);
    let err = Record::parse(&bytes, &cols, RecordType::Index).unwrap_err();
    assert_eq!(err, DecodeError::InvalidText);
}

#[test]
fn truncated_row_id_and_header() {
    let cols = names(&["c"]);
    assert_eq!(Record::parse(&[], &cols, RecordType::Table).unwrap_err(), DecodeError::Truncated);
    assert_eq!(Record::parse(&[], &cols, RecordType::Index).unwrap_err(), DecodeError::Truncated);
    // Row id decodes, header size field missing.
    assert_eq!(
        Record::parse(&[0x05], &cols, RecordType::Table).unwrap_err(),
        DecodeError::Truncated
    );
}

#[test]
fn null_alias_applies_only_to_table_id() {
    // Index record: a null-tagged column named "id" stays null.
    let bytes = [0x02, 0x00];
    let cols = names(&["id"]);
    let (_, rec) = Record::parse(&bytes, &cols, RecordType::Index).unwrap();
    assert!(matches!(rec.get("id"), Some(Value::Null)));

    // Table record: a null-tagged column not named "id" stays null.
    let bytes = [0x09, 0x02, 0x00];
    let cols = names(&["other"]);
    let (_, rec) = Record::parse(&bytes, &cols, RecordType::Table).unwrap();
    assert!(matches!(rec.get("other"), Some(Value::Null)));
}

#[test]
fn multibyte_text_decodes() {
    // Tag 0x11 is Text(2); the two bytes encode one two-byte character.
    let bytes = [0x02, 0x11, 0xC3, 0xA9];
    let cols = names(&["s"]);
    let (_, rec) = Record::parse(&bytes, &cols, RecordType::Index).unwrap();
    assert_eq!(rec.get("s").unwrap().as_text(), Some("\u{e9}"));
}

#[test]
fn fixed_width_integers_decode() {
    // I16: 0xFFFE is -2.
    let bytes = [0x02, 0x02, 0xFF, 0xFE];
    let cols = names(&["c"]);
    let (_, rec) = Record::parse(&bytes, &cols, RecordType::Index).unwrap();
    assert_eq!(rec.get("c").unwrap().as_integer(), Some(-2));

    // I24 reads through a zero high byte: 0xFFFFFF stays positive.
    let bytes = [0x02, 0x03, 0xFF, 0xFF, 0xFF];
    let (_, rec) = Record::parse(&bytes, &cols, RecordType::Index).unwrap();
    assert_eq!(rec.get("c").unwrap().as_integer(), Some(0xFF_FFFF));

    // I32: 0x80000000 is the most negative 32-bit value.
    let bytes = [0x02, 0x04, 0x80, 0x00, 0x00, 0x00];
    let (_, rec) = Record::parse(&bytes, &cols, RecordType::Index).unwrap();
    assert_eq!(rec.get("c").unwrap().as_integer(), Some(-2147483648));
}

#[test]
fn constant_tags_decode_to_zero() {
    let bytes = [0x03, 0x08, 0x09];
    let cols = names(&["a", "b"]);
    let (_, rec) = Record::parse(&bytes, &cols, RecordType::Index).unwrap();
    assert_eq!(rec.get("a").unwrap().as_integer(), Some(0));
    assert_eq!(rec.get("b").unwrap().as_integer(), Some(0));
}

#[test]
fn remainder_is_returned() {
    let bytes = [0x02, 0x01, 0x2A, 0xDE, 0xAD];
    let cols = names(&["k"]);
    let (rest, rec) = Record::parse(&bytes, &cols, RecordType::Index).unwrap();
    assert_eq!(rest, &[0xDE, 0xAD]);
    assert_eq!(rec.get("k").unwrap().as_integer(), Some(42));
}

#[test]
fn values_keep_column_order() {
    let bytes = [0x07, 0x03, 0x01, 0x01, 0x01, 0x02];
    let cols = names(&["x", "y"]);
    let (_, rec) = Record::parse(&bytes, &cols, RecordType::Table).unwrap();
    assert_eq!(rec.values[0].0, "x");
    assert_eq!(rec.values[0].1.as_integer(), Some(1));
    assert_eq!(rec.values[1].0, "y");
    assert_eq!(rec.values[1].1.as_integer(), Some(2));
    assert!(rec.get("missing").is_none());
}
