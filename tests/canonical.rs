use serde::ser::{Serialize, SerializeStruct, Serializer};
use serde_canonical_json::{CanonicalFormatter, CharEscape, FormatError};
use serde_json::ser::{CharEscape as JsonEscape, Formatter};
use std::collections::HashMap;
use std::io;

struct Adapter(CanonicalFormatter);

impl Adapter {
    fn run<W, F>(&mut self, writer: &mut W, f: F) -> io::Result<()>
    where
        W: ?Sized + io::Write,
        F: FnOnce(&mut CanonicalFormatter, &mut Vec<u8>) -> Result<(), FormatError>,
    {
        let mut buf = Vec::new();
        f(&mut self.0, &mut buf)
            .map_err(|e| io::Error::new(io::ErrorKind::InvalidData, format!("{:?}", e)))?;
        writer.write_all(&buf)
    }
}

fn escape_of(e: JsonEscape) -> CharEscape {
    match e {
        JsonEscape::Quote => CharEscape::Quote,
        JsonEscape::ReverseSolidus => CharEscape::ReverseSolidus,
        JsonEscape::Solidus => CharEscape::Solidus,
        JsonEscape::Backspace => CharEscape::Backspace,
        JsonEscape::FormFeed => CharEscape::FormFeed,
        JsonEscape::LineFeed => CharEscape::LineFeed,
        JsonEscape::CarriageReturn => CharEscape::CarriageReturn,
        JsonEscape::Tab => CharEscape::Tab,
        JsonEscape::AsciiControl(b) => CharEscape::AsciiControl(b),
    }
}

impl Formatter for Adapter {
    fn write_null<W: ?Sized + io::Write>(&mut self, w: &mut W) -> io::Result<()> {
        self.run(w, |f, o| f.write_null(o))
    }
    fn write_bool<W: ?Sized + io::Write>(&mut self, w: &mut W, v: bool) -> io::Result<()> {
        self.run(w, |f, o| f.write_bool(o, v))
    }
    fn write_i8<W: ?Sized + io::Write>(&mut self, w: &mut W, v: i8) -> io::Result<()> {
        self.run(w, |f, o| f.write_i8(o, v))
    }
    fn write_i16<W: ?Sized + io::Write>(&mut self, w: &mut W, v: i16) -> io::Result<()> {
        self.run(w, |f, o| f.write_i16(o, v))
    }
    fn write_i32<W: ?Sized + io::Write>(&mut self, w: &mut W, v: i32) -> io::Result<()> {
        self.run(w, |f, o| f.write_i32(o, v))
    }
    fn write_i64<W: ?Sized + io::Write>(&mut self, w: &mut W, v: i64) -> io::Result<()> {
        self.run(w, |f, o| f.write_i64(o, v))
    }
    fn write_i128<W: ?Sized + io::Write>(&mut self, w: &mut W, v: i128) -> io::Result<()> {
        self.run(w, |f, o| f.write_i128(o, v))
    }
    fn write_u8<W: ?Sized + io::Write>(&mut self, w: &mut W, v: u8) -> io::Result<()> {
        self.run(w, |f, o| f.write_u8(o, v))
    }
    fn write_u16<W: ?Sized + io::Write>(&mut self, w: &mut W, v: u16) -> io::Result<()> {
        self.run(w, |f, o| f.write_u16(o, v))
    }
    fn write_u32<W: ?Sized + io::Write>(&mut self, w: &mut W, v: u32) -> io::Result<()> {
        self.run(w, |f, o| f.write_u32(o, v))
    }
    fn write_u64<W: ?Sized + io::Write>(&mut self, w: &mut W, v: u64) -> io::Result<()> {
        self.run(w, |f, o| f.write_u64(o, v))
    }
    fn write_u128<W: ?Sized + io::Write>(&mut self, w: &mut W, v: u128) -> io::Result<()> {
        self.run(w, |f, o| f.write_u128(o, v))
    }
    fn write_f32<W: ?Sized + io::Write>(&mut self, w: &mut W, _v: f32) -> io::Result<()> {
        self.run(w, |f, o| f.write_float(o))
    }
    fn write_f64<W: ?Sized + io::Write>(&mut self, w: &mut W, _v: f64) -> io::Result<()> {
        self.run(w, |f, o| f.write_float(o))
    }
    fn write_number_str<W: ?Sized + io::Write>(&mut self, w: &mut W, v: &str) -> io::Result<()> {
        self.run(w, |f, o| f.write_number_str(o, v))
    }
    fn begin_string<W: ?Sized + io::Write>(&mut self, w: &mut W) -> io::Result<()> {
        self.run(w, |f, o| f.begin_string(o))
    }
    fn end_string<W: ?Sized + io::Write>(&mut self, w: &mut W) -> io::Result<()> {
        self.run(w, |f, o| f.end_string(o))
    }
    fn write_string_fragment<W: ?Sized + io::Write>(
        &mut self,
        w: &mut W,
        s: &str,
    ) -> io::Result<()> {
        self.run(w, |f, o| f.write_string_fragment(o, s))
    }
    fn write_char_escape<W: ?Sized + io::Write>(
        &mut self,
        w: &mut W,
        e: JsonEscape,
    ) -> io::Result<()> {
        let e = escape_of(e);
        self.run(w, |f, o| f.write_char_escape(o, e))
    }
    fn begin_array<W: ?Sized + io::Write>(&mut self, w: &mut W) -> io::Result<()> {
        self.run(w, |f, o| f.begin_array(o))
    }
    fn end_array<W: ?Sized + io::Write>(&mut self, w: &mut W) -> io::Result<()> {
        self.run(w, |f, o| f.end_array(o))
    }
    fn begin_array_value<W: ?Sized + io::Write>(&mut self, w: &mut W, first: bool) -> io::Result<()> {
        self.run(w, |f, o| f.begin_array_value(o, first))
    }
    fn end_array_value<W: ?Sized + io::Write>(&mut self, w: &mut W) -> io::Result<()> {
        self.run(w, |f, o| f.end_array_value(o))
    }
    fn begin_object<W: ?Sized + io::Write>(&mut self, w: &mut W) -> io::Result<()> {
        self.run(w, |f, o| f.begin_object(o))
    }
    fn end_object<W: ?Sized + io::Write>(&mut self, w: &mut W) -> io::Result<()> {
        self.run(w, |f, o| f.end_object(o))
    }
    fn begin_object_key<W: ?Sized + io::Write>(&mut self, w: &mut W, first: bool) -> io::Result<()> {
        self.run(w, |f, o| f.begin_object_key(o, first))
    }
    fn end_object_key<W: ?Sized + io::Write>(&mut self, w: &mut W) -> io::Result<()> {
        self.run(w, |f, o| f.end_object_key(o))
    }
    fn begin_object_value<W: ?Sized + io::Write>(&mut self, w: &mut W) -> io::Result<()> {
        self.run(w, |f, o| f.begin_object_value(o))
    }
    fn end_object_value<W: ?Sized + io::Write>(&mut self, w: &mut W) -> io::Result<()> {
        self.run(w, |f, o| f.end_object_value(o))
    }
    fn write_raw_fragment<W: ?Sized + io::Write>(&mut self, w: &mut W, s: &str) -> io::Result<()> {
        self.run(w, |f, o| f.write_raw_fragment(o, s))
    }
}

fn encode<T: Serialize + ?Sized>(value: &T) -> Result<Vec<u8>, serde_json::Error> {
    let mut ser =
        serde_json::Serializer::with_formatter(Vec::new(), Adapter(CanonicalFormatter::new()));
    value.serialize(&mut ser)?;
    Ok(ser.into_inner())
}

fn encode_string<T: Serialize + ?Sized>(value: &T) -> String {
    String::from_utf8(encode(value).unwrap()).unwrap()
}

#[derive(Debug, PartialEq)]
struct TestStruct1 {
    a: bool,
    b: bool,
    c: String,
    d: TestStruct2,
}

#[derive(Debug, PartialEq)]
struct TestStruct2 {
    h: HashMap<String, bool>,
    g: Option<isize>,
    f: String,
    e: Vec<isize>,
}

impl Serialize for TestStruct1 {
    fn serialize<S: Serializer>(&self, s: S) -> Result<S::Ok, S::Error> {
        let mut st = s.serialize_struct("TestStruct1", 4)?;
        st.serialize_field("a", &self.a)?;
        st.serialize_field("b", &self.b)?;
        st.serialize_field("c", &self.c)?;
        st.serialize_field("d", &self.d)?;
        st.end()
    }
}

impl Serialize for TestStruct2 {
    fn serialize<S: Serializer>(&self, s: S) -> Result<S::Ok, S::Error> {
        let mut st = s.serialize_struct("TestStruct2", 4)?;
        st.serialize_field("h", &self.h)?;
        st.serialize_field("g", &self.g)?;
        st.serialize_field("f", &self.f)?;
        st.serialize_field("e", &self.e)?;
        st.end()
    }
}

struct Data {
    c: isize,
    b: bool,
    a: String,
}

impl Serialize for Data {
    fn serialize<S: Serializer>(&self, s: S) -> Result<S::Ok, S::Error> {
        let mut st = s.serialize_struct("Data", 3)?;
        st.serialize_field("c", &self.c)?;
        st.serialize_field("b", &self.b)?;
        st.serialize_field("a", &self.a)?;
        st.end()
    }
}

fn sample_map() -> HashMap<String, bool> {
    let mut hash_map = HashMap::with_capacity(3);
    hash_map.insert("i".to_owned(), true);
    hash_map.insert("k".to_owned(), false);
    hash_map.insert("j".to_owned(), true);
    hash_map
}

#[test]
fn canonical() {
    let dut = TestStruct1 {
        a: true,
        b: false,
        c: "Hello, \"Canonical\"".to_string(),
        d: TestStruct2 {
            h: sample_map(),
            g: None,
            f: "Here is another".to_owned(),
            e: vec![2, 4, 19, -128],
        },
    };

    const EXPECTED: &str = r#"{"a":true,"b":false,"c":"Hello, \"Canonical\"","d":{"e":[2,4,19,-128],"f":"Here is another","g":null,"h":{"i":true,"j":true,"k":false}}}"#;

    let string = encode_string(&dut);
    assert_eq!(string, EXPECTED);

    let deserialized: serde_json::Value = serde_json::from_str(&string).unwrap();
    assert_eq!(serde_json::to_value(&dut).unwrap(), deserialized);
}

#[test]
fn struct_fields_come_out_sorted() {
    let data = Data { c: 120, b: false, a: "Hello!".to_owned() };
    assert_eq!(encode_string(&data), r#"{"a":"Hello!","b":false,"c":120}"#);
}

#[test]
fn map_keys_come_out_sorted() {
    assert_eq!(encode_string(&sample_map()), r#"{"i":true,"j":true,"k":false}"#);
}

#[test]
fn map_output_is_stable_across_runs() {
    let first = encode_string(&sample_map());
    for _ in 0..5 {
        assert_eq!(encode_string(&sample_map()), first);
    }
}

#[test]
fn quote_is_escaped() {
    assert_eq!(encode_string("Hello, \"Canonical\""), r#""Hello, \"Canonical\"""#);
}

#[test]
fn nested_value_sorted() {
    let v = TestStruct2 {
        h: sample_map(),
        g: None,
        f: "Here is another".to_owned(),
        e: vec![2, 4, 19, -128],
    };
    assert_eq!(
        encode_string(&v),
        r#"{"e":[2,4,19,-128],"f":"Here is another","g":null,"h":{"i":true,"j":true,"k":false}}"#
    );
}

#[test]
fn control_byte_is_written_raw() {
    assert_eq!(encode("a\u{1}b").unwrap(), vec![b'"', b'a', 0x01, b'b', b'"']);
}

#[test]
fn minimal_escape_table() {
    let out = encode("\\/\u{8}\u{c}\n\r\t").unwrap();
    assert_eq!(out, b"\"\\\\/\x08\x0c\n\r\t\"".to_vec());
}

#[test]
fn escape_events_direct() {
    let cases: Vec<(CharEscape, Vec<u8>)> = vec![
        (CharEscape::Quote, b"\\\"".to_vec()),
        (CharEscape::ReverseSolidus, b"\\\\".to_vec()),
        (CharEscape::Solidus, b"/".to_vec()),
        (CharEscape::Backspace, vec![0x08]),
        (CharEscape::FormFeed, vec![0x0c]),
        (CharEscape::LineFeed, vec![0x0a]),
        (CharEscape::CarriageReturn, vec![0x0d]),
        (CharEscape::Tab, vec![0x09]),
        (CharEscape::AsciiControl(0x1f), vec![0x1f]),
    ];
    for (e, expected) in cases {
        let mut f = CanonicalFormatter::new();
        let mut out = Vec::new();
        assert_eq!(f.write_char_escape(&mut out, e), Ok(()));
        assert_eq!(out, expected);
    }
}

#[test]
fn round_trip_gives_equal_value() {
    let dut = TestStruct2 {
        h: sample_map(),
        g: Some(-7),
        f: "quote\"slash/back\\".to_owned(),
        e: vec![0, 1, -1, 1000],
    };
    let bytes = encode(&dut).unwrap();
    let parsed: serde_json::Value = serde_json::from_slice(&bytes).unwrap();
    assert_eq!(parsed, serde_json::to_value(&dut).unwrap());
}

#[test]
fn raw_control_bytes_are_not_strict_json() {
    let bytes = encode("tab\there").unwrap();
    assert_eq!(bytes, b"\"tab\there\"".to_vec());
    assert!(serde_json::from_slice::<serde_json::Value>(&bytes).is_err());
}

#[test]
fn floats_are_refused() {
    assert!(encode(&1.5f64).is_err());
    assert!(encode(&2.0f32).is_err());
    assert!(encode(&vec![1.0f64]).is_err());
    let mut f = CanonicalFormatter::new();
    let mut out = Vec::new();
    assert_eq!(f.write_float(&mut out), Err(FormatError::UnsupportedFloat));
    assert!(out.is_empty());
}

#[test]
fn number_literals() {
    for good in ["0", "7", "-5", "10", "42", "-12", "1234567890123456789012345"] {
        let mut f = CanonicalFormatter::new();
        let mut out = Vec::new();
        assert_eq!(f.write_number_str(&mut out, good), Ok(()), "{}", good);
        assert_eq!(out, good.as_bytes().to_vec());
    }
    for bad in ["01", "-0", "1.0", "1e5", "", "-", "-01", "+1", "00", " 1", "\u{663}"] {
        let mut f = CanonicalFormatter::new();
        let mut out = Vec::new();
        assert_eq!(
            f.write_number_str(&mut out, bad),
            Err(FormatError::InvalidNumberLiteral),
            "{}",
            bad
        );
        assert!(out.is_empty());
    }
}

#[test]
fn integer_extremes() {
    assert_eq!(encode_string(&-128i8), "-128");
    assert_eq!(encode_string(&0u8), "0");
    assert_eq!(encode_string(&u128::MAX), "340282366920938463463374607431768211455");
    assert_eq!(encode_string(&i128::MIN), "-170141183460469231731687303715884105728");
    assert_eq!(encode_string(&i64::MIN), "-9223372036854775808");
    assert_eq!(encode_string(&u64::MAX), "18446744073709551615");
    assert_eq!(encode_string(&-1i16), "-1");
    assert_eq!(encode_string(&65535u16), "65535");
    assert_eq!(encode_string(&-2147483648i32), "-2147483648");
    assert_eq!(encode_string(&4294967295u32), "4294967295");
}

#[test]
fn scalars_at_top_level_go_straight_out() {
    let mut f = CanonicalFormatter::new();
    let mut out = Vec::new();
    assert_eq!(f.write_bool(&mut out, true), Ok(()));
    assert_eq!(f.write_null(&mut out), Ok(()));
    assert_eq!(f.write_u8(&mut out, 19), Ok(()));
    assert_eq!(out, b"truenull19".to_vec());
}

fn key(f: &mut CanonicalFormatter, out: &mut Vec<u8>, k: &str, first: bool) {
    f.begin_object_key(out, first).unwrap();
    f.begin_string(out).unwrap();
    f.write_string_fragment(out, k).unwrap();
    f.end_string(out).unwrap();
    f.end_object_key(out).unwrap();
    f.begin_object_value(out).unwrap();
}

#[test]
fn nested_objects_sort_locally() {
    let mut f = CanonicalFormatter::new();
    let mut out = Vec::new();
    f.begin_object(&mut out).unwrap();
    key(&mut f, &mut out, "b", true);
    f.begin_object(&mut out).unwrap();
    key(&mut f, &mut out, "d", true);
    f.write_i32(&mut out, 1).unwrap();
    key(&mut f, &mut out, "c", false);
    f.write_i32(&mut out, 2).unwrap();
    f.end_object(&mut out).unwrap();
    assert!(out.is_empty());
    key(&mut f, &mut out, "a", false);
    f.begin_object(&mut out).unwrap();
    key(&mut f, &mut out, "f", true);
    f.write_i32(&mut out, 1).unwrap();
    key(&mut f, &mut out, "e", false);
    f.write_i32(&mut out, 2).unwrap();
    f.end_object(&mut out).unwrap();
    f.end_object(&mut out).unwrap();
    assert_eq!(String::from_utf8(out).unwrap(), r#"{"a":{"e":2,"f":1},"b":{"c":2,"d":1}}"#);
}

#[test]
fn equal_keys_keep_their_order() {
    let mut f = CanonicalFormatter::new();
    let mut out = Vec::new();
    f.begin_object(&mut out).unwrap();
    key(&mut f, &mut out, "b", true);
    f.write_u64(&mut out, 0).unwrap();
    key(&mut f, &mut out, "a", false);
    f.write_u64(&mut out, 1).unwrap();
    key(&mut f, &mut out, "a", false);
    f.write_u64(&mut out, 2).unwrap();
    f.end_object(&mut out).unwrap();
    assert_eq!(String::from_utf8(out).unwrap(), r#"{"a":1,"a":2,"b":0}"#);
}

#[test]
fn keys_compare_as_rendered_text() {
    let mut f = CanonicalFormatter::new();
    let mut out = Vec::new();
    f.begin_object(&mut out).unwrap();
    f.begin_object_key(&mut out, true).unwrap();
    f.begin_string(&mut out).unwrap();
    f.write_string_fragment(&mut out, "a").unwrap();
    f.write_char_escape(&mut out, CharEscape::Quote).unwrap();
    f.end_string(&mut out).unwrap();
    f.end_object_key(&mut out).unwrap();
    f.write_bool(&mut out, true).unwrap();
    key(&mut f, &mut out, "a", false);
    f.write_bool(&mut out, false).unwrap();
    key(&mut f, &mut out, "", false);
    f.write_null(&mut out).unwrap();
    f.end_object(&mut out).unwrap();
    assert_eq!(String::from_utf8(out).unwrap(), r#"{"":null,"a":false,"a\"":true}"#);
}

#[test]
fn empty_object_and_array() {
    let empty: HashMap<String, i32> = HashMap::new();
    assert_eq!(encode_string(&empty), "{}");
    let none: Vec<i32> = Vec::new();
    assert_eq!(encode_string(&none), "[]");
}

#[test]
fn arrays_keep_order_inside_objects() {
    let mut m: HashMap<String, Vec<i32>> = HashMap::new();
    m.insert("z".to_owned(), vec![3, 1, 2]);
    m.insert("y".to_owned(), vec![]);
    assert_eq!(encode_string(&m), r#"{"y":[],"z":[3,1,2]}"#);
}

#[test]
fn end_object_without_object_is_a_violation() {
    let mut f = CanonicalFormatter::new();
    let mut out = Vec::new();
    assert_eq!(f.end_object(&mut out), Err(FormatError::ProtocolViolation));
    assert_eq!(f.begin_object_key(&mut out, true), Err(FormatError::ProtocolViolation));
    assert_eq!(f.end_object_key(&mut out), Err(FormatError::ProtocolViolation));
    assert!(out.is_empty());
}

#[test]
fn write_without_member_is_a_violation() {
    let mut f = CanonicalFormatter::new();
    let mut out = Vec::new();
    f.begin_object(&mut out).unwrap();
    assert_eq!(f.write_null(&mut out), Err(FormatError::ProtocolViolation));
    assert_eq!(f.end_object_key(&mut out), Err(FormatError::ProtocolViolation));
    f.begin_object(&mut out).unwrap();
    assert_eq!(f.end_object(&mut out), Err(FormatError::ProtocolViolation));
    assert!(out.is_empty());
}

#[test]
fn raw_fragment_passes_through() {
    let mut f = CanonicalFormatter::new();
    let mut out = Vec::new();
    f.begin_object(&mut out).unwrap();
    key(&mut f, &mut out, "r", true);
    f.write_raw_fragment(&mut out, "[1,2]").unwrap();
    f.end_object(&mut out).unwrap();
    assert_eq!(String::from_utf8(out).unwrap(), r#"{"r":[1,2]}"#);
}
