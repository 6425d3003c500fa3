use pdfx::{
    ensure_info_object, get_info_dict, get_info_value, object_to_string, set_info_value, Document,
    Error, Object, ObjectId, StringFormat,
};

#[test]
fn set_and_get_info_value() {
    let mut doc = Document::with_version("1.5");
    set_info_value(&mut doc, b"Title".to_vec(), "Hello".to_string()).unwrap();
    let title = get_info_value(&doc, b"Title").unwrap();
    assert_eq!(title.as_deref(), Some("Hello"));
}

#[test]
fn new_document_title_hello() {
    let mut doc = Document::new();
    set_info_value(&mut doc, b"Title".to_vec(), "Hello".to_string()).unwrap();
    assert_eq!(
        get_info_value(&doc, b"Title").unwrap().as_deref(),
        Some("Hello")
    );
}

#[test]
fn absent_info_reads_none_for_any_key() {
    let doc = Document::new();
    assert_eq!(get_info_value(&doc, b"Title").unwrap(), None);
    assert_eq!(get_info_value(&doc, b"Author").unwrap(), None);
    assert_eq!(get_info_value(&doc, b"").unwrap(), None);
    assert!(get_info_dict(&doc).unwrap().is_none());
}

#[test]
fn missing_key_in_existing_info_reads_none() {
    let mut doc = Document::new();
    set_info_value(&mut doc, b"Title".to_vec(), "X".to_string()).unwrap();
    assert_eq!(get_info_value(&doc, b"Author").unwrap(), None);
}

#[test]
fn promotion_preserves_siblings() {
    let mut doc = Document::new();
    let mut inline = pdfx::Dictionary::new();
    inline.set(
        b"Author".to_vec(),
        Object::Text(b"Bob".to_vec(), StringFormat::Literal),
    );
    doc.trailer.set(b"Info".to_vec(), Object::Dictionary(inline));

    set_info_value(&mut doc, b"Title".to_vec(), "X".to_string()).unwrap();

    assert_eq!(
        get_info_value(&doc, b"Author").unwrap().as_deref(),
        Some("Bob")
    );
    assert_eq!(
        get_info_value(&doc, b"Title").unwrap().as_deref(),
        Some("X")
    );
    let entry = doc.trailer.get(b"Info").unwrap();
    assert!(matches!(entry, Object::Reference(_)));
}

#[test]
fn ensure_info_object_is_idempotent() {
    let mut doc = Document::new();
    let first = ensure_info_object(&mut doc).unwrap();
    let second = ensure_info_object(&mut doc).unwrap();
    assert_eq!(first, second);
}

#[test]
fn ensure_info_object_keeps_existing_reference() {
    let mut doc = Document::new();
    set_info_value(&mut doc, b"Title".to_vec(), "X".to_string()).unwrap();
    let before = match doc.trailer.get(b"Info").unwrap() {
        Object::Reference(id) => *id,
        _ => panic!("Info entry should be a reference"),
    };
    let again = ensure_info_object(&mut doc).unwrap();
    assert_eq!(before, again);
}

#[test]
fn malformed_info_entry_is_silently_replaced() {
    let mut doc = Document::new();
    doc.trailer.set(b"Info".to_vec(), Object::Integer(5));
    set_info_value(&mut doc, b"Title".to_vec(), "Fresh".to_string()).unwrap();
    assert_eq!(
        get_info_value(&doc, b"Title").unwrap().as_deref(),
        Some("Fresh")
    );
    assert!(matches!(
        doc.trailer.get(b"Info").unwrap(),
        Object::Reference(_)
    ));
}

#[test]
fn info_reference_to_non_dictionary_is_a_type_error() {
    let mut doc = Document::new();
    let id = doc.new_object_id();
    doc.set_object(id, Object::Integer(9));
    doc.trailer.set(b"Info".to_vec(), Object::Reference(id));
    assert_eq!(get_info_value(&doc, b"Title"), Err(Error::InfoType));
    assert_eq!(get_info_dict(&doc).unwrap_err(), Error::InfoType);
    assert_eq!(
        set_info_value(&mut doc, b"Title".to_vec(), "X".to_string()),
        Err(Error::InfoType)
    );
}

#[test]
fn dangling_info_reference_is_a_resolution_error() {
    let mut doc = Document::new();
    doc.trailer.set(
        b"Info".to_vec(),
        Object::Reference(ObjectId {
            number: 77,
            generation: 0,
        }),
    );
    assert_eq!(get_info_value(&doc, b"Title"), Err(Error::ReferenceResolution));
    assert_eq!(
        set_info_value(&mut doc, b"Title".to_vec(), "X".to_string()),
        Err(Error::ReferenceResolution)
    );
}

#[test]
fn round_trip_keeps_non_ascii_text() {
    let mut doc = Document::new();
    set_info_value(&mut doc, b"Title".to_vec(), "H\u{e9}llo \u{4e16}\u{754c}".to_string())
        .unwrap();
    assert_eq!(
        get_info_value(&doc, b"Title").unwrap().as_deref(),
        Some("H\u{e9}llo \u{4e16}\u{754c}")
    );
}

#[test]
fn overwriting_a_key_keeps_the_last_value() {
    let mut doc = Document::new();
    set_info_value(&mut doc, b"Title".to_vec(), "One".to_string()).unwrap();
    set_info_value(&mut doc, b"Title".to_vec(), "Two".to_string()).unwrap();
    assert_eq!(
        get_info_value(&doc, b"Title").unwrap().as_deref(),
        Some("Two")
    );
}

fn doc_with_info_value(value: Object) -> Document {
    let mut doc = Document::new();
    let mut inline = pdfx::Dictionary::new();
    inline.set(b"K".to_vec(), value);
    doc.trailer.set(b"Info".to_vec(), Object::Dictionary(inline));
    doc
}

#[test]
fn scalar_values_render_by_value() {
    let doc = doc_with_info_value(Object::Integer(42));
    assert_eq!(get_info_value(&doc, b"K").unwrap().as_deref(), Some("42"));

    let doc = doc_with_info_value(Object::Integer(-7));
    assert_eq!(get_info_value(&doc, b"K").unwrap().as_deref(), Some("-7"));

    let doc = doc_with_info_value(Object::Integer(i64::MIN));
    assert_eq!(
        get_info_value(&doc, b"K").unwrap().as_deref(),
        Some("-9223372036854775808")
    );

    let doc = doc_with_info_value(Object::Integer(0));
    assert_eq!(get_info_value(&doc, b"K").unwrap().as_deref(), Some("0"));

    let doc = doc_with_info_value(Object::Boolean(true));
    assert_eq!(get_info_value(&doc, b"K").unwrap().as_deref(), Some("true"));

    let doc = doc_with_info_value(Object::Boolean(false));
    assert_eq!(get_info_value(&doc, b"K").unwrap().as_deref(), Some("false"));

    let doc = doc_with_info_value(Object::Null);
    assert_eq!(get_info_value(&doc, b"K").unwrap().as_deref(), Some("null"));

    let doc = doc_with_info_value(Object::Real("3.14".to_string()));
    assert_eq!(get_info_value(&doc, b"K").unwrap().as_deref(), Some("3.14"));

    let doc = doc_with_info_value(Object::Name(b"Producer".to_vec()));
    assert_eq!(
        get_info_value(&doc, b"K").unwrap().as_deref(),
        Some("Producer")
    );
}

#[test]
fn invalid_utf8_bytes_render_with_replacement() {
    let doc = doc_with_info_value(Object::Text(
        vec![0x41, 0xff, 0x42],
        StringFormat::Literal,
    ));
    assert_eq!(
        get_info_value(&doc, b"K").unwrap().as_deref(),
        Some("A\u{fffd}B")
    );
}

#[test]
fn info_value_reference_resolves_one_hop() {
    let mut doc = Document::new();
    let id = doc.new_object_id();
    doc.set_object(id, Object::Text(b"Carol".to_vec(), StringFormat::Hexadecimal));
    let mut inline = pdfx::Dictionary::new();
    inline.set(b"Author".to_vec(), Object::Reference(id));
    doc.trailer.set(b"Info".to_vec(), Object::Dictionary(inline));
    assert_eq!(
        get_info_value(&doc, b"Author").unwrap().as_deref(),
        Some("Carol")
    );
}

#[test]
fn reference_to_reference_renders_as_placeholder() {
    let mut doc = Document::new();
    let inner = doc.new_object_id();
    doc.set_object(inner, Object::Text(b"deep".to_vec(), StringFormat::Literal));
    let outer = doc.new_object_id();
    doc.set_object(outer, Object::Reference(inner));
    let doc2 = {
        let mut d = doc;
        let mut inline = pdfx::Dictionary::new();
        inline.set(b"K".to_vec(), Object::Reference(outer));
        d.trailer.set(b"Info".to_vec(), Object::Dictionary(inline));
        d
    };
    assert_eq!(
        get_info_value(&doc2, b"K").unwrap().as_deref(),
        Some("<reference>")
    );
}

#[test]
fn container_values_render_as_placeholders() {
    let doc = doc_with_info_value(Object::Array(vec![Object::Null]));
    assert_eq!(
        get_info_value(&doc, b"K").unwrap().as_deref(),
        Some("<array>")
    );

    let doc = doc_with_info_value(Object::Dictionary(pdfx::Dictionary::new()));
    assert_eq!(
        get_info_value(&doc, b"K").unwrap().as_deref(),
        Some("<dictionary>")
    );

    let doc = doc_with_info_value(Object::Stream(pdfx::Dictionary::new(), vec![1, 2]));
    assert_eq!(
        get_info_value(&doc, b"K").unwrap().as_deref(),
        Some("<stream>")
    );
}

#[test]
fn object_to_string_reports_dangling_reference() {
    let doc = Document::new();
    let obj = Object::Reference(ObjectId {
        number: 3,
        generation: 0,
    });
    assert_eq!(
        object_to_string(&doc, &obj).unwrap_err(),
        Error::ReferenceResolution
    );
}
