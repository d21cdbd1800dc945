use purrtunes::assembler::{assemble, render_field, Field, FieldMode};
use purrtunes::codec::{base64_decode, base64_encode};

fn plain(name: &str, value: &str) -> Field {
    Field { name: name.to_string(), value: value.to_string(), mode: FieldMode::Plain }
}

fn stored(name: &str, value: &str) -> Field {
    Field { name: name.to_string(), value: value.to_string(), mode: FieldMode::StoredEncoded }
}

fn reembed(name: &str, value: &str, prefix: &str) -> Field {
    Field {
        name: name.to_string(),
        value: value.to_string(),
        mode: FieldMode::StoredEncodedReembed(prefix.to_string()),
    }
}

fn decode_descriptor(descriptor: &str, marker: &str) -> String {
    assert!(descriptor.starts_with(marker));
    let body = base64_decode(&descriptor[marker.len()..]);
    String::from_utf8(body).expect("descriptor body not valid UTF-8")
}

#[test]
fn render_plain_passes_through() {
    let f = plain("name", "Song");
    assert_eq!(render_field(&f).unwrap(), "Song");
}

#[test]
fn render_stored_decodes() {
    let f = stored("lyrics", "SGVsbG8=");
    assert_eq!(render_field(&f).unwrap(), "Hello");
}

#[test]
fn render_reembed_canonicalizes() {
    // The stored value carries a line break, a non-canonical form; the
    // re-embedded payload is the canonical encoding of the same document.
    let f = reembed("image", "PHN2\nZy8+", "data:image/svg+xml;base64,");
    assert_eq!(render_field(&f).unwrap(), "data:image/svg+xml;base64,PHN2Zy8+");
}

#[test]
fn render_stored_faults_on_invalid_text() {
    // 0x80 is a lone continuation byte: not a well-formed text.
    let f = stored("lyrics", &base64_encode(&[0x80]));
    let fault = render_field(&f).unwrap_err();
    assert_eq!(fault.field_name, "lyrics");
}

#[test]
fn assemble_composes_document() {
    let fields = vec![
        plain("name", "Song"),
        plain("description", "A track."),
        reembed("image", &base64_encode("<svg/>".as_bytes()), "data:image/svg+xml;base64,"),
    ];
    let marker = "data:application/json;base64,";
    let descriptor = assemble(&fields, marker).unwrap();
    let body = decode_descriptor(&descriptor, marker);
    assert_eq!(
        body,
        r#"{"name":"Song","description":"A track.","image":"data:image/svg+xml;base64,PHN2Zy8+"}"#
    );
    assert!(body.contains(r#""image":"data:image/svg+xml;base64,PHN2Zy8+""#));
    assert_eq!(descriptor, format!("{}{}", marker, base64_encode(body.as_bytes())));
}

#[test]
fn assemble_empty_field_list() {
    let descriptor = assemble(&Vec::new(), "data:application/json;base64,").unwrap();
    let body = decode_descriptor(&descriptor, "data:application/json;base64,");
    assert_eq!(body, "{}");
}

#[test]
fn assemble_keeps_order_and_duplicates() {
    // Fields go out in the caller's order, with no reordering and no
    // deduplication of repeated names.
    let fields = vec![plain("b", "2"), plain("a", "1"), plain("a", "3")];
    let marker = "data:application/json;base64,";
    let descriptor = assemble(&fields, marker).unwrap();
    let body = decode_descriptor(&descriptor, marker);
    assert_eq!(body, r#"{"b":"2","a":"1","a":"3"}"#);
}

#[test]
fn assemble_faults_atomically_and_names_field() {
    let fields = vec![
        plain("name", "Song"),
        stored("lyrics", &base64_encode(&[0x80])),
        plain("description", "never reached"),
    ];
    let fault = assemble(&fields, "data:application/json;base64,").unwrap_err();
    assert_eq!(fault.field_name, "lyrics");
}

#[test]
fn assemble_names_first_failing_field() {
    let fields = vec![
        stored("description", &base64_encode(&[0xFF, 0xFE])),
        stored("lyrics", &base64_encode(&[0x80])),
    ];
    let fault = assemble(&fields, "data:application/json;base64,").unwrap_err();
    assert_eq!(fault.field_name, "description");
}
