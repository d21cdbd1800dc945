//! The metadata assembler: composes named fields, each with its own storage
//! mode, into one JSON-shaped document, and wraps that document in a typed,
//! encoded descriptor.
//!
//! A field is either emitted as stored (`Plain`), stored in encoded form and
//! embedded as the text it decodes to (`StoredEncoded`), or stored in encoded
//! form and re-embedded under a data-reference prefix after a canonicalizing
//! decode/re-encode pass (`StoredEncodedReembed`). A stored-encoded field
//! whose bytes are not well-formed UTF-8 text is an integrity fault: the
//! whole assembly fails, naming the field, and no partial document leaves.

use crate::codec::{base64_decode, base64_encode, decode64, encode64};
use crate::text::{ascii_chars_of, string_from_utf8};
use vstd::prelude::*;
use vstd::string::{StringExecFns, StringSliceAdditionalSpecFns};
use vstd::utf8::{decode_utf8, encode_utf8, encode_utf8_decode_utf8, valid_utf8};

verus! {

/// How one field's value sits in storage, and hence how it is embedded.
/// The re-embed mode carries the data-reference prefix the re-encoded
/// payload is wrapped in.
pub enum FieldMode {
    Plain,
    StoredEncoded,
    StoredEncodedReembed(String),
}

/// One named piece of metadata handed to the assembler.
pub struct Field {
    pub name: String,
    pub value: String,
    pub mode: FieldMode,
}

/// The integrity fault of a stored-encoded field whose decoded bytes are
/// not text: it names the failing field.
#[derive(Debug)]
pub struct IntegrityFault {
    pub field_name: String,
}

/// The bytes a stored-encoded value decodes to.
pub open spec fn stored_bytes(value: Seq<char>) -> Seq<u8> {
    decode64(encode_utf8(value))
}

/// Whether a stored-encoded value decodes to well-formed text.
pub open spec fn stored_ok(value: Seq<char>) -> bool {
    valid_utf8(stored_bytes(value))
}

/// The text a stored-encoded field embeds: its decoded bytes, read as text.
pub open spec fn rendered_stored(value: Seq<char>) -> Seq<char> {
    decode_utf8(stored_bytes(value))
}

/// The text a re-embedded field contributes: the prefix, then the canonical
/// re-encoding of the decoded payload.
pub open spec fn rendered_reembed(prefix: Seq<char>, value: Seq<char>) -> Seq<char> {
    prefix + ascii_chars_of(encode64(stored_bytes(value)))
}

/// Whether a field passes its integrity check.
pub open spec fn field_ok(f: Field) -> bool {
    match f.mode {
        FieldMode::Plain => true,
        FieldMode::StoredEncoded => stored_ok(f.value@),
        FieldMode::StoredEncodedReembed(_) => stored_ok(f.value@),
    }
}

/// The text a field contributes to the document.
pub open spec fn field_rendered(f: Field) -> Seq<char> {
    match f.mode {
        FieldMode::Plain => f.value@,
        FieldMode::StoredEncoded => rendered_stored(f.value@),
        FieldMode::StoredEncodedReembed(prefix) => rendered_reembed(prefix@, f.value@),
    }
}

/// One `"name":"value"` entry of the document.
pub open spec fn entry_chars(name: Seq<char>, rendered: Seq<char>) -> Seq<char> {
    seq!['"'] + name + seq!['"', ':', '"'] + rendered + seq!['"']
}

/// A field's entry.
pub open spec fn field_entry(f: Field) -> Seq<char> {
    entry_chars(f.name@, field_rendered(f))
}

/// The comma-separated entries, in the given order.
pub open spec fn entries_chars(fs: Seq<Field>) -> Seq<char>
    decreases fs.len(),
{
    if fs.len() == 0 {
        seq![]
    } else if fs.len() == 1 {
        field_entry(fs[0])
    } else {
        entries_chars(fs.drop_last()) + seq![','] + field_entry(fs.last())
    }
}

/// The JSON-shaped document body.
pub open spec fn body_chars(fs: Seq<Field>) -> Seq<char> {
    seq!['{'] + entries_chars(fs) + seq!['}']
}

/// The final descriptor: the document-type marker, then the encoding of the
/// body's bytes.
pub open spec fn descriptor_chars(fs: Seq<Field>, doc_type: Seq<char>) -> Seq<char> {
    doc_type + ascii_chars_of(encode64(encode_utf8(body_chars(fs))))
}

// The characters spelled by the literal punctuation of the document shape.
proof fn lemma_json_literals()
    ensures
        "{"@ == seq!['{'],
        "}"@ == seq!['}'],
        ","@ == seq![','],
        "\""@ == seq!['"'],
        "\":\""@ == seq!['"', ':', '"'],
{
    reveal_strlit("{");
    reveal_strlit("}");
    reveal_strlit(",");
    reveal_strlit("\"");
    reveal_strlit("\":\"");
    assert("{"@ =~= seq!['{']);
    assert("}"@ =~= seq!['}']);
    assert(","@ =~= seq![',']);
    assert("\""@ =~= seq!['"']);
    assert("\":\""@ =~= seq!['"', ':', '"']);
}

/// Produces the text one field embeds, or the integrity fault naming the
/// field when its stored bytes are not well-formed text.
pub fn render_field(f: &Field) -> (r: Result<String, IntegrityFault>)
    ensures
        match r {
            Ok(s) => field_ok(*f) && s@ == field_rendered(*f),
            Err(e) => !field_ok(*f) && e.field_name@ == f.name@,
        },
{
    match &f.mode {
        FieldMode::Plain => Ok(f.value.clone()),
        FieldMode::StoredEncoded => {
            let bytes = base64_decode(f.value.as_str());
            match string_from_utf8(bytes) {
                Some(s) => {
                    proof {
                        encode_utf8_decode_utf8(s@);
                    }
                    Ok(s)
                },
                None => Err(IntegrityFault { field_name: f.name.clone() }),
            }
        },
        FieldMode::StoredEncodedReembed(prefix) => {
            let bytes = base64_decode(f.value.as_str());
            match string_from_utf8(bytes) {
                Some(s) => {
                    let enc = base64_encode(s.as_str().as_bytes());
                    let mut wrapped = prefix.clone();
                    wrapped.append(enc.as_str());
                    Ok(wrapped)
                },
                None => Err(IntegrityFault { field_name: f.name.clone() }),
            }
        },
    }
}

/// Composes the fields, in the given order, into the descriptor.
///
/// Succeeds exactly when every field passes its integrity check; otherwise
/// it fails on the first field that does not, names it, and produces no
/// document at all.
pub fn assemble(fields: &Vec<Field>, document_type: &str) -> (r: Result<String, IntegrityFault>)
    ensures
        match r {
            Ok(s) => (forall|k: int| 0 <= k < fields@.len() ==> field_ok(fields@[k])) && s@
                == descriptor_chars(fields@, document_type@),
            Err(e) => exists|i: int|
                0 <= i < fields@.len() && !field_ok(fields@[i]) && e.field_name@
                    == fields@[i].name@ && (forall|k: int| 0 <= k < i ==> field_ok(fields@[k])),
        },
{
    let mut body = String::from_str("{");
    proof {
        lemma_json_literals();
        assert(fields@.take(0) =~= Seq::<Field>::empty());
        assert(body@ =~= seq!['{'] + entries_chars(fields@.take(0)));
    }
    let mut idx: usize = 0;
    while idx < fields.len()
        invariant
            idx <= fields@.len(),
            forall|k: int| 0 <= k < idx ==> field_ok(fields@[k]),
            body@ == seq!['{'] + entries_chars(fields@.take(idx as int)),
        decreases fields@.len() - idx,
    {
        let ghost prev = body@;
        if idx > 0 {
            body.append(",");
        }
        body.append("\"");
        body.append(fields[idx].name.as_str());
        body.append("\":\"");
        match render_field(&fields[idx]) {
            Ok(rendered) => {
                body.append(rendered.as_str());
            },
            Err(e) => {
                proof {
                    assert(!field_ok(fields@[idx as int]) && e.field_name@
                        == fields@[idx as int].name@);
                }
                return Err(e);
            },
        }
        body.append("\"");
        proof {
            lemma_json_literals();
            let fs = fields@.take(idx + 1);
            assert(fs.drop_last() =~= fields@.take(idx as int));
            assert(fs.last() == fields@[idx as int]);
            if idx == 0 {
                assert(entries_chars(fs) == field_entry(fs[0]));
                assert(body@ =~= seq!['{'] + entries_chars(fs));
            } else {
                assert(entries_chars(fs) == entries_chars(fields@.take(idx as int)) + seq![',']
                    + field_entry(fields@[idx as int]));
                assert(body@ =~= seq!['{'] + entries_chars(fs));
            }
        }
        idx = idx + 1;
    }
    body.append("}");
    proof {
        lemma_json_literals();
        assert(fields@.take(fields@.len() as int) =~= fields@);
        assert(body@ =~= body_chars(fields@));
    }
    let encoded = base64_encode(body.as_str().as_bytes());
    let mut descriptor = document_type.to_owned();
    descriptor.append(encoded.as_str());
    proof {
        assert(descriptor@ =~= descriptor_chars(fields@, document_type@));
    }
    Ok(descriptor)
}

} // verus!
