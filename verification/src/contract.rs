//! The single-token asset record: one owner slot, the stored field values,
//! and the self-describing metadata document assembled from them.
//!
//! The surrounding host (persistent storage, event sink, caller identity)
//! stays outside this crate; the record holds the snapshotted values as
//! plain data and every operation is a pure computation over them.

use crate::assembler::{
    assemble, body_chars, entries_chars, entry_chars, field_entry, field_ok, rendered_reembed,
    rendered_stored, stored_ok, Field, FieldMode,
};
use crate::codec::{base64_decode, encode64};
use crate::text::{ascii_chars_of, string_from_utf8};
use vstd::pervasive::unreached;
use vstd::prelude::*;
use vstd::string::{StringExecFns, StringSliceAdditionalSpecFns};
use vstd::utf8::{encode_utf8, encode_utf8_decode_utf8};

verus! {

/// A 160-bit account identity, held as plain machine words: the 32 most
/// significant bits, then the 128 least significant.
#[derive(Clone, Copy, Debug, PartialEq, Eq, Structural)]
pub struct Address {
    pub hi: u32,
    pub lo: u128,
}

impl Address {
    /// The all-zero identity, standing for "not yet owned".
    pub open spec fn spec_zero() -> Address {
        Address { hi: 0, lo: 0 }
    }

    /// Whether this is the all-zero identity.
    pub open spec fn is_zero(self) -> bool {
        self == Address::spec_zero()
    }

    /// The all-zero identity.
    pub fn zero() -> (r: Address)
        ensures
            r == Address::spec_zero(),
    {
        Address { hi: 0, lo: 0 }
    }
}

/// A 256-bit unsigned word, as four 64-bit limbs, least significant first.
#[derive(Clone, Copy, Debug, PartialEq, Eq, Structural)]
pub struct Uint256 {
    pub w0: u64,
    pub w1: u64,
    pub w2: u64,
    pub w3: u64,
}

impl Uint256 {
    /// The word holding a small value.
    pub open spec fn spec_from_u64(v: u64) -> Uint256 {
        Uint256 { w0: v, w1: 0, w2: 0, w3: 0 }
    }

    /// Whether the word holds exactly one.
    pub open spec fn is_one(self) -> bool {
        self == Uint256::spec_from_u64(1)
    }

    /// The word holding a small value.
    pub fn from_u64(v: u64) -> (r: Uint256)
        ensures
            r == Uint256::spec_from_u64(v),
    {
        Uint256 { w0: v, w1: 0, w2: 0, w3: 0 }
    }
}

/// The single-token record. The token's stored field values: `lyrics`,
/// `meta` and `svg_template` sit in storage in encoded form; `music_data`
/// is kept as the already-encoded audio payload.
pub struct Contract {
    pub owner: Address,
    pub symbol: String,
    pub title: String,
    pub lyrics: String,
    pub meta: String,
    pub music_data: String,
    pub svg_template: String,
}

/// Whether a 4-byte capability tag is one the record answers for: the
/// generic discovery tag, the token standard tag, and its metadata tag.
pub open spec fn supported_tag(t: Seq<u8>) -> bool {
    ||| t == seq![0x01u8, 0xffu8, 0xc9u8, 0xa7u8]
    ||| t == seq![0x80u8, 0xacu8, 0x58u8, 0xcdu8]
    ||| t == seq![0x5bu8, 0x5eu8, 0x13u8, 0x9fu8]
}

impl Contract {
    /// A record with no owner and every stored field empty.
    pub fn new() -> (r: Contract)
        ensures
            r.owner == Address::spec_zero(),
            r.symbol@ == Seq::<char>::empty(),
            r.title@ == Seq::<char>::empty(),
            r.lyrics@ == Seq::<char>::empty(),
            r.meta@ == Seq::<char>::empty(),
            r.music_data@ == Seq::<char>::empty(),
            r.svg_template@ == Seq::<char>::empty(),
    {
        Contract {
            owner: Address::zero(),
            symbol: String::new(),
            title: String::new(),
            lyrics: String::new(),
            meta: String::new(),
            music_data: String::new(),
            svg_template: String::new(),
        }
    }

    /// Whether the record answers for a capability tag.
    pub fn supports_interface(&self, interface: [u8; 4]) -> (r: bool)
        ensures
            r == supported_tag(interface@),
    {
        let b0 = interface[0];
        let b1 = interface[1];
        let b2 = interface[2];
        let b3 = interface[3];
        proof {
            assert(interface@ =~= seq![b0, b1, b2, b3]);
        }
        (b0 == 0x01 && b1 == 0xff && b2 == 0xc9 && b3 == 0xa7) || (b0 == 0x80 && b1 == 0xac && b2
            == 0x58 && b3 == 0xcd) || (b0 == 0x5b && b1 == 0x5e && b2 == 0x13 && b3 == 0x9f)
    }

    /// Gives the token its one owner. The record must not have been given
    /// one before.
    pub fn mint(&mut self, to: Address)
        requires
            old(self).owner.is_zero(),
        ensures
            final(self).owner == to,
            final(self).symbol == old(self).symbol,
            final(self).title == old(self).title,
            final(self).lyrics == old(self).lyrics,
            final(self).meta == old(self).meta,
            final(self).music_data == old(self).music_data,
            final(self).svg_template == old(self).svg_template,
    {
        self.owner = to;
    }

    /// The token's symbol, as stored.
    pub fn symbol(&self) -> (r: String)
        ensures
            r@ == self.symbol@,
    {
        self.symbol.clone()
    }

    /// The token's title, as stored.
    pub fn title(&self) -> (r: String)
        ensures
            r@ == self.title@,
    {
        self.title.clone()
    }

    /// The token's display name: its title.
    pub fn name(&self) -> (r: String)
        ensures
            r@ == self.title@,
    {
        self.title.clone()
    }

    /// The lyrics text: the stored value decoded. The stored value must
    /// decode to well-formed text.
    pub fn lyrics(&self) -> (r: String)
        requires
            stored_ok(self.lyrics@),
        ensures
            r@ == rendered_stored(self.lyrics@),
    {
        let bytes = base64_decode(self.lyrics.as_str());
        match string_from_utf8(bytes) {
            Some(s) => {
                proof {
                    encode_utf8_decode_utf8(s@);
                }
                s
            },
            None => unreached(),
        }
    }

    /// The free-text description: the stored metadata value decoded. The
    /// stored value must decode to well-formed text.
    pub fn description(&self) -> (r: String)
        requires
            stored_ok(self.meta@),
        ensures
            r@ == rendered_stored(self.meta@),
    {
        let bytes = base64_decode(self.meta.as_str());
        match string_from_utf8(bytes) {
            Some(s) => {
                proof {
                    encode_utf8_decode_utf8(s@);
                }
                s
            },
            None => unreached(),
        }
    }

    /// The audio data reference: the typed marker followed by the stored,
    /// already-encoded audio payload.
    pub fn meta(&self) -> (r: String)
        ensures
            r@ == "data:audio/mpeg;base64,"@ + self.music_data@,
    {
        let mut r = String::from_str("data:audio/mpeg;base64,");
        r.append(self.music_data.as_str());
        r
    }

    /// The audio payload as text: the stored value decoded. The stored
    /// value must decode to well-formed text.
    pub fn music(&self) -> (r: String)
        requires
            stored_ok(self.music_data@),
        ensures
            r@ == rendered_stored(self.music_data@),
    {
        let bytes = base64_decode(self.music_data.as_str());
        match string_from_utf8(bytes) {
            Some(s) => {
                proof {
                    encode_utf8_decode_utf8(s@);
                }
                s
            },
            None => unreached(),
        }
    }

    /// One when the asked identity holds the token, zero otherwise.
    pub fn balance_of(&self, owner: Address) -> (r: Uint256)
        ensures
            r == (if owner == self.owner {
                Uint256::spec_from_u64(1)
            } else {
                Uint256::spec_from_u64(0)
            }),
    {
        if owner == self.owner {
            Uint256::from_u64(1)
        } else {
            Uint256::from_u64(0)
        }
    }

    /// The owner of the one supported token. The token identifier must be
    /// one and the token must have been minted.
    pub fn owner_of(&self, token_id: Uint256) -> (r: Result<Address, Vec<u8>>)
        requires
            token_id.is_one(),
            !self.owner.is_zero(),
        ensures
            r == Ok::<Address, Vec<u8>>(self.owner),
    {
        Ok(self.owner)
    }

    /// Replaces the stored visual template. Only the owner may do so: the
    /// caller identity, supplied by the host, must equal the owner.
    pub fn update_svg_template(&mut self, caller: Address, new_svg_template: String)
        requires
            caller == old(self).owner,
        ensures
            final(self).svg_template == new_svg_template,
            final(self).owner == old(self).owner,
            final(self).symbol == old(self).symbol,
            final(self).title == old(self).title,
            final(self).lyrics == old(self).lyrics,
            final(self).meta == old(self).meta,
            final(self).music_data == old(self).music_data,
    {
        self.svg_template = new_svg_template;
    }

    /// Sets every stored value of the record at once.
    pub fn initialize_contract(
        &mut self,
        owner: Address,
        symbol: String,
        title: String,
        lyrics: String,
        meta: String,
        music_data: String,
        svg_template: String,
    )
        ensures
            final(self).owner == owner,
            final(self).symbol == symbol,
            final(self).title == title,
            final(self).lyrics == lyrics,
            final(self).meta == meta,
            final(self).music_data == music_data,
            final(self).svg_template == svg_template,
    {
        self.owner = owner;
        self.symbol = symbol;
        self.title = title;
        self.lyrics = lyrics;
        self.meta = meta;
        self.music_data = music_data;
        self.svg_template = svg_template;
    }

    /// Whether every stored-encoded field of the record decodes to
    /// well-formed text, so that the descriptor can be assembled.
    pub open spec fn stored_fields_ok(self) -> bool {
        &&& stored_ok(self.lyrics@)
        &&& stored_ok(self.meta@)
        &&& stored_ok(self.svg_template@)
    }

    /// The document body the record describes itself with: title, decoded
    /// lyrics, decoded description, the re-embedded visual template, and
    /// the audio data reference, in that order.
    pub open spec fn token_body(self) -> Seq<char> {
        seq!['{'] + entry_chars("name"@, self.title@) + seq![','] + entry_chars(
            "lyrics"@,
            rendered_stored(self.lyrics@),
        ) + seq![','] + entry_chars("description"@, rendered_stored(self.meta@)) + seq![',']
            + entry_chars(
            "image"@,
            rendered_reembed("data:image/svg+xml;base64,"@, self.svg_template@),
        ) + seq![','] + entry_chars("music"@, "data:audio/mpeg;base64,"@ + self.music_data@)
            + seq!['}']
    }

    /// The full descriptor: the document-type marker, then the encoded body.
    pub open spec fn token_descriptor(self) -> Seq<char> {
        "data:application/json;base64,"@ + ascii_chars_of(encode64(encode_utf8(self.token_body())))
    }

    /// The self-describing metadata document for the one supported token.
    /// The token identifier must be one and every stored-encoded field must
    /// decode to well-formed text.
    pub fn token_uri(&self, token_id: Uint256) -> (r: String)
        requires
            token_id.is_one(),
            self.stored_fields_ok(),
        ensures
            r@ == self.token_descriptor(),
    {
        let mut music_uri = String::from_str("data:audio/mpeg;base64,");
        music_uri.append(self.music_data.as_str());
        let mut fields: Vec<Field> = Vec::new();
        fields.push(
            Field { name: String::from_str("name"), value: self.title.clone(), mode: FieldMode::Plain },
        );
        fields.push(
            Field {
                name: String::from_str("lyrics"),
                value: self.lyrics.clone(),
                mode: FieldMode::StoredEncoded,
            },
        );
        fields.push(
            Field {
                name: String::from_str("description"),
                value: self.meta.clone(),
                mode: FieldMode::StoredEncoded,
            },
        );
        fields.push(
            Field {
                name: String::from_str("image"),
                value: self.svg_template.clone(),
                mode: FieldMode::StoredEncodedReembed(
                    String::from_str("data:image/svg+xml;base64,"),
                ),
            },
        );
        fields.push(Field { name: String::from_str("music"), value: music_uri, mode: FieldMode::Plain });
        proof {
            assert(forall|k: int| 0 <= k < fields@.len() ==> field_ok(#[trigger] fields@[k]));
        }
        match assemble(&fields, "data:application/json;base64,") {
            Ok(s) => {
                proof {
                    let fs = fields@;
                    assert(field_entry(fs[0]) == entry_chars("name"@, self.title@));
                    assert(field_entry(fs[1]) == entry_chars(
                        "lyrics"@,
                        rendered_stored(self.lyrics@),
                    ));
                    assert(field_entry(fs[2]) == entry_chars(
                        "description"@,
                        rendered_stored(self.meta@),
                    ));
                    assert(field_entry(fs[3]) == entry_chars(
                        "image"@,
                        rendered_reembed("data:image/svg+xml;base64,"@, self.svg_template@),
                    ));
                    assert(field_entry(fs[4]) == entry_chars(
                        "music"@,
                        "data:audio/mpeg;base64,"@ + self.music_data@,
                    ));
                    assert(fs.drop_last() =~= fs.take(4));
                    assert(fs.take(4).drop_last() =~= fs.take(3));
                    assert(fs.take(3).drop_last() =~= fs.take(2));
                    assert(fs.take(2).drop_last() =~= fs.take(1));
                    assert(fs.take(1).len() == 1 && fs.take(1)[0] == fs[0]);
                    assert(fs.take(2).last() == fs[1]);
                    assert(fs.take(3).last() == fs[2]);
                    assert(fs.take(4).last() == fs[3]);
                    assert(fs.last() == fs[4]);
                    assert(entries_chars(fs.take(1)) == field_entry(fs[0]));
                    assert(entries_chars(fs.take(2)) == entries_chars(fs.take(1)) + seq![',']
                        + field_entry(fs[1]));
                    assert(entries_chars(fs.take(3)) == entries_chars(fs.take(2)) + seq![',']
                        + field_entry(fs[2]));
                    assert(entries_chars(fs.take(4)) == entries_chars(fs.take(3)) + seq![',']
                        + field_entry(fs[3]));
                    assert(entries_chars(fs) == entries_chars(fs.take(4)) + seq![','] + field_entry(
                        fs[4],
                    ));
                    assert(body_chars(fs) =~= self.token_body());
                    assert(s@ =~= self.token_descriptor());
                }
                s
            },
            Err(_) => unreached(),
        }
    }
}

} // verus!
