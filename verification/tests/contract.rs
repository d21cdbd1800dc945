use purrtunes::codec::{base64_decode, base64_encode};
use purrtunes::contract::{Address, Contract, Uint256};

fn addr(n: u128) -> Address {
    Address { hi: 0, lo: n }
}

fn initialized() -> Contract {
    let mut c = Contract::new();
    c.initialize_contract(
        addr(7),
        "PurrtunesNFT".to_string(),
        "Song".to_string(),
        base64_encode("La la".as_bytes()),
        base64_encode("A track.".as_bytes()),
        "SGVsbG8=".to_string(),
        base64_encode("<svg/>".as_bytes()),
    );
    c
}

#[test]
fn supports_the_three_capability_tags() {
    let c = Contract::new();
    assert!(c.supports_interface([0x01, 0xff, 0xc9, 0xa7]));
    assert!(c.supports_interface([0x80, 0xac, 0x58, 0xcd]));
    assert!(c.supports_interface([0x5b, 0x5e, 0x13, 0x9f]));
    assert!(!c.supports_interface([0x00, 0x00, 0x00, 0x00]));
    assert!(!c.supports_interface([0x01, 0xff, 0xc9, 0xa8]));
}

#[test]
fn mint_sets_the_owner_once() {
    let mut c = Contract::new();
    c.mint(addr(42));
    assert_eq!(c.owner_of(Uint256::from_u64(1)).unwrap(), addr(42));
}

#[test]
fn balance_is_one_for_the_owner_only() {
    let mut c = Contract::new();
    c.mint(addr(42));
    assert_eq!(c.balance_of(addr(42)), Uint256::from_u64(1));
    assert_eq!(c.balance_of(addr(43)), Uint256::from_u64(0));
}

#[test]
fn getters_return_the_stored_values() {
    let c = initialized();
    assert_eq!(c.symbol(), "PurrtunesNFT");
    assert_eq!(c.title(), "Song");
    assert_eq!(c.name(), "Song");
    assert_eq!(c.lyrics(), "La la");
    assert_eq!(c.description(), "A track.");
    assert_eq!(c.meta(), "data:audio/mpeg;base64,SGVsbG8=");
    assert_eq!(c.music(), "Hello");
}

#[test]
fn token_uri_assembles_the_descriptor() {
    let c = initialized();
    let marker = "data:application/json;base64,";
    let uri = c.token_uri(Uint256::from_u64(1));
    assert!(uri.starts_with(marker));
    let body = String::from_utf8(base64_decode(&uri[marker.len()..])).unwrap();
    let expected = format!(
        "{}{}{}",
        r#"{"name":"Song","lyrics":"La la","description":"A track.","#,
        r#""image":"data:image/svg+xml;base64,PHN2Zy8+","#,
        r#""music":"data:audio/mpeg;base64,SGVsbG8="}"#
    );
    assert_eq!(body, expected);
    assert_eq!(uri, format!("{}{}", marker, base64_encode(body.as_bytes())));
}

#[test]
fn owner_updates_the_template() {
    let mut c = initialized();
    c.update_svg_template(addr(7), base64_encode("<svg><g/></svg>".as_bytes()));
    let marker = "data:application/json;base64,";
    let uri = c.token_uri(Uint256::from_u64(1));
    let body = String::from_utf8(base64_decode(&uri[marker.len()..])).unwrap();
    let expected_image = format!(
        "data:image/svg+xml;base64,{}",
        base64_encode("<svg><g/></svg>".as_bytes())
    );
    assert!(body.contains(&expected_image));
}
