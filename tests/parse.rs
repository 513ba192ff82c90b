use near_methods::decode::parse_wasm_to_methods;
use near_methods::error::ErrorType;
use near_methods::network::{network_from_name, rpc_url, NetwrokId};
use near_methods::reader::Cursor;
use near_methods::walker::{parse_module, Section, SectionWalker};

const HEADER: [u8; 8] = [0x00, 0x61, 0x73, 0x6d, 0x01, 0x00, 0x00, 0x00];

fn leb(mut v: u32) -> Vec<u8> {
    let mut out = Vec::new();
    loop {
        let b = (v & 0x7f) as u8;
        v >>= 7;
        if v == 0 {
            out.push(b);
            return out;
        }
        out.push(b | 0x80);
    }
}

fn export_entry(name: &[u8], kind: u8, index: u32) -> Vec<u8> {
    let mut out = leb(name.len() as u32);
    out.extend_from_slice(name);
    out.push(kind);
    out.extend(leb(index));
    out
}

fn section(tag: u8, payload: &[u8]) -> Vec<u8> {
    let mut out = vec![tag];
    out.extend(leb(payload.len() as u32));
    out.extend_from_slice(payload);
    out
}

fn export_section(entries: &[Vec<u8>]) -> Vec<u8> {
    let mut payload = leb(entries.len() as u32);
    for e in entries {
        payload.extend_from_slice(e);
    }
    section(7, &payload)
}

fn module(sections: &[Vec<u8>]) -> Vec<u8> {
    let mut out = HEADER.to_vec();
    for s in sections {
        out.extend_from_slice(s);
    }
    out
}

fn strings(names: &[&str]) -> Vec<String> {
    names.iter().map(|s| s.to_string()).collect()
}

#[test]
fn single_function_export_ping() {
    let m = module(&[export_section(&[export_entry(b"ping", 0, 0)])]);
    assert_eq!(parse_module(&m), Ok(strings(&["ping"])));
}

#[test]
fn memory_export_is_left_out() {
    let m = module(&[export_section(&[export_entry(b"get", 0, 0), export_entry(b"mem", 2, 0)])]);
    assert_eq!(parse_module(&m), Ok(strings(&["get"])));
}

#[test]
fn function_exports_keep_declaration_order() {
    let m = module(&[
        section(1, &[1, 0x60, 0, 0]),
        section(3, &[2, 0, 0]),
        export_section(&[
            export_entry(b"new", 0, 0),
            export_entry(b"memory", 2, 0),
            export_entry(b"table", 1, 0),
            export_entry(b"counter", 3, 0),
            export_entry(b"nft_mint", 0, 1),
            export_entry(b"big", 0, 300),
        ]),
        section(10, &[0]),
    ]);
    assert_eq!(parse_module(&m), Ok(strings(&["new", "nft_mint", "big"])));
}

#[test]
fn two_export_sections_are_both_read() {
    let m = module(&[
        export_section(&[export_entry(b"a", 0, 0)]),
        export_section(&[export_entry(b"b", 0, 1)]),
    ]);
    assert_eq!(parse_module(&m), Ok(strings(&["a", "b"])));
}

#[test]
fn module_without_export_section_gives_empty_list() {
    assert_eq!(parse_module(&HEADER), Ok(vec![]));
    let m = module(&[section(1, &[1, 0x60, 0, 0]), section(3, &[1, 0]), section(0, b"\x04namexyz")]);
    assert_eq!(parse_module(&m), Ok(vec![]));
}

#[test]
fn export_section_with_no_entries_gives_empty_list() {
    let m = module(&[export_section(&[])]);
    assert_eq!(parse_module(&m), Ok(vec![]));
}

#[test]
fn export_section_longer_than_module_is_truncated() {
    let mut m = HEADER.to_vec();
    m.extend_from_slice(&[7, 10, 1, 1, b'x', 0, 0]);
    assert_eq!(parse_module(&m), Err(ErrorType::TruncatedSection));
}

#[test]
fn partial_section_header_is_truncated() {
    let mut m = HEADER.to_vec();
    m.push(1);
    assert_eq!(parse_module(&m), Err(ErrorType::TruncatedSection));
    let mut m = HEADER.to_vec();
    m.extend_from_slice(&[1, 0x80]);
    assert_eq!(parse_module(&m), Err(ErrorType::TruncatedSection));
}

#[test]
fn fewer_entries_than_declared_is_truncated_entry() {
    let mut payload = vec![2];
    payload.extend(export_entry(b"one", 0, 0));
    let m = module(&[section(7, &payload)]);
    assert_eq!(parse_module(&m), Err(ErrorType::TruncatedExportEntry));
}

#[test]
fn cut_short_entry_is_truncated_entry() {
    let m = module(&[section(7, &[1, 3, b'a', b'b', b'c', 0])]);
    assert_eq!(parse_module(&m), Err(ErrorType::TruncatedExportEntry));
    let m = module(&[section(7, &[1, 5, b'a', b'b'])]);
    assert_eq!(parse_module(&m), Err(ErrorType::TruncatedExportEntry));
}

#[test]
fn name_that_is_not_utf8_is_rejected() {
    let m = module(&[export_section(&[export_entry(&[0xff, 0xfe], 0, 0)])]);
    assert_eq!(parse_module(&m), Err(ErrorType::InvalidUtf8));
}

#[test]
fn non_ascii_name_is_kept() {
    let m = module(&[export_section(&[export_entry("héllo".as_bytes(), 0, 0)])]);
    assert_eq!(parse_module(&m), Ok(strings(&["héllo"])));
}

#[test]
fn overlong_section_length_is_malformed() {
    let mut m = HEADER.to_vec();
    m.extend_from_slice(&[1, 0x80, 0x80, 0x80, 0x80, 0x80, 0x00]);
    assert_eq!(parse_module(&m), Err(ErrorType::MalformedVarint));
}

#[test]
fn wrong_magic_is_bad_header() {
    let m = [0x00, 0x61, 0x73, 0x6e, 0x01, 0x00, 0x00, 0x00];
    assert_eq!(parse_module(&m), Err(ErrorType::BadHeader));
}

#[test]
fn wrong_version_is_bad_header() {
    let mut m = module(&[export_section(&[export_entry(b"ping", 0, 0)])]);
    m[4] = 2;
    assert_eq!(parse_module(&m), Err(ErrorType::BadHeader));
}

#[test]
fn short_or_empty_input_is_bad_header() {
    assert_eq!(parse_module(&[]), Err(ErrorType::BadHeader));
    assert_eq!(parse_module(&HEADER[..7]), Err(ErrorType::BadHeader));
    // a bad header wins over a broken section after it
    let mut m = vec![0u8; 8];
    m.extend_from_slice(&[7, 10]);
    assert_eq!(parse_module(&m), Err(ErrorType::BadHeader));
}

#[test]
fn parsing_twice_gives_the_same_list() {
    let m = module(&[export_section(&[export_entry(b"get", 0, 0), export_entry(b"set", 0, 1)])]);
    let first = parse_module(&m);
    let second = parse_module(&m);
    assert_eq!(first, second);
    assert_eq!(first, Ok(strings(&["get", "set"])));
}

#[test]
fn leb128_round_trip() {
    for v in [0u32, 1, 127, 128, 255, 300, 16384, 0x0fff_ffff, 0x1000_0000, u32::MAX] {
        let mut bytes = leb(v);
        let n = bytes.len();
        bytes.push(0xaa);
        let (got, c) = Cursor::new(&bytes, 0, bytes.len()).read_u32_leb128(&bytes).unwrap();
        assert_eq!(got, v);
        assert_eq!(c.pos, n);
    }
}

#[test]
fn leb128_exact_values() {
    let bytes = [0xe5, 0x8e, 0x26];
    let (v, c) = Cursor::new(&bytes, 0, 3).read_u32_leb128(&bytes).unwrap();
    assert_eq!(v, 624485);
    assert_eq!(c.pos, 3);
}

#[test]
fn leb128_without_end_in_five_bytes_is_malformed() {
    let bytes = [0x80, 0x80, 0x80, 0x80, 0x80, 0x01];
    assert_eq!(Cursor::new(&bytes, 0, 6).read_u32_leb128(&bytes), Err(ErrorType::MalformedVarint));
}

#[test]
fn leb128_past_32_bits_is_malformed() {
    let bytes = [0xff, 0xff, 0xff, 0xff, 0x10];
    assert_eq!(Cursor::new(&bytes, 0, 5).read_u32_leb128(&bytes), Err(ErrorType::MalformedVarint));
}

#[test]
fn leb128_cut_short_is_unexpected_end() {
    let bytes = [0x80, 0x80];
    assert_eq!(Cursor::new(&bytes, 0, 2).read_u32_leb128(&bytes), Err(ErrorType::UnexpectedEnd));
    // the window ends before the buffer does
    let bytes = [0x80, 0x01];
    assert_eq!(Cursor::new(&bytes, 0, 1).read_u32_leb128(&bytes), Err(ErrorType::UnexpectedEnd));
}

#[test]
fn reader_primitives() {
    let bytes = [9u8, 3, b'a', b'b', b'c', 4];
    let c = Cursor::new(&bytes, 0, bytes.len());
    let (b, c) = c.read_byte(&bytes).unwrap();
    assert_eq!(b, 9);
    assert_eq!(c.pos, 1);
    let (name, c) = c.read_name(&bytes).unwrap();
    assert_eq!(name, "abc");
    assert_eq!(c.pos, 5);
    assert!(!c.at_end());
    assert_eq!(c.read_bytes(&bytes, 2), Err(ErrorType::UnexpectedEnd));
    let (rest, c) = c.read_bytes(&bytes, 1).unwrap();
    assert_eq!(rest, vec![4]);
    assert!(c.at_end());
    assert_eq!(c.read_byte(&bytes), Err(ErrorType::UnexpectedEnd));
}

#[test]
fn invalid_base64_fails_at_decode() {
    let code = "not-valid-base64!!".to_string();
    assert_eq!(parse_wasm_to_methods(&code), Err(ErrorType::ErrorDecodeWasmCode));
}

#[test]
fn base64_module_is_decoded_and_parsed() {
    let m = module(&[export_section(&[export_entry(b"ping", 0, 0)])]);
    let code = base64::encode(&m);
    assert_eq!(parse_wasm_to_methods(&code), Ok(strings(&["ping"])));
}

#[test]
fn base64_of_bad_module_reports_header() {
    let code = base64::encode(b"not a module");
    assert_eq!(parse_wasm_to_methods(&code), Err(ErrorType::BadHeader));
}

#[test]
fn network_endpoints() {
    assert_eq!(rpc_url(NetwrokId::Mainnet), "https://rpc.mainnet.near.org");
    assert_eq!(rpc_url(NetwrokId::Testnet), "https://rpc.testnet.near.org");
}

#[test]
fn network_names() {
    assert_eq!(network_from_name("mainnet"), Some(NetwrokId::Mainnet));
    assert_eq!(network_from_name("testnet"), Some(NetwrokId::Testnet));
    assert_eq!(network_from_name("devnet"), None);
    assert_eq!(network_from_name("Mainnet"), None);
    assert_eq!(network_from_name(""), None);
}

#[test]
fn walker_yields_each_section_and_skips_payloads() {
    let m = module(&[section(1, &[1, 0x60, 0, 0]), section(0, &[]), export_section(&[export_entry(b"f", 0, 0)])]);
    let mut w = SectionWalker::new(&m).unwrap();
    assert_eq!(w.pos, 8);
    assert_eq!(w.next_section(&m), Ok(Some(Section { kind: 1, start: 10, len: 4 })));
    assert_eq!(w.next_section(&m), Ok(Some(Section { kind: 0, start: 16, len: 0 })));
    assert_eq!(w.next_section(&m), Ok(Some(Section { kind: 7, start: 18, len: 5 })));
    assert_eq!(w.pos, m.len());
    assert_eq!(w.next_section(&m), Ok(None));
    assert_eq!(w.next_section(&m), Ok(None));
}

#[test]
fn walker_rejects_bad_header() {
    assert_eq!(SectionWalker::new(b"\0asm\x02\0\0\0"), Err(ErrorType::BadHeader));
    assert_eq!(SectionWalker::new(b"\0as"), Err(ErrorType::BadHeader));
}

#[test]
fn walker_reports_section_running_past_end() {
    let mut m = HEADER.to_vec();
    m.extend_from_slice(&[11, 3, 0, 0]);
    let mut w = SectionWalker::new(&m).unwrap();
    assert_eq!(w.next_section(&m), Err(ErrorType::TruncatedSection));
}

#[test]
fn overrun_export_section_gives_no_list() {
    let code = "AGFzbQEAAAAHCgEEcGluZwAA".to_string();
    assert_eq!(parse_wasm_to_methods(&code), Err(ErrorType::TruncatedSection));
}

#[test]
fn overrun_after_an_earlier_export_section_is_truncated() {
    let mut m = module(&[export_section(&[export_entry(b"first", 0, 0)])]);
    m.extend_from_slice(&[7, 20, 1, 1, b'x', 0, 0]);
    assert_eq!(parse_module(&m), Err(ErrorType::TruncatedSection));
}

#[test]
fn overlong_section_length_in_base64_is_malformed() {
    let code = "AGFzbQEAAAAHgICAgIAA".to_string();
    assert_eq!(parse_wasm_to_methods(&code), Err(ErrorType::MalformedVarint));
}

#[test]
fn overlong_varints_inside_export_section_are_malformed() {
    // entry count
    let m = module(&[section(7, &[0x80, 0x80, 0x80, 0x80, 0x80, 0x00])]);
    assert_eq!(parse_module(&m), Err(ErrorType::MalformedVarint));
    // name length
    let m = module(&[section(7, &[1, 0x80, 0x80, 0x80, 0x80, 0x80, 0x00])]);
    assert_eq!(parse_module(&m), Err(ErrorType::MalformedVarint));
    // index
    let m = module(&[section(7, &[1, 1, b'f', 0, 0x80, 0x80, 0x80, 0x80, 0x80, 0x00])]);
    assert_eq!(parse_module(&m), Err(ErrorType::MalformedVarint));
    // after an earlier export section
    let mut m = module(&[export_section(&[export_entry(b"first", 0, 0)])]);
    m.extend(section(7, &[0x80, 0x80, 0x80, 0x80, 0x80, 0x00]));
    assert_eq!(parse_module(&m), Err(ErrorType::MalformedVarint));
}

#[test]
fn zero_padded_entry_count_decodes_to_its_value() {
    let code = "AGFzbQEAAAAHDIGAgIAABHBpbmcAAA==".to_string();
    assert_eq!(parse_wasm_to_methods(&code), Ok(strings(&["ping"])));
}

#[test]
fn leb128_padded_round_trip() {
    let cases: [(&[u8], u32); 5] = [
        (&[0x80, 0x00], 0),
        (&[0x81, 0x80, 0x80, 0x80, 0x00], 1),
        (&[0xff, 0x80, 0x00], 127),
        (&[0x80, 0x81, 0x80, 0x00], 128),
        (&[0xff, 0xff, 0xff, 0xff, 0x0f], u32::MAX),
    ];
    for (bytes, v) in cases {
        let (got, c) = Cursor::new(bytes, 0, bytes.len()).read_u32_leb128(bytes).unwrap();
        assert_eq!(got, v);
        assert_eq!(c.pos, bytes.len());
    }
}

#[test]
fn text_outside_the_alphabet_fails_to_decode() {
    for code in ["AGFz bQEAAAA=", "AGFzbQEAAAA=\n", "ÀGFzbQEAAAA=", "AGFzbQEA-AAA"] {
        assert_eq!(parse_wasm_to_methods(&code.to_string()), Err(ErrorType::ErrorDecodeWasmCode));
    }
}
