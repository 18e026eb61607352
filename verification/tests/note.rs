use probe::note::{
    check_identifier, count_notes, emit_note, emit_section, ByteOrder, Layout, Site, NOTE_TYPE,
};
use probe::platform::Width;

const LE64: Layout = Layout { width: Width::Eight, order: ByteOrder::Little };
const BE64: Layout = Layout { width: Width::Eight, order: ByteOrder::Big };
const LE32: Layout = Layout { width: Width::Four, order: ByteOrder::Little };
const BE32: Layout = Layout { width: Width::Four, order: ByteOrder::Big };

fn site(provider: &str, name: &str, operands: &[&str], location: u64, semaphore: u64) -> Site {
    Site {
        provider: provider.as_bytes().to_vec(),
        name: name.as_bytes().to_vec(),
        operands: operands.iter().map(|s| s.as_bytes().to_vec()).collect(),
        location,
        semaphore,
    }
}

#[test]
fn note_type_is_three() {
    assert_eq!(NOTE_TYPE, 3);
}

#[test]
fn note_without_arguments_little_endian_64() {
    let bytes = emit_note(&LE64, 0x1000, &site("foo", "begin", &[], 0x402e70, 0)).unwrap();
    let mut expected: Vec<u8> = Vec::new();
    expected.extend_from_slice(&[8, 0, 0, 0]);
    expected.extend_from_slice(&[35, 0, 0, 0]);
    expected.extend_from_slice(&[3, 0, 0, 0]);
    expected.extend_from_slice(b"stapsdt\0");
    expected.extend_from_slice(&[0x70, 0x2e, 0x40, 0, 0, 0, 0, 0]);
    expected.extend_from_slice(&[0x00, 0x10, 0, 0, 0, 0, 0, 0]);
    expected.extend_from_slice(&[0, 0, 0, 0, 0, 0, 0, 0]);
    expected.extend_from_slice(b"foo\0");
    expected.extend_from_slice(b"begin\0");
    expected.extend_from_slice(b"\0");
    expected.extend_from_slice(&[0]);
    assert_eq!(bytes, expected);
    assert_eq!(bytes.len(), 56);
}

#[test]
fn note_with_arguments_and_semaphore_little_endian_32() {
    let bytes =
        emit_note(&LE32, 0x0804_a000, &site("foo", "loop", &["%eax", "%edx"], 0x0804_8123, 0x0804_b010))
            .unwrap();
    let mut expected: Vec<u8> = Vec::new();
    expected.extend_from_slice(&[8, 0, 0, 0]);
    expected.extend_from_slice(&[37, 0, 0, 0]);
    expected.extend_from_slice(&[3, 0, 0, 0]);
    expected.extend_from_slice(b"stapsdt\0");
    expected.extend_from_slice(&[0x23, 0x81, 0x04, 0x08]);
    expected.extend_from_slice(&[0x00, 0xa0, 0x04, 0x08]);
    expected.extend_from_slice(&[0x10, 0xb0, 0x04, 0x08]);
    expected.extend_from_slice(b"foo\0");
    expected.extend_from_slice(b"loop\0");
    expected.extend_from_slice(b"-4@%eax -4@%edx\0");
    expected.extend_from_slice(&[0, 0, 0]);
    assert_eq!(bytes, expected);
}

#[test]
fn note_big_endian() {
    let bytes = emit_note(&BE32, 0x0102_0304, &site("p", "n", &["r3"], 0x1122_3344, 0)).unwrap();
    let mut expected: Vec<u8> = Vec::new();
    expected.extend_from_slice(&[0, 0, 0, 8]);
    expected.extend_from_slice(&[0, 0, 0, 22]);
    expected.extend_from_slice(&[0, 0, 0, 3]);
    expected.extend_from_slice(b"stapsdt\0");
    expected.extend_from_slice(&[0x11, 0x22, 0x33, 0x44]);
    expected.extend_from_slice(&[0x01, 0x02, 0x03, 0x04]);
    expected.extend_from_slice(&[0, 0, 0, 0]);
    expected.extend_from_slice(b"p\0n\0-4@r3\0");
    expected.extend_from_slice(&[0, 0]);
    assert_eq!(bytes, expected);

    let wide = emit_note(&BE64, 1, &site("p", "n", &[], 0x0102_0304_0506_0708, 2)).unwrap();
    assert_eq!(&wide[..12], &[0, 0, 0, 8, 0, 0, 0, 29, 0, 0, 0, 3]);
    assert_eq!(&wide[20..28], &[1, 2, 3, 4, 5, 6, 7, 8]);
    assert_eq!(&wide[28..36], &[0, 0, 0, 0, 0, 0, 0, 1]);
    assert_eq!(&wide[36..44], &[0, 0, 0, 0, 0, 0, 0, 2]);
}

#[test]
fn note_needs_no_padding_when_the_body_is_aligned() {
    // 24 bytes of addresses, then "abcd\0", "c\0" and "\0": 32 in all.
    let bytes = emit_note(&LE64, 0, &site("abcd", "c", &[], 0, 0)).unwrap();
    assert_eq!(&bytes[4..8], &[32, 0, 0, 0]);
    assert_eq!(bytes.len(), 20 + 32);
    assert_eq!(&bytes[44..], b"abcd\0c\0\0");
}

#[test]
fn every_note_ends_on_a_four_byte_boundary() {
    let names = ["a", "ab", "abc", "abcd", "abcde"];
    for layout in [LE64, BE64, LE32, BE32] {
        for name in names {
            for count in 0..4usize {
                let operands: Vec<&str> = ["r1", "r2", "r3"][..count].to_vec();
                let bytes = emit_note(&layout, 0, &site("p", name, &operands, 0, 0)).unwrap();
                assert_eq!(bytes.len() % 4, 0);
                let body = u32::from_ne_bytes([bytes[4], bytes[5], bytes[6], bytes[7]]);
                let body = match layout.order {
                    ByteOrder::Little => u32::from_le(body),
                    ByteOrder::Big => u32::from_be(body),
                } as usize;
                assert!(bytes.len() - 20 >= body);
                assert!(bytes.len() - 20 - body < 4);
                assert!(bytes[20 + body..].iter().all(|b| *b == 0));
            }
        }
    }
}

#[test]
fn an_address_must_fit_the_pointer_width() {
    assert!(emit_note(&LE32, 0, &site("p", "n", &[], 0xffff_ffff, 0)).is_some());
    assert!(emit_note(&LE32, 0, &site("p", "n", &[], 0x1_0000_0000, 0)).is_none());
    assert!(emit_note(&LE32, 0x1_0000_0000, &site("p", "n", &[], 0, 0)).is_none());
    assert!(emit_note(&LE32, 0, &site("p", "n", &[], 0, 0x1_0000_0000)).is_none());
    assert!(emit_note(&LE32, 0xffff_ffff, &site("p", "n", &[], 0, 0xffff_ffff)).is_some());
    assert!(emit_note(&LE64, u64::MAX, &site("p", "n", &[], u64::MAX, u64::MAX)).is_some());
}

#[test]
fn provider_and_name_must_be_identifiers() {
    assert!(emit_note(&LE64, 0, &site("", "n", &[], 0, 0)).is_none());
    assert!(emit_note(&LE64, 0, &site("p", "", &[], 0, 0)).is_none());
    assert!(emit_note(&LE64, 0, &site("p q", "n", &[], 0, 0)).is_none());
    assert!(emit_note(&LE64, 0, &site("p", "n\0", &[], 0, 0)).is_none());
    assert!(emit_note(&LE64, 0, &site("1p", "n", &[], 0, 0)).is_none());
    assert!(emit_note(&LE64, 0, &site("p", "n-m", &[], 0, 0)).is_none());
    assert!(emit_note(&LE64, 0, &site("_p1", "loop", &[], 0, 0)).is_some());
    assert!(emit_note(&LE64, 0, &site("Foo", "b\u{e4}r", &[], 0, 0)).is_some());
}

#[test]
fn identifiers() {
    assert!(check_identifier(b"foo"));
    assert!(check_identifier(b"_"));
    assert!(check_identifier(b"show_x"));
    assert!(check_identifier(b"X9"));
    assert!(check_identifier("gr\u{fc}n".as_bytes()));
    assert!(!check_identifier(b""));
    assert!(!check_identifier(b"9x"));
    assert!(!check_identifier(b"a b"));
    assert!(!check_identifier(b"a\"b"));
    assert!(!check_identifier(b"a\0"));
    assert!(!check_identifier(b"a@"));
    assert!(!check_identifier(b"a["));
    assert!(!check_identifier(b"a`"));
    assert!(!check_identifier(b"a{"));
    assert!(!check_identifier(b"a/"));
    assert!(!check_identifier(b"a:"));
}

#[test]
fn an_operand_must_be_fit_for_a_segment() {
    assert!(emit_note(&LE64, 0, &site("p", "n", &["%rax", "[sp, 8]"], 0, 0)).is_none());
    assert!(emit_note(&LE64, 0, &site("p", "n", &["\0"], 0, 0)).is_none());
    assert!(emit_note(&LE64, 0, &site("p", "n", &[""], 0, 0)).is_none());
    assert!(emit_note(&LE64, 0, &site("p", "n", &["8(%rsp)"], 0, 0)).is_some());
}

#[test]
fn empty_section() {
    assert_eq!(emit_section(&LE64, 0, &Vec::new()), Some(Vec::new()));
    assert_eq!(count_notes(ByteOrder::Little, &[]), 0);
    assert_eq!(count_notes(ByteOrder::Big, &[]), 0);
}

#[test]
fn section_is_the_notes_in_order() {
    let sites = vec![
        site("foo", "begin", &[], 0x10, 0),
        site("foo", "loop", &["%rax", "%rdx"], 0x20, 0x3000),
        site("foo", "end", &[], 0x30, 0),
    ];
    for layout in [LE64, BE64, LE32, BE32] {
        let mut expected: Vec<u8> = Vec::new();
        for each in &sites {
            expected.extend_from_slice(&emit_note(&layout, 0x2000, each).unwrap());
        }
        assert_eq!(emit_section(&layout, 0x2000, &sites), Some(expected));
    }
}

#[test]
fn section_fails_with_any_of_its_sites() {
    let sites = vec![
        site("foo", "begin", &[], 0x10, 0),
        site("foo", "not an identifier", &[], 0x20, 0),
    ];
    assert_eq!(emit_section(&LE64, 0, &sites), None);
    let sites = vec![site("foo", "begin", &[], 0x1_0000_0000, 0)];
    assert_eq!(emit_section(&LE32, 0, &sites), None);
    assert!(emit_section(&LE64, 0, &sites).is_some());
}

#[test]
fn a_section_of_k_sites_holds_k_notes() {
    let names = ["a", "bb", "ccc", "dddd", "eeeee", "f", "gg"];
    for layout in [LE64, BE64, LE32, BE32] {
        for k in 0..=names.len() {
            let sites: Vec<Site> = names[..k]
                .iter()
                .enumerate()
                .map(|(i, name)| {
                    let operands: Vec<&str> = ["r1", "r2", "r3"][..i % 4].to_vec();
                    site("provider", name, &operands, 0x100 + i as u64, (i as u64 % 2) * 0x200)
                })
                .collect();
            let bytes = emit_section(&layout, 0x50, &sites).unwrap();
            assert_eq!(count_notes(layout.order, &bytes), k);
        }
    }
}

#[test]
fn check_notes() {
    // Probes with and without arguments.
    let sites = vec![site("test", "foo", &[], 0x1000, 0), site("test", "bar", &["%rax"], 0x1008, 0)];
    let bytes = emit_section(&LE64, 0x4000, &sites).unwrap();
    let count = count_notes(ByteOrder::Little, &bytes);
    assert_eq!(count, 2);
}

#[test]
fn a_scan_skips_records_of_other_kinds() {
    let ours = emit_note(&LE64, 0, &site("p", "n", &[], 0, 0)).unwrap();
    // A build-id note: owner "GNU\0", type 3, four bytes of body.
    let mut other: Vec<u8> = Vec::new();
    other.extend_from_slice(&[4, 0, 0, 0, 4, 0, 0, 0, 3, 0, 0, 0]);
    other.extend_from_slice(b"GNU\0");
    other.extend_from_slice(&[1, 2, 3, 4]);
    // A note of the probe owner with another type.
    let mut typed: Vec<u8> = Vec::new();
    typed.extend_from_slice(&[8, 0, 0, 0, 0, 0, 0, 0, 4, 0, 0, 0]);
    typed.extend_from_slice(b"stapsdt\0");

    let mut bytes: Vec<u8> = Vec::new();
    bytes.extend_from_slice(&other);
    bytes.extend_from_slice(&ours);
    bytes.extend_from_slice(&typed);
    bytes.extend_from_slice(&ours);
    assert_eq!(count_notes(ByteOrder::Little, &bytes), 2);
    assert_eq!(count_notes(ByteOrder::Little, &other), 0);
    assert_eq!(count_notes(ByteOrder::Little, &typed), 0);
}

#[test]
fn a_scan_stops_at_a_record_that_does_not_fit() {
    let ours = emit_note(&LE64, 0, &site("p", "n", &[], 0, 0)).unwrap();
    let mut bytes = ours.clone();
    bytes.extend_from_slice(&ours[..ours.len() - 1]);
    assert_eq!(count_notes(ByteOrder::Little, &bytes), 1);
    assert_eq!(count_notes(ByteOrder::Little, &ours[..11]), 0);
    assert_eq!(count_notes(ByteOrder::Little, &ours[..19]), 0);
    let huge = [0xff, 0xff, 0xff, 0xff, 0xff, 0xff, 0xff, 0xff, 3, 0, 0, 0, 0, 0, 0, 0];
    assert_eq!(count_notes(ByteOrder::Little, &huge), 0);
    assert_eq!(count_notes(ByteOrder::Big, &huge), 0);
}

#[test]
fn a_scan_reads_in_the_given_byte_order() {
    let little = emit_note(&LE32, 0, &site("p", "n", &[], 0, 0)).unwrap();
    let big = emit_note(&BE32, 0, &site("p", "n", &[], 0, 0)).unwrap();
    assert_eq!(count_notes(ByteOrder::Little, &little), 1);
    assert_eq!(count_notes(ByteOrder::Big, &big), 1);
    assert_eq!(count_notes(ByteOrder::Big, &little), 0);
    assert_eq!(count_notes(ByteOrder::Little, &big), 0);
}
