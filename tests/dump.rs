use hexdump::hexdump;

const BYTES: &'static [u8] = b"\x48\x83\xEC\x28\xE8\x1B\x03\x00\x00\x48\x83\xC4\x28\xE9\x66\xFE\
\x45\x72\x72\x6F\x72\x20\x63\x6F\x64\x65\x20\x00\x00\x00\x00\x00\
\x00\x11\x22\x33\x44\x55\x66\x77\x88\x99\xAA\xBB\xCC\xDD\xEE\xFF";

const PATTERN: &'static [u8] = b"\x00\x11\x22\x33\x44\x55\x66\x77\x88\x99\xAA\xBB\xCC\xDD\xEE\xFF\x68\x65\x78\x64\x75\x6D\x70\x00";

#[test]
fn units() {
    assert_eq!(hexdump(&BYTES[32..48], 32).to_string(),
        "00000020:  00 11 22 33 44 55 66 77  88 99 AA BB CC DD EE FF  |..\"3DUfw........|\n");
    assert_eq!(hexdump(&BYTES[5..28], 5).to_string(),
        "00000005:                 1B 03 00  00 48 83 C4 28 E9 66 FE  |     ....H..(.f.|\n\
         00000010:  45 72 72 6F 72 20 63 6F  64 65 20 00              |Error code .    |\n");
    assert_eq!(hexdump(&BYTES[12..20], 12).to_string(),
        "0000000C:                                       28 E9 66 FE  |            (.f.|\n\
         00000010:  45 72 72 6F                                       |Erro            |\n");
    assert_eq!(hexdump(&BYTES[8..24], 8).to_string(),
        "00000008:                           00 48 83 C4 28 E9 66 FE  |        .H..(.f.|\n\
         00000010:  45 72 72 6F 72 20 63 6F                           |Error co        |\n");
}

#[test]
fn full_row_at_aligned_offset() {
    assert_eq!(hexdump(&PATTERN[0..16], 32).to_string(),
        "00000020:  00 11 22 33 44 55 66 77  88 99 AA BB CC DD EE FF  |..\"3DUfw........|\n");
}

#[test]
fn row_split_across_boundary() {
    let lines = hexdump(&PATTERN[12..24], 12).lines();
    assert_eq!(lines.len(), 2);
    assert_eq!(lines[0],
        "0000000C:                                       CC DD EE FF  |            ....|\n");
    assert_eq!(lines[1],
        "00000010:  68 65 78 64 75 6D 70 00                           |hexdump.        |\n");
}

#[test]
fn padding_on_both_edges() {
    let lines = hexdump(&BYTES[5..28], 5).lines();
    assert_eq!(lines.len(), 2);
    assert!(lines[0].starts_with("00000005: "));
    assert!(lines[0].starts_with(&format!("00000005: {}", " ".repeat(1 + 5 * 3))));
    assert!(lines[1].starts_with("00000010:  45 "));
    assert!(lines[1].contains(&format!("00 {} |", " ".repeat(4 * 3))));
    assert!(lines[1].ends_with(".    |\n"));
}

#[test]
fn empty_input_gives_no_lines() {
    for offset in [0usize, 5, 16, 1000] {
        assert_eq!(hexdump(&[], offset).lines().len(), 0);
        assert_eq!(hexdump(&[], offset).to_string(), "");
    }
}

#[test]
fn line_count_and_width() {
    let data: Vec<u8> = (0..200u32).map(|x| x as u8).collect();
    for offset in [0usize, 1, 7, 8, 15, 16, 17, 31, 100] {
        for len in [1usize, 2, 15, 16, 17, 33, 200] {
            let lines = hexdump(&data[..len], offset).lines();
            let expected = (offset + len - 1) / 16 - offset / 16 + 1;
            assert_eq!(lines.len(), expected);
            for line in &lines {
                assert_eq!(line.len(), 80);
            }
        }
    }
}

#[test]
fn each_byte_once_in_order() {
    let data: Vec<u8> = (0..40u32).map(|x| (x * 7 % 90 + 0x21) as u8).collect();
    let offset: usize = 9;
    let lines = hexdump(&data, offset).lines();
    let mut hex = Vec::new();
    let mut text = Vec::new();
    for line in &lines {
        let hex_col = &line[11..60];
        for cell in hex_col.split(' ').filter(|c| !c.is_empty()) {
            hex.push(u8::from_str_radix(cell, 16).unwrap());
        }
        text.extend(line[62..78].chars().filter(|c| *c != ' '));
    }
    assert_eq!(hex, data);
    let shown: Vec<char> = data.iter().map(|&b| b as char).collect();
    assert_eq!(text, shown);
}

#[test]
fn same_input_same_output() {
    let a = hexdump(&BYTES, 3).to_string();
    let b = hexdump(&BYTES, 3).to_string();
    assert_eq!(a, b);
    assert_eq!(a, hexdump(&BYTES, 3).lines().concat());
}

#[test]
fn aligned_edges_have_no_padding() {
    let lines = hexdump(&PATTERN[0..20], 16).lines();
    assert!(lines[0].starts_with("00000010:  00 11"));
    assert!(lines[0].contains("|..\"3"));
    let lines = hexdump(&PATTERN[4..16], 4).lines();
    assert_eq!(lines.len(), 1);
    assert!(lines[0].ends_with("EE FF  |    DUfw........|\n"));
    assert!(lines[0].contains("EE FF  |"));
}

#[test]
fn printable_range() {
    let s = hexdump(&[0x1F, 0x20, 0x7E, 0x7F, 0x80, 0x41], 0).to_string();
    assert_eq!(s,
        "00000000:  1F 20 7E 7F 80 41                                 |. ~..A          |\n");
}

#[test]
fn mid_gap_with_exactly_eight_leading_blanks() {
    let s = hexdump(&[0xAB], 8).to_string();
    assert_eq!(s,
        "00000008:                           AB                       |        .       |\n");
    let s = hexdump(&[0xAB], 7).to_string();
    assert_eq!(s,
        "00000007:                       AB                           |       .        |\n");
}

#[test]
fn wide_addresses_keep_all_digits() {
    let s = hexdump(&[0x41, 0x42], 0x1_2345_678E).to_string();
    assert_eq!(s,
        "12345678E:                                             41 42  |              AB|\n");
}

#[test]
fn last_address_of_the_space() {
    let s = hexdump(&[0x41], usize::MAX - 1).to_string();
    assert!(s.ends_with("41     |              A |\n"));
}
