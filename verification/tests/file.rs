use dted2::dted::{
    RawDTEDFile, RawDTEDHeader, RawDTEDRecord, DT2_ACC_RECORD_LENGTH, DT2_DSI_RECORD_LENGTH,
};
use dted2::error::{DecodeError, DecodeErrorKind};
use dted2::parsers::{dted_file_parser, dted_uhl_parser, parse_dted_record};
use dted2::primitives::{Angle, AxisElement};

const HEADER: &[u8; 80] =
    b"UHL11234556E8901234W123456789012UUUXXXXXXXXXXXX123445670XXXXXXXXXXXXXXXXXXXXXXXX";

fn header_with_counts(lon: u32, lat: u32) -> Vec<u8> {
    let text = format!("UHL10010000E0450000N00300030NA  U{:14}{:04}{:04}0{:24}", "", lon, lat, "");
    assert_eq!(text.len(), 80);
    text.into_bytes()
}

fn record(block: u32, lon: u16, lat: u16, samples: &[u16]) -> Vec<u8> {
    let mut out = vec![0xAAu8, (block >> 16) as u8, (block >> 8) as u8, block as u8];
    out.extend_from_slice(&lon.to_be_bytes());
    out.extend_from_slice(&lat.to_be_bytes());
    for s in samples {
        out.extend_from_slice(&s.to_be_bytes());
    }
    out.extend_from_slice(&[0xDE, 0xAD, 0xBE, 0xEF]);
    out
}

fn file_of(header: &[u8], records: &[Vec<u8>]) -> Vec<u8> {
    let mut out = header.to_vec();
    out.extend(std::iter::repeat(b'D').take(DT2_DSI_RECORD_LENGTH));
    out.extend(std::iter::repeat(b'A').take(DT2_ACC_RECORD_LENGTH));
    for r in records {
        out.extend_from_slice(r);
    }
    out
}

fn eof(remaining: usize) -> DecodeError {
    DecodeError { kind: DecodeErrorKind::Eof, remaining }
}

fn tag(remaining: usize) -> DecodeError {
    DecodeError { kind: DecodeErrorKind::Tag, remaining }
}

fn digit(remaining: usize) -> DecodeError {
    DecodeError { kind: DecodeErrorKind::Digit, remaining }
}

#[test]
fn dted_uhl_parser_decodes_the_header() {
    assert_eq!(
        dted_uhl_parser(HEADER),
        Ok((
            &b""[..],
            RawDTEDHeader {
                origin: AxisElement {
                    lat: Angle::new(890, 12, 34, true),
                    lon: Angle::new(123, 45, 56, false),
                },
                interval_secs_x_10: AxisElement { lat: 5678, lon: 1234 },
                accuracy: Some(9012),
                count: AxisElement { lat: 4567, lon: 1234 },
            }
        ))
    );
}

#[test]
fn dted_uhl_parser_leaves_what_follows() {
    let mut input = HEADER.to_vec();
    input.extend_from_slice(b"DSIU");
    let (rest, header) = dted_uhl_parser(&input).unwrap();
    assert_eq!(rest, &b"DSIU"[..]);
    assert_eq!(header.count, AxisElement { lat: 4567, lon: 1234 });
}

#[test]
fn dted_uhl_parser_accuracy_not_available() {
    let input = header_with_counts(3, 5);
    let (rest, header) = dted_uhl_parser(&input).unwrap();
    assert_eq!(rest, &b""[..]);
    assert_eq!(header.accuracy, None);
    assert_eq!(header.origin.lon, Angle::new(1, 0, 0, false));
    assert_eq!(header.origin.lat, Angle::new(45, 0, 0, false));
    assert_eq!(header.interval_secs_x_10, AxisElement { lat: 30, lon: 30 });
    assert_eq!(header.count, AxisElement { lat: 5, lon: 3 });
}

#[test]
fn dted_uhl_parser_needs_the_sentinel() {
    let mut input = HEADER.to_vec();
    input[0] = b'X';
    assert_eq!(dted_uhl_parser(&input), Err(tag(80)));
    let mut input = HEADER.to_vec();
    input[3] = b'2';
    assert_eq!(dted_uhl_parser(&input), Err(tag(80)));
    assert_eq!(dted_uhl_parser(b"UHL"), Err(tag(3)));
    assert_eq!(dted_uhl_parser(b""), Err(tag(0)));
}

#[test]
fn dted_uhl_parser_fails_on_a_short_header() {
    assert_eq!(dted_uhl_parser(&HEADER[..79]), Err(eof(24)));
    assert_eq!(dted_uhl_parser(&HEADER[..40]), Err(eof(8)));
    assert_eq!(dted_uhl_parser(&HEADER[..30]), Err(eof(2)));
    assert_eq!(dted_uhl_parser(&HEADER[..4]), Err(eof(0)));
}

#[test]
fn dted_uhl_parser_fails_on_a_field_that_is_no_number() {
    let mut input = HEADER.to_vec();
    input[21] = b'x';
    assert_eq!(dted_uhl_parser(&input), Err(digit(60)));
    let mut input = HEADER.to_vec();
    input[47] = b' ';
    assert_eq!(dted_uhl_parser(&input), Err(digit(33)));
    let mut input = HEADER.to_vec();
    input[4] = b'-';
    assert_eq!(dted_uhl_parser(&input), Err(digit(76)));
}

#[test]
fn parse_dted_record_decodes_a_record() {
    let input = record(0x010203, 7, 9, &[0x0001, 0x8002, 0x7FFF]);
    assert_eq!(
        parse_dted_record(&input, 3),
        Ok((
            &b""[..],
            RawDTEDRecord {
                blk_count: 0x010203,
                lon_count: 7,
                lat_count: 9,
                elevations: vec![1, -2, 32767],
            }
        ))
    );
}

#[test]
fn parse_dted_record_block_counter() {
    let input = record(0xFFFFFF, 0, 0, &[]);
    let (_, r) = parse_dted_record(&input, 0).unwrap();
    assert_eq!(r.blk_count, 255 * 0x10000 + 0xFFFF);
    let input = record(0x020000, 0, 0, &[]);
    let (_, r) = parse_dted_record(&input, 0).unwrap();
    assert_eq!(r.blk_count, 131072);
}

#[test]
fn parse_dted_record_without_samples() {
    let mut input = record(1, 2, 3, &[]);
    input.push(0x55);
    let (rest, r) = parse_dted_record(&input, 0).unwrap();
    assert_eq!(rest, &[0x55u8][..]);
    assert!(r.elevations.is_empty());
    assert_eq!((r.blk_count, r.lon_count, r.lat_count), (1, 2, 3));
}

#[test]
fn parse_dted_record_does_not_check_the_checksum() {
    let mut a = record(1, 2, 3, &[10, 20]);
    let mut b = a.clone();
    let n = a.len();
    a[n - 1] = 0x00;
    b[n - 1] = 0xFF;
    assert_eq!(
        parse_dted_record(&a, 2).map(|(_, r)| r),
        parse_dted_record(&b, 2).map(|(_, r)| r)
    );
}

#[test]
fn parse_dted_record_needs_the_sentinel() {
    let mut input = record(1, 2, 3, &[10, 20]);
    input[0] = 0xAB;
    assert_eq!(parse_dted_record(&input, 2), Err(tag(16)));
    assert_eq!(parse_dted_record(&[], 2), Err(tag(0)));
}

#[test]
fn parse_dted_record_fails_on_a_short_record() {
    let input = record(1, 2, 3, &[10, 20]);
    assert_eq!(input.len(), 16);
    assert_eq!(parse_dted_record(&input[..15], 2), Err(eof(3)));
    assert_eq!(parse_dted_record(&input[..12], 2), Err(eof(0)));
    assert_eq!(parse_dted_record(&input[..11], 2), Err(eof(1)));
    assert_eq!(parse_dted_record(&input[..10], 2), Err(eof(0)));
    assert_eq!(parse_dted_record(&input[..9], 2), Err(eof(1)));
    assert_eq!(parse_dted_record(&input[..7], 2), Err(eof(1)));
    assert_eq!(parse_dted_record(&input[..5], 2), Err(eof(1)));
    assert_eq!(parse_dted_record(&input[..3], 2), Err(eof(1)));
    assert_eq!(parse_dted_record(&input[..1], 2), Err(eof(0)));
    assert_eq!(parse_dted_record(&input, 3), Err(eof(2)));
    assert_eq!(parse_dted_record(&input, 4), Err(eof(0)));
    assert_eq!(parse_dted_record(&input, 5), Err(eof(0)));
    assert_eq!(parse_dted_record(&input[..15], 4), Err(eof(1)));
}

#[test]
fn dted_file_parser_decodes_one_record_of_one_sample() {
    let input = file_of(&header_with_counts(1, 1), &[record(0, 0, 0, &[0x8003])]);
    let (rest, file) = dted_file_parser(&input).unwrap();
    assert_eq!(rest, &b""[..]);
    assert_eq!(file.header.count, AxisElement { lat: 1, lon: 1 });
    assert_eq!(file.data.len(), 1);
    assert_eq!(file.data[0].elevations.len(), 1);
    assert_eq!(file.data[0].elevations[0], -3);
    assert_eq!(file.dsi_record, None);
    assert_eq!(file.acc_record, None);
}

#[test]
fn dted_file_parser_decodes_a_grid() {
    let records = vec![
        record(0, 0, 0, &[1, 2, 3]),
        record(1, 1, 0, &[0x8001, 0x8002, 0x8003]),
    ];
    let mut input = file_of(&header_with_counts(2, 3), &records);
    input.extend_from_slice(b"tail");
    let (rest, file) = dted_file_parser(&input).unwrap();
    assert_eq!(rest, &b"tail"[..]);
    assert_eq!(
        file,
        RawDTEDFile {
            header: RawDTEDHeader {
                origin: AxisElement {
                    lat: Angle::new(45, 0, 0, false),
                    lon: Angle::new(1, 0, 0, false),
                },
                interval_secs_x_10: AxisElement { lat: 30, lon: 30 },
                accuracy: None,
                count: AxisElement { lat: 3, lon: 2 },
            },
            data: vec![
                RawDTEDRecord { blk_count: 0, lon_count: 0, lat_count: 0, elevations: vec![1, 2, 3] },
                RawDTEDRecord {
                    blk_count: 1,
                    lon_count: 1,
                    lat_count: 0,
                    elevations: vec![-1, -2, -3],
                },
            ],
            dsi_record: None,
            acc_record: None,
        }
    );
}

#[test]
fn dted_file_parser_with_no_lines_has_no_records() {
    let input = file_of(&header_with_counts(0, 5), &[]);
    let (rest, file) = dted_file_parser(&input).unwrap();
    assert_eq!(rest, &b""[..]);
    assert!(file.data.is_empty());
    let input = file_of(&header_with_counts(2, 0), &[record(0, 0, 0, &[]), record(1, 1, 0, &[])]);
    let (_, file) = dted_file_parser(&input).unwrap();
    assert_eq!(file.data.len(), 2);
    assert!(file.data[0].elevations.is_empty());
    assert!(file.data[1].elevations.is_empty());
}

#[test]
fn dted_file_parser_fails_on_a_missing_record() {
    let input = file_of(&header_with_counts(2, 1), &[record(0, 0, 0, &[7])]);
    assert_eq!(dted_file_parser(&input), Err(tag(0)));
}

#[test]
fn dted_file_parser_fails_on_a_record_cut_short() {
    let full = file_of(&header_with_counts(2, 1), &[record(0, 0, 0, &[7]), record(1, 1, 0, &[8])]);
    assert!(dted_file_parser(&full).is_ok());
    assert_eq!(dted_file_parser(&full[..full.len() - 1]), Err(eof(3)));
    assert_eq!(dted_file_parser(&full[..full.len() - 4]), Err(eof(0)));
    assert_eq!(dted_file_parser(&full[..full.len() - 5]), Err(eof(1)));
    assert_eq!(dted_file_parser(&full[..full.len() - 13]), Err(eof(0)));
}

#[test]
fn dted_file_parser_fails_on_a_record_with_a_wrong_sentinel() {
    let mut input =
        file_of(&header_with_counts(2, 1), &[record(0, 0, 0, &[7]), record(1, 1, 0, &[8])]);
    let second = input.len() - 14;
    input[second] = 0x00;
    assert_eq!(dted_file_parser(&input), Err(tag(14)));
}

#[test]
fn dted_file_parser_fails_in_the_auxiliary_blocks() {
    let full = file_of(&header_with_counts(0, 0), &[]);
    assert_eq!(full.len(), 80 + 648 + 2700);
    assert_eq!(dted_file_parser(&full[..80 + 647]), Err(eof(647)));
    assert_eq!(dted_file_parser(&full[..80 + 648 + 2699]), Err(eof(2699)));
    assert_eq!(dted_file_parser(&full[..80]), Err(eof(0)));
}

#[test]
fn dted_file_parser_fails_as_the_header_fails() {
    let mut input = file_of(&header_with_counts(1, 1), &[record(0, 0, 0, &[7])]);
    let n = input.len();
    input[2] = b'X';
    assert_eq!(dted_file_parser(&input), Err(tag(n)));
}

#[test]
fn dted_file_parser_twice_gives_the_same() {
    let input = file_of(&header_with_counts(1, 2), &[record(5, 6, 7, &[0x8009, 9])]);
    let copy = input.clone();
    assert_eq!(dted_file_parser(&input), dted_file_parser(&input));
    assert_eq!(dted_file_parser(&input), dted_file_parser(&copy));
    let short = &input[..input.len() - 2];
    assert_eq!(dted_file_parser(short), dted_file_parser(short));
    assert!(dted_file_parser(short).is_err());
}

#[test]
fn decode_error_names_the_place() {
    let full = file_of(&header_with_counts(1, 1), &[record(0, 0, 0, &[7])]);
    let cut = &full[..full.len() - 5];
    let e = dted_file_parser(cut).unwrap_err();
    assert_eq!(e.kind, DecodeErrorKind::Eof);
    assert_eq!(e.offset(cut.len()), 80 + 648 + 2700 + 8);
}

#[test]
fn dted_uhl_parser_without_hemisphere_letters() {
    let mut input = HEADER.to_vec();
    input.remove(19);
    input.remove(11);
    assert_eq!(input.len(), 78);
    let (rest, header) = dted_uhl_parser(&input).unwrap();
    assert_eq!(rest, &b""[..]);
    assert_eq!(header.origin.lon, Angle::new(123, 45, 56, false));
    assert_eq!(header.origin.lat, Angle::new(890, 12, 34, false));
    assert_eq!(header.interval_secs_x_10, AxisElement { lat: 5678, lon: 1234 });
    assert_eq!(header.accuracy, Some(9012));
    assert_eq!(header.count, AxisElement { lat: 4567, lon: 1234 });
}

#[test]
fn dted_uhl_parser_reads_eighty_bytes() {
    let mut input = HEADER.to_vec();
    input.extend_from_slice(&[0xAA; 20]);
    let (rest, _) = dted_uhl_parser(&input).unwrap();
    assert_eq!(rest.len(), 20);
    assert_eq!(rest, &input[80..]);
}

#[test]
fn dted_file_parser_leaves_a_tail_of_its_input() {
    let mut input = file_of(&header_with_counts(1, 2), &[record(0, 0, 0, &[1, 2])]);
    let used = input.len();
    input.extend_from_slice(b"more bytes");
    let (rest, _) = dted_file_parser(&input).unwrap();
    assert_eq!(used, 80 + DT2_DSI_RECORD_LENGTH + DT2_ACC_RECORD_LENGTH + 12 + 2 * 2);
    assert_eq!(rest, &input[used..]);
}
