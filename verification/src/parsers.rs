//! Field decoders: each takes the bytes that are left and returns the bytes
//! after the field together with the decoded value, or says why it failed.
use crate::bytes;
use crate::dted::{
    record_views, RawDTEDFile, RawDTEDHeader, RawDTEDRecord, RecognitionSentinel, RecordView,
    DT2_ACC_RECORD_LENGTH, DT2_DSI_RECORD_LENGTH,
};
use crate::error::{DecodeError, DecodeErrorKind, Failure};
use crate::grammar::{
    all_digits, angle_field, be_u16_field, bytes_field, data_record, data_records, decimal_value,
    digit_value, dted_file, hemisphere_field, is_digit, nan_field, outcome, outcome_records,
    outcome_view, sample_at, samples_field, signed_mag_field, signed_magnitude, tag_field,
    uhl_block, uint_field, uint_field_or, uint_value, within,
};
use crate::laws::{
    lemma_angle_field_within, lemma_data_record_within, lemma_data_records_failure,
    lemma_decimal_value_of_prefix, lemma_dted_file_within, lemma_file_well_formed,
    lemma_nan_field_within, lemma_signed_mag_field_within, lemma_uhl_block_within,
    lemma_uint_field_or_within, lemma_uint_field_within,
};
use crate::numeric::FieldInt;
use crate::primitives::{Angle, AxisElement};
use vstd::prelude::*;

verus! {

/// Sign bit of a signed-magnitude 16-bit sample.
const U16_SIGN_BIT: u16 = 0x8000;

/// Magnitude bits of a signed-magnitude 16-bit sample.
const U16_DATA_MSK: u16 = 0x7FFF;

/// Converts a signed-magnitude pattern to `i16` without branching.
pub fn to_i16(x: u16) -> (r: i16)
    ensures
        r == signed_magnitude(x),
{
    let m: u16 = x & U16_DATA_MSK;
    let b: u16 = (x & U16_SIGN_BIT) >> 15;
    assert(m == x % 0x8000 && b == x / 0x8000 && b <= 1) by (bit_vector)
        requires
            m == x & 0x7FFF,
            b == (x & 0x8000) >> 15,
    ;
    let v: i16 = m as i16;
    let s: i16 = b as i16;
    let d: i16 = s << 1;
    assert(d == 2 * s) by (bit_vector)
        requires
            0 <= s <= 1,
            d == s << 1,
    ;
    let f: i16 = 1 - d;
    assert(f * v == if s == 0 { v as int } else { -v }) by (nonlinear_arith)
        requires
            f == 1 - 2 * s,
            0 <= s <= 1,
    ;
    f * v
}

/// Reads a whole slice of ASCII digits as a decimal number.
///
/// The digits are summed in a `u32` and the sum is cast to `U`.  There is
/// no number where a byte is no digit, where the sum passes `u32::MAX`, or
/// where `U` cannot hold it.
pub fn to_uint<U: FieldInt>(input: &[u8]) -> (r: Option<U>)
    ensures
        r == uint_value::<U>(input@),
{
    let mut acc: u32 = 0;
    let mut i: usize = 0;
    while i < input.len()
        invariant
            i <= input@.len(),
            all_digits(input@.take(i as int)),
            acc == decimal_value(input@.take(i as int)),
        decreases input@.len() - i,
    {
        let b: u8 = input[i];
        if b < 0x30 || b > 0x39 {
            assert(!is_digit(input@[i as int]));
            return None;
        }
        proof {
            let next = input@.take(i + 1);
            assert(next.drop_last() == input@.take(i as int));
            assert(next.last() == b);
            assert(decimal_value(next) == 10 * acc + digit_value(b));
            assert(all_digits(next)) by {
                assert forall|j: int| 0 <= j < next.len() implies is_digit(#[trigger] next[j]) by {
                    if j < i {
                        assert(next[j] == input@.take(i as int)[j]);
                    }
                }
            }
            lemma_decimal_value_of_prefix(input@, i + 1);
        }
        let d: u32 = (b - 0x30) as u32;
        let shifted: u32 = match acc.checked_mul(10) {
            Some(m) => m,
            None => {
                return None;
            },
        };
        acc = match shifted.checked_add(d) {
            Some(a) => a,
            None => {
                return None;
            },
        };
        i = i + 1;
    }
    assert(input@.take(i as int) == input@);
    U::from_u32(acc)
}

/// The failure of the given kind at a field that starts where `input`
/// starts.
fn error_at(kind: DecodeErrorKind, input: &[u8]) -> (e: DecodeError)
    ensures
        e@ == Failure::at(kind, input@),
{
    DecodeError { kind, remaining: input.len() }
}

/// Decodes a decimal number of `count` digits from the front of `input`.
///
/// Fails with `Eof` where fewer than `count` bytes are left, and with
/// `Digit` where the field does not spell a number that `U` holds.
pub fn uint_parser<'a, U: FieldInt>(count: usize, input: &'a [u8]) -> (r: Result<
    (&'a [u8], U),
    DecodeError,
>)
    ensures
        outcome(r) == uint_field::<U>(count as nat, input@),
        within(outcome(r), input@),
{
    proof {
        lemma_uint_field_within::<U>(count as nat, input@);
    }
    match bytes::take(count, input) {
        Some((rest, digits)) => match to_uint::<U>(digits) {
            Some(v) => Ok((rest, v)),
            None => Err(error_at(DecodeErrorKind::Digit, input)),
        },
        None => Err(error_at(DecodeErrorKind::Eof, input)),
    }
}

/// Decodes a decimal number of `count` digits, or, where `count` is zero,
/// reads nothing and returns `default`.
pub fn uint_parser_with_default<'a, U: FieldInt>(count: usize, default: U, input: &'a [u8]) -> (r:
    Result<(&'a [u8], U), DecodeError>)
    ensures
        outcome(r) == uint_field_or::<U>(count as nat, default, input@),
        within(outcome(r), input@),
{
    proof {
        lemma_uint_field_or_within::<U>(count as nat, default, input@);
    }
    if count == 0 {
        Ok((input, default))
    } else {
        uint_parser::<U>(count, input)
    }
}

/// Reads the hemisphere letter at the front of `input`, if there is one,
/// and returns the sign it gives: `N`, `S`, `E` and `W` are tried in this
/// order.
fn hemisphere_parser<'a>(input: &'a [u8]) -> (r: (&'a [u8], bool))
    ensures
        Ok::<(Seq<u8>, bool), Failure>((r.0@, r.1)) == hemisphere_field(input@),
{
    let north: &'static [u8; 1] = &[0x4Eu8];
    let south: &'static [u8; 1] = &[0x53u8];
    let east: &'static [u8; 1] = &[0x45u8];
    let west: &'static [u8; 1] = &[0x57u8];
    if let Some((rest, _)) = bytes::tag(north.as_slice(), input) {
        (rest, false)
    } else if let Some((rest, _)) = bytes::tag(south.as_slice(), input) {
        (rest, true)
    } else if let Some((rest, _)) = bytes::tag(east.as_slice(), input) {
        (rest, false)
    } else if let Some((rest, _)) = bytes::tag(west.as_slice(), input) {
        (rest, true)
    } else {
        (input, false)
    }
}

/// Decodes an angle: degrees, minutes and seconds of the given widths, each
/// zero where its width is zero, then the hemisphere letter if one follows.
pub fn to_angle<'a>(input: &'a [u8], num_deg: usize, num_min: usize, num_sec: usize) -> (r: Result<
    (&'a [u8], Angle),
    DecodeError,
>)
    ensures
        outcome(r) == angle_field(num_deg as nat, num_min as nat, num_sec as nat, input@),
        within(outcome(r), input@),
{
    proof {
        lemma_angle_field_within(num_deg as nat, num_min as nat, num_sec as nat, input@);
    }
    let (input, deg) = uint_parser_with_default::<u16>(num_deg, 0, input)?;
    let (input, min) = uint_parser_with_default::<u8>(num_min, 0, input)?;
    let (input, sec) = uint_parser_with_default::<u32>(num_sec, 0, input)?;
    let (input, negative) = hemisphere_parser(input);
    Ok((input, Angle::new(deg, min, sec, negative)))
}

/// Decodes an angle of the given widths from the front of `input`.
pub fn angle_parser<'a>(num_deg: usize, num_min: usize, num_sec: usize, input: &'a [u8]) -> (r:
    Result<(&'a [u8], Angle), DecodeError>)
    ensures
        outcome(r) == angle_field(num_deg as nat, num_min as nat, num_sec as nat, input@),
        within(outcome(r), input@),
{
    to_angle(input, num_deg, num_min, num_sec)
}

/// Decodes a decimal number of `count` digits that may be given as not
/// available.
///
/// The sentinel is looked for first.  A field that begins with it is read
/// to its full width and yields `None`; any other field is read as a number.
pub fn to_nan<'a, U: FieldInt>(input: &'a [u8], count: usize) -> (r: Result<
    (&'a [u8], Option<U>),
    DecodeError,
>)
    ensures
        outcome(r) == nan_field::<U>(count as nat, input@),
        within(outcome(r), input@),
{
    proof {
        lemma_nan_field_within::<U>(count as nat, input@);
    }
    let sentinel = RecognitionSentinel::NA.value();
    if sentinel.len() <= count {
        if let Some((after, _)) = bytes::tag(sentinel, input) {
            return match bytes::take(count - sentinel.len(), after) {
                Some((rest, _)) => Ok((rest, None)),
                None => Err(error_at(DecodeErrorKind::Eof, after)),
            };
        }
    }
    let (rest, v) = uint_parser::<U>(count, input)?;
    Ok((rest, Some(v)))
}

/// Decodes a decimal number of `count` digits that may be given as not
/// available, from the front of `input`.
pub fn nan_parser<'a, U: FieldInt>(count: usize, input: &'a [u8]) -> (r: Result<
    (&'a [u8], Option<U>),
    DecodeError,
>)
    ensures
        outcome(r) == nan_field::<U>(count as nat, input@),
        within(outcome(r), input@),
{
    to_nan::<U>(input, count)
}

/// Decodes one elevation sample: two bytes, big-endian, in signed-magnitude
/// form.
pub fn signed_mag_parser<'a>(input: &'a [u8]) -> (r: Result<(&'a [u8], i16), DecodeError>)
    ensures
        outcome(r) == signed_mag_field(input@),
        within(outcome(r), input@),
{
    proof {
        lemma_signed_mag_field_within(input@);
    }
    match bytes::be_u16(input) {
        Some((rest, pattern)) => Ok((rest, to_i16(pattern))),
        None => Err(error_at(DecodeErrorKind::Eof, input)),
    }
}

/// Checks that `input` starts with the sentinel and returns what follows
/// it, and the bytes that matched.
fn tag_parser<'a>(sentinel: RecognitionSentinel, input: &'a [u8]) -> (r: Result<
    (&'a [u8], &'a [u8]),
    DecodeError,
>)
    ensures
        outcome_view(r) == tag_field(sentinel.bytes(), input@),
{
    match bytes::tag(sentinel.value(), input) {
        Some(p) => Ok(p),
        None => Err(error_at(DecodeErrorKind::Tag, input)),
    }
}

/// Splits `count` bytes off the front of `input` and returns what follows
/// them, and the bytes themselves.
fn bytes_parser<'a>(count: usize, input: &'a [u8]) -> (r: Result<
    (&'a [u8], &'a [u8]),
    DecodeError,
>)
    ensures
        outcome_view(r) == bytes_field(count as nat, input@),
{
    match bytes::take(count, input) {
        Some(p) => Ok(p),
        None => Err(error_at(DecodeErrorKind::Eof, input)),
    }
}

/// Decodes a big-endian 16-bit number from the front of `input`.
fn be_u16_parser<'a>(input: &'a [u8]) -> (r: Result<(&'a [u8], u16), DecodeError>)
    ensures
        outcome(r) == be_u16_field(input@),
{
    match bytes::be_u16(input) {
        Some(p) => Ok(p),
        None => Err(error_at(DecodeErrorKind::Eof, input)),
    }
}

/// Decodes the User Header Label from the front of `input`.
///
/// After the sentinel come, in this order: the longitude and the latitude
/// of the origin, each with three digits of degrees, two of minutes and two
/// of seconds and a hemisphere letter; the longitude and the latitude
/// interval, four digits each; the accuracy, four digits or not available;
/// fifteen bytes that are skipped; the number of longitude lines and of
/// latitude points, four digits each; and twenty-five bytes that are
/// skipped.  The first field that fails ends the decode with its failure.
pub fn dted_uhl_parser<'a>(input: &'a [u8]) -> (r: Result<(&'a [u8], RawDTEDHeader), DecodeError>)
    ensures
        outcome(r) == uhl_block(input@),
        within(outcome(r), input@),
{
    proof {
        lemma_uhl_block_within(input@);
    }
    let (input, _) = tag_parser(RecognitionSentinel::UHL, input)?;
    let (input, lon_origin) = angle_parser(3, 2, 2, input)?;
    let (input, lat_origin) = angle_parser(3, 2, 2, input)?;
    let (input, lon_interval_s) = uint_parser::<u32>(4, input)?;
    let (input, lat_interval_s) = uint_parser::<u32>(4, input)?;
    let (input, accuracy) = nan_parser::<u32>(4, input)?;
    let (input, _) = bytes_parser(15, input)?;
    let (input, lon_count) = uint_parser::<u32>(4, input)?;
    let (input, lat_count) = uint_parser::<u32>(4, input)?;
    let (input, _) = bytes_parser(25, input)?;
    Ok(
        (
            input,
            RawDTEDHeader {
                origin: AxisElement::new(lat_origin, lon_origin),
                interval_secs_x_10: AxisElement::new(lat_interval_s, lon_interval_s),
                accuracy,
                count: AxisElement::new(lat_count, lon_count),
            },
        ),
    )
}

/// Decodes `count` elevation samples, one after the other.
fn samples_parser<'a>(count: usize, input: &'a [u8]) -> (r: Result<
    (&'a [u8], Vec<i16>),
    DecodeError,
>)
    ensures
        outcome_view(r) == samples_field(count as nat, input@),
{
    let mut rest = input;
    let mut samples: Vec<i16> = Vec::new();
    let mut i: usize = 0;
    while i < count
        invariant
            i <= count,
            2 * i <= input@.len(),
            rest@ == input@.skip(2 * i),
            samples@ == Seq::new(i as nat, |j: int| sample_at(input@, j)),
        decreases count - i,
    {
        let (after, sample) = signed_mag_parser(rest)?;
        rest = after;
        samples.push(sample);
        i = i + 1;
    }
    Ok((rest, samples))
}

/// Decodes one data record with `line_len` elevation samples from the front
/// of `input`.
///
/// After the sentinel come the block counter, one high byte and sixteen low
/// bits; the index of the longitude line and of the first latitude point,
/// sixteen bits each; the samples; and four bytes of checksum, which are
/// read and not looked at.  All numbers are big-endian.
pub fn parse_dted_record<'a>(input: &'a [u8], line_len: usize) -> (r: Result<
    (&'a [u8], RawDTEDRecord),
    DecodeError,
>)
    ensures
        outcome_view(r) == data_record(line_len as nat, input@),
        within(outcome_view(r), input@),
        r matches Ok(p) ==> p.1@.well_formed() && p.1.elevations@.len() == line_len,
{
    proof {
        lemma_data_record_within(line_len as nat, input@);
    }
    let (input, _) = tag_parser(RecognitionSentinel::DATA, input)?;
    let (input, block_byte0) = bytes_parser(1, input)?;
    let (input, block_rest) = be_u16_parser(input)?;
    let (input, lon_count) = be_u16_parser(input)?;
    let (input, lat_count) = be_u16_parser(input)?;
    let (input, elevations) = samples_parser(line_len, input)?;
    let (input, _) = bytes_parser(4, input)?;
    Ok(
        (
            input,
            RawDTEDRecord {
                blk_count: block_byte0[0] as u32 * 0x10000 + block_rest as u32,
                lon_count,
                lat_count,
                elevations,
            },
        ),
    )
}

/// Decodes `count` data records, each with `line_len` elevation samples.
fn records_parser<'a>(count: usize, line_len: usize, input: &'a [u8]) -> (r: Result<
    (&'a [u8], Vec<RawDTEDRecord>),
    DecodeError,
>)
    ensures
        outcome_records(r) == data_records(count as nat, line_len as nat, input@),
{
    let mut rest = input;
    let mut records: Vec<RawDTEDRecord> = Vec::new();
    let mut i: usize = 0;
    assert(record_views(records@) == Seq::<RecordView>::empty());
    while i < count
        invariant
            i <= count,
            data_records(i as nat, line_len as nat, input@) == Ok::<_, Failure>(
                (rest@, record_views(records@)),
            ),
        decreases count - i,
    {
        match parse_dted_record(rest, line_len) {
            Ok((after, record)) => {
                proof {
                    assert(record_views(records@.push(record)) == record_views(records@).push(
                        record@,
                    ));
                }
                rest = after;
                records.push(record);
            },
            Err(e) => {
                proof {
                    lemma_data_records_failure((i + 1) as nat, count as nat, line_len as nat, input@);
                }
                return Err(e);
            },
        }
        i = i + 1;
    }
    Ok((rest, records))
}

/// Decodes a whole file.
///
/// The header comes first; the Data Set Identification and the Accuracy
/// Description block are skipped; then follow as many records as the header
/// counts lines of longitude, each with as many samples as it counts points
/// of latitude.  The first failure ends the decode: there is no partial
/// result.
pub fn dted_file_parser<'a>(input: &'a [u8]) -> (r: Result<(&'a [u8], RawDTEDFile), DecodeError>)
    ensures
        outcome_view(r) == dted_file(input@),
        within(outcome_view(r), input@),
        r matches Ok(p) ==> p.1@.well_formed(),
{
    proof {
        lemma_dted_file_within(input@);
    }
    let (rest, header) = dted_uhl_parser(input)?;
    let (rest, _) = bytes_parser(DT2_DSI_RECORD_LENGTH, rest)?;
    let (rest, _) = bytes_parser(DT2_ACC_RECORD_LENGTH, rest)?;
    let (rest, records) = records_parser(
        header.count.lon as usize,
        header.count.lat as usize,
        rest,
    )?;
    proof {
        lemma_file_well_formed(input@);
    }
    Ok((rest, RawDTEDFile { header, data: records, dsi_record: None, acc_record: None }))
}

} // verus!
