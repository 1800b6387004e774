//! The grammar of the format, as functions on byte sequences.
//!
//! Every field has a function here that says what decoding it from the
//! front of a sequence yields: the bytes after the field and the field's
//! value, or the failure.  Larger fields are written as the fields they
//! consist of, one after the other; the first one that fails decides the
//! failure of the whole.
use crate::dted::{
    record_views, FileView, RawDTEDHeader, RawDTEDRecord, RecognitionSentinel, RecordView,
    DT2_ACC_RECORD_LENGTH, DT2_DSI_RECORD_LENGTH,
};
use crate::error::{DecodeError, DecodeErrorKind, Failure};
use crate::numeric::FieldInt;
use crate::primitives::{Angle, AxisElement};
use vstd::prelude::*;

verus! {

/// What decoding makes of a sequence: the bytes after the field and the
/// field's value, or the failure.
pub type Decoded<T> = Result<(Seq<u8>, T), Failure>;

/// The bytes after a field that decoded.
pub open spec fn rest<T>(d: Decoded<T>) -> Seq<u8> {
    d->Ok_0.0
}

/// The value of a field that decoded.
pub open spec fn value<T>(d: Decoded<T>) -> T {
    d->Ok_0.1
}

/// The failure of a field, as the failure of a field that holds it.
pub open spec fn failure<T, U>(d: Decoded<T>) -> Decoded<U> {
    Err(d->Err_0)
}

/// The outcome lies within the input `s`: the bytes that are left are a
/// tail of `s`, and a failure lies at a place in `s`.
pub open spec fn within<T>(d: Decoded<T>, s: Seq<u8>) -> bool {
    match d {
        Ok(p) => p.0.len() <= s.len() && p.0 == s.skip(s.len() - p.0.len()),
        Err(e) => e.remaining <= s.len(),
    }
}

/// What an executable decoder returned, with the bytes that are left taken
/// as a sequence.
pub open spec fn outcome<'a, T>(r: Result<(&'a [u8], T), DecodeError>) -> Decoded<T> {
    match r {
        Ok(p) => Ok((p.0@, p.1)),
        Err(e) => Err(e@),
    }
}

/// What an executable decoder returned, with the bytes that are left and
/// the value both taken as mathematical values.
pub open spec fn outcome_view<'a, T: View>(r: Result<(&'a [u8], T), DecodeError>) -> Decoded<
    T::V,
> {
    match r {
        Ok(p) => Ok((p.0@, p.1@)),
        Err(e) => Err(e@),
    }
}

/// What an executable decoder of a run of records returned, with the bytes
/// that are left and each record taken as mathematical values.
pub open spec fn outcome_records<'a>(
    r: Result<(&'a [u8], Vec<RawDTEDRecord>), DecodeError>,
) -> Decoded<Seq<RecordView>> {
    match r {
        Ok(p) => Ok((p.0@, record_views(p.1@))),
        Err(e) => Err(e@),
    }
}

/// An ASCII decimal digit.
pub open spec fn is_digit(b: u8) -> bool {
    0x30 <= b <= 0x39
}

/// Every byte of the sequence is a decimal digit.
pub open spec fn all_digits(s: Seq<u8>) -> bool {
    forall|i: int| 0 <= i < s.len() ==> is_digit(#[trigger] s[i])
}

/// The number that a digit stands for.
pub open spec fn digit_value(b: u8) -> nat {
    if is_digit(b) {
        (b - 0x30) as nat
    } else {
        0
    }
}

/// The number that a sequence of digits spells in base ten, most
/// significant digit first.  The empty sequence spells zero.
pub open spec fn decimal_value(s: Seq<u8>) -> nat
    decreases s.len(),
{
    if s.len() == 0 {
        0
    } else {
        10 * decimal_value(s.drop_last()) + digit_value(s.last())
    }
}

/// The number that a whole sequence of digits spells, as a value of `U`.
/// There is none where a byte is no digit, where the number exceeds
/// `u32::MAX`, or where `U` cannot hold it.
pub open spec fn uint_value<U: FieldInt>(s: Seq<u8>) -> Option<U> {
    if all_digits(s) && decimal_value(s) <= u32::MAX {
        U::narrow(decimal_value(s) as u32)
    } else {
        None
    }
}

/// A field of `count` bytes that are not interpreted.
pub open spec fn bytes_field(count: nat, s: Seq<u8>) -> Decoded<Seq<u8>> {
    if count <= s.len() {
        Ok((s.skip(count as int), s.take(count as int)))
    } else {
        Err(Failure::at(DecodeErrorKind::Eof, s))
    }
}

/// A recognition sentinel.
pub open spec fn tag_field(sentinel: Seq<u8>, s: Seq<u8>) -> Decoded<Seq<u8>> {
    if sentinel.is_prefix_of(s) {
        Ok((s.skip(sentinel.len() as int), sentinel))
    } else {
        Err(Failure::at(DecodeErrorKind::Tag, s))
    }
}

/// The number that two bytes spell, the first one high.
pub open spec fn be_u16_value(high: u8, low: u8) -> u16 {
    (high * 256 + low) as u16
}

/// A big-endian 16-bit number.
pub open spec fn be_u16_field(s: Seq<u8>) -> Decoded<u16> {
    if 2 <= s.len() {
        Ok((s.skip(2), be_u16_value(s[0], s[1])))
    } else {
        Err(Failure::at(DecodeErrorKind::Eof, s))
    }
}

/// A decimal number of `count` digits.
pub open spec fn uint_field<U: FieldInt>(count: nat, s: Seq<u8>) -> Decoded<U> {
    if s.len() < count {
        Err(Failure::at(DecodeErrorKind::Eof, s))
    } else {
        match uint_value::<U>(s.take(count as int)) {
            Some(v) => Ok((s.skip(count as int), v)),
            None => Err(Failure::at(DecodeErrorKind::Digit, s)),
        }
    }
}

/// A decimal number of `count` digits, or, where `count` is zero, a field
/// that is absent from the layout and stands for `default`.
pub open spec fn uint_field_or<U: FieldInt>(count: nat, default: U, s: Seq<u8>) -> Decoded<U> {
    if count == 0 {
        Ok((s, default))
    } else {
        uint_field::<U>(count, s)
    }
}

/// The field of `count` bytes at the front of the sequence begins with the
/// "not available" sentinel.
pub open spec fn is_not_available(count: nat, s: Seq<u8>) -> bool {
    RecognitionSentinel::NA.bytes().len() <= count && RecognitionSentinel::NA.bytes().is_prefix_of(
        s,
    )
}

/// A decimal number of `count` digits that may be given as not available.
/// The sentinel is looked for first: a field that begins with it is never
/// read as a number.
pub open spec fn nan_field<U: FieldInt>(count: nat, s: Seq<u8>) -> Decoded<Option<U>> {
    if is_not_available(count, s) {
        let after = s.skip(RecognitionSentinel::NA.bytes().len() as int);
        let fill = bytes_field((count - RecognitionSentinel::NA.bytes().len()) as nat, after);
        if fill is Err {
            failure(fill)
        } else {
            Ok((rest(fill), None))
        }
    } else {
        let number = uint_field::<U>(count, s);
        if number is Err {
            failure(number)
        } else {
            Ok((rest(number), Some(value(number))))
        }
    }
}

/// The sign that a hemisphere letter gives an angle: `N` and `E` are
/// non-negative, `S` and `W` negative.  Other bytes are no hemisphere.
pub open spec fn hemisphere(b: u8) -> Option<bool> {
    if b == 0x4E || b == 0x45 {
        Some(false)
    } else if b == 0x53 || b == 0x57 {
        Some(true)
    } else {
        None
    }
}

/// The hemisphere letter that may follow an angle.  Where the next byte is
/// none, nothing is read and the angle is non-negative.
pub open spec fn hemisphere_field(s: Seq<u8>) -> Decoded<bool> {
    if 1 <= s.len() && hemisphere(s[0]) is Some {
        Ok((s.skip(1), hemisphere(s[0])->0))
    } else {
        Ok((s, false))
    }
}

/// An angle: degrees, minutes and seconds of the given widths, then the
/// hemisphere letter if there is one.
pub open spec fn angle_field(num_deg: nat, num_min: nat, num_sec: nat, s: Seq<u8>) -> Decoded<
    Angle,
> {
    let deg = uint_field_or::<u16>(num_deg, 0, s);
    let min = uint_field_or::<u8>(num_min, 0, rest(deg));
    let sec = uint_field_or::<u32>(num_sec, 0, rest(min));
    let sign = hemisphere_field(rest(sec));
    if deg is Err {
        failure(deg)
    } else if min is Err {
        failure(min)
    } else if sec is Err {
        failure(sec)
    } else {
        Ok(
            (
                rest(sign),
                Angle { deg: value(deg), min: value(min), sec: value(sec), negative: value(sign) },
            ),
        )
    }
}

/// The number that a 16-bit signed-magnitude pattern stands for: the low
/// fifteen bits are the magnitude, and the top bit, when set, negates it.
/// Both `0x0000` and `0x8000` stand for zero, and no pattern for -32768.
pub open spec fn signed_magnitude(x: u16) -> int {
    if x < 0x8000 {
        x as int
    } else {
        0x8000 - x
    }
}

/// The canonical pattern of a number between -32767 and 32767.
pub open spec fn signed_magnitude_pattern(v: int) -> u16 {
    if v < 0 {
        (0x8000 - v) as u16
    } else {
        v as u16
    }
}

/// One elevation sample: a big-endian signed-magnitude number.
pub open spec fn signed_mag_field(s: Seq<u8>) -> Decoded<i16> {
    let pattern = be_u16_field(s);
    if pattern is Err {
        failure(pattern)
    } else {
        Ok((rest(pattern), signed_magnitude(value(pattern)) as i16))
    }
}

/// The sample at index `i` of a run of samples.
pub open spec fn sample_at(s: Seq<u8>, i: int) -> i16 {
    signed_magnitude(be_u16_value(s[2 * i], s[2 * i + 1])) as i16
}

/// A run of `n` elevation samples.  Where the bytes run out, the sample
/// that is cut short starts after an even number of bytes.
pub open spec fn samples_field(n: nat, s: Seq<u8>) -> Decoded<Seq<i16>> {
    if 2 * n <= s.len() {
        Ok((s.skip(2 * n as int), Seq::new(n, |i: int| sample_at(s, i))))
    } else {
        Err(Failure { kind: DecodeErrorKind::Eof, remaining: s.len() % 2 })
    }
}

/// The User Header Label.
pub open spec fn uhl_block(s: Seq<u8>) -> Decoded<RawDTEDHeader> {
    let sentinel = tag_field(RecognitionSentinel::UHL.bytes(), s);
    let lon_origin = angle_field(3, 2, 2, rest(sentinel));
    let lat_origin = angle_field(3, 2, 2, rest(lon_origin));
    let lon_interval = uint_field::<u32>(4, rest(lat_origin));
    let lat_interval = uint_field::<u32>(4, rest(lon_interval));
    let accuracy = nan_field::<u32>(4, rest(lat_interval));
    let reserved_a = bytes_field(15, rest(accuracy));
    let lon_count = uint_field::<u32>(4, rest(reserved_a));
    let lat_count = uint_field::<u32>(4, rest(lon_count));
    let reserved_b = bytes_field(25, rest(lat_count));
    if sentinel is Err {
        failure(sentinel)
    } else if lon_origin is Err {
        failure(lon_origin)
    } else if lat_origin is Err {
        failure(lat_origin)
    } else if lon_interval is Err {
        failure(lon_interval)
    } else if lat_interval is Err {
        failure(lat_interval)
    } else if accuracy is Err {
        failure(accuracy)
    } else if reserved_a is Err {
        failure(reserved_a)
    } else if lon_count is Err {
        failure(lon_count)
    } else if lat_count is Err {
        failure(lat_count)
    } else if reserved_b is Err {
        failure(reserved_b)
    } else {
        Ok(
            (
                rest(reserved_b),
                RawDTEDHeader {
                    origin: AxisElement { lat: value(lat_origin), lon: value(lon_origin) },
                    interval_secs_x_10: AxisElement {
                        lat: value(lat_interval),
                        lon: value(lon_interval),
                    },
                    accuracy: value(accuracy),
                    count: AxisElement { lat: value(lat_count), lon: value(lon_count) },
                },
            ),
        )
    }
}

/// The block counter of a record, from its high byte and its low 16 bits.
pub open spec fn block_count(high: u8, low: u16) -> u32 {
    (high * 0x10000 + low) as u32
}

/// One data record with `line_len` elevation samples.  The four bytes of
/// the checksum are read and not looked at.
pub open spec fn data_record(line_len: nat, s: Seq<u8>) -> Decoded<RecordView> {
    let sentinel = tag_field(RecognitionSentinel::DATA.bytes(), s);
    let high = bytes_field(1, rest(sentinel));
    let low = be_u16_field(rest(high));
    let lon_count = be_u16_field(rest(low));
    let lat_count = be_u16_field(rest(lon_count));
    let elevations = samples_field(line_len, rest(lat_count));
    let checksum = bytes_field(4, rest(elevations));
    if sentinel is Err {
        failure(sentinel)
    } else if high is Err {
        failure(high)
    } else if low is Err {
        failure(low)
    } else if lon_count is Err {
        failure(lon_count)
    } else if lat_count is Err {
        failure(lat_count)
    } else if elevations is Err {
        failure(elevations)
    } else if checksum is Err {
        failure(checksum)
    } else {
        Ok(
            (
                rest(checksum),
                RecordView {
                    blk_count: block_count(value(high)[0], value(low)),
                    lon_count: value(lon_count),
                    lat_count: value(lat_count),
                    elevations: value(elevations),
                },
            ),
        )
    }
}

/// A run of `n` data records, each with `line_len` elevation samples: the
/// first `n - 1` of them, then one more.
pub open spec fn data_records(n: nat, line_len: nat, s: Seq<u8>) -> Decoded<Seq<RecordView>>
    decreases n,
{
    if n == 0 {
        Ok((s, Seq::empty()))
    } else {
        let before = data_records((n - 1) as nat, line_len, s);
        let last = data_record(line_len, rest(before));
        if before is Err {
            failure(before)
        } else if last is Err {
            failure(last)
        } else {
            Ok((rest(last), value(before).push(value(last))))
        }
    }
}

/// A whole file: the header, the two auxiliary blocks, which are skipped,
/// and as many records as the header counts lines of longitude, each with
/// as many samples as it counts points of latitude.
pub open spec fn dted_file(s: Seq<u8>) -> Decoded<FileView> {
    let header = uhl_block(s);
    let dsi = bytes_field(DT2_DSI_RECORD_LENGTH as nat, rest(header));
    let acc = bytes_field(DT2_ACC_RECORD_LENGTH as nat, rest(dsi));
    let data = data_records(
        value(header).count.lon as nat,
        value(header).count.lat as nat,
        rest(acc),
    );
    if header is Err {
        failure(header)
    } else if dsi is Err {
        failure(dsi)
    } else if acc is Err {
        failure(acc)
    } else if data is Err {
        failure(data)
    } else {
        Ok(
            (
                rest(data),
                FileView {
                    header: value(header),
                    data: value(data),
                    dsi_record: None,
                    acc_record: None,
                },
            ),
        )
    }
}

} // verus!
