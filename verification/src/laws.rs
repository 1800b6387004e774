//! What holds of the grammar for every input.
use crate::dted::{RawDTEDFile, RecognitionSentinel, DT2_ACC_RECORD_LENGTH, DT2_DSI_RECORD_LENGTH};
use crate::error::{DecodeError, Failure};
use crate::grammar::{
    all_digits, angle_field, be_u16_field, be_u16_value, block_count, bytes_field, data_record,
    data_records, decimal_value, dted_file, hemisphere, hemisphere_field, is_not_available,
    nan_field,
    outcome_view, rest, sample_at, samples_field, signed_mag_field, signed_magnitude,
    signed_magnitude_pattern, tag_field, uhl_block, uint_field, uint_field_or, value, within,
    Decoded,
};
use crate::numeric::FieldInt;
use vstd::prelude::*;

verus! {

/// A number does not shrink when a digit is written after it: the number
/// that the first `k` digits spell is at most the number that all spell.
pub proof fn lemma_decimal_value_of_prefix(s: Seq<u8>, k: int)
    requires
        0 <= k <= s.len(),
    ensures
        decimal_value(s.take(k)) <= decimal_value(s),
    decreases s.len(),
{
    if k == s.len() {
        assert(s.take(k) == s);
    } else {
        assert(s.drop_last().take(k) == s.take(k));
        lemma_decimal_value_of_prefix(s.drop_last(), k);
    }
}

/// A field of `n` digits decodes to the number that the digits spell and
/// leaves the bytes after them, whenever the number is at most `u32::MAX`
/// and the target type `U` can hold it.
pub proof fn lemma_uint_field_of_digits<U: FieldInt>(n: nat, s: Seq<u8>)
    requires
        n <= s.len(),
        all_digits(s.take(n as int)),
        decimal_value(s.take(n as int)) <= u32::MAX,
        decimal_value(s.take(n as int)) <= U::limit(),
    ensures
        uint_field::<U>(n, s) is Ok,
        rest(uint_field::<U>(n, s)) == s.skip(n as int),
        value(uint_field::<U>(n, s)).value() == decimal_value(s.take(n as int)),
{
    U::narrow_is_exact(decimal_value(s.take(n as int)) as u32);
}

/// A decimal field fails exactly where it is cut short, holds a byte that
/// is no digit, or spells a number that is too large.
pub proof fn lemma_uint_field_fails<U: FieldInt>(n: nat, s: Seq<u8>)
    ensures
        uint_field::<U>(n, s) is Err <==> s.len() < n || !all_digits(s.take(n as int))
            || decimal_value(s.take(n as int)) > u32::MAX || decimal_value(s.take(n as int))
            > U::limit(),
{
    if n <= s.len() && all_digits(s.take(n as int)) && decimal_value(s.take(n as int))
        <= u32::MAX {
        U::narrow_is_exact(decimal_value(s.take(n as int)) as u32);
    }
}

/// Ten to the power `n`.
pub open spec fn pow10(n: nat) -> nat
    decreases n,
{
    if n == 0 {
        1
    } else {
        10 * pow10((n - 1) as nat)
    }
}

/// What `n` digits spell is below ten to the power `n`.
pub proof fn lemma_decimal_value_bound(s: Seq<u8>)
    ensures
        decimal_value(s) < pow10(s.len()),
    decreases s.len(),
{
    if s.len() > 0 {
        lemma_decimal_value_bound(s.drop_last());
    }
}

/// A decimal field of `n` digits that decodes reads `n` bytes and holds a
/// number below ten to the power `n`.
pub proof fn lemma_uint_field_bound<U: FieldInt>(n: nat, s: Seq<u8>)
    requires
        uint_field::<U>(n, s) is Ok,
    ensures
        rest(uint_field::<U>(n, s)) == s.skip(n as int),
        value(uint_field::<U>(n, s)).value() < pow10(n),
{
    lemma_decimal_value_bound(s.take(n as int));
    U::narrow_is_exact(decimal_value(s.take(n as int)) as u32);
}

/// A field of width zero reads nothing and stands for the default,
/// whatever the default and whatever bytes are left.
pub proof fn lemma_zero_width_is_default<U: FieldInt>(default: U, s: Seq<u8>)
    ensures
        uint_field_or::<U>(0, default, s) == Ok::<(Seq<u8>, U), Failure>((s, default)),
{
}

/// Every pattern stands for a number between -32767 and 32767, and every
/// pattern but negative zero is the canonical pattern of its number.
/// Negative zero, `0x8000`, stands for zero, whose canonical pattern is
/// `0x0000`.
pub proof fn lemma_signed_magnitude_round_trip(x: u16)
    ensures
        -32767 <= signed_magnitude(x) <= 32767,
        x != 0x8000 ==> signed_magnitude_pattern(signed_magnitude(x)) == x,
        x == 0x8000 ==> signed_magnitude(x) == 0,
        signed_magnitude_pattern(0) == 0x0000,
{
}

/// Every number between -32767 and 32767 is what its canonical pattern
/// stands for.
pub proof fn lemma_signed_magnitude_of_pattern(v: int)
    requires
        -32767 <= v <= 32767,
    ensures
        signed_magnitude(signed_magnitude_pattern(v)) == v,
{
}

/// A field that begins with the "not available" sentinel decodes to no
/// value and is read to its full width, whatever bytes follow the sentinel.
pub proof fn lemma_nan_field_sentinel_first<U: FieldInt>(count: nat, s: Seq<u8>)
    requires
        RecognitionSentinel::NA.bytes().is_prefix_of(s),
        RecognitionSentinel::NA.bytes().len() <= count <= s.len(),
    ensures
        nan_field::<U>(count, s) == Ok::<(Seq<u8>, Option<U>), Failure>(
            (s.skip(count as int), None),
        ),
{
    let width = RecognitionSentinel::NA.bytes().len();
    assert(s.skip(width as int).skip(count - width) == s.skip(count as int));
}

/// A field of digits decodes to the number that the digits spell, as a
/// value that is present, whenever the number is small enough to decode.
pub proof fn lemma_nan_field_of_digits<U: FieldInt>(count: nat, s: Seq<u8>)
    requires
        count <= s.len(),
        all_digits(s.take(count as int)),
        decimal_value(s.take(count as int)) <= u32::MAX,
        decimal_value(s.take(count as int)) <= U::limit(),
    ensures
        nan_field::<U>(count, s) is Ok,
        rest(nan_field::<U>(count, s)) == s.skip(count as int),
        value(nan_field::<U>(count, s)) is Some,
        value(nan_field::<U>(count, s))->0.value() == decimal_value(s.take(count as int)),
{
    lemma_uint_field_of_digits::<U>(count, s);
    if RecognitionSentinel::NA.bytes().len() <= count {
        assert(s.take(count as int)[0] == s[0]);
        assert(!RecognitionSentinel::NA.bytes().is_prefix_of(s)) by {
            if RecognitionSentinel::NA.bytes().is_prefix_of(s) {
                assert(RecognitionSentinel::NA.bytes()[0] == s[0]);
            }
        }
    }
}

/// An angle that decodes reads its three fields and at most one byte more,
/// and each of its parts is below ten to the power of the field's width.
pub proof fn lemma_angle_field_bound(num_deg: nat, num_min: nat, num_sec: nat, s: Seq<u8>)
    requires
        angle_field(num_deg, num_min, num_sec, s) is Ok,
    ensures
        ({
            let width = num_deg + num_min + num_sec;
            let after = rest(angle_field(num_deg, num_min, num_sec, s));
            let angle = value(angle_field(num_deg, num_min, num_sec, s));
            &&& angle.deg < pow10(num_deg)
            &&& angle.min < pow10(num_min)
            &&& angle.sec < pow10(num_sec)
            &&& after == s.skip(width as int) || after == s.skip(width as int + 1)
            &&& width <= s.len() - after.len() <= width + 1
        }),
{
    let deg = uint_field_or::<u16>(num_deg, 0, s);
    let min = uint_field_or::<u8>(num_min, 0, rest(deg));
    let sec = uint_field_or::<u32>(num_sec, 0, rest(min));
    if num_deg > 0 {
        lemma_uint_field_bound::<u16>(num_deg, s);
    }
    if num_min > 0 {
        lemma_uint_field_bound::<u8>(num_min, rest(deg));
    }
    if num_sec > 0 {
        lemma_uint_field_bound::<u32>(num_sec, rest(min));
    }
    assert(rest(deg) == s.skip(num_deg as int));
    assert(rest(min) == s.skip((num_deg + num_min) as int));
    assert(rest(sec) == s.skip((num_deg + num_min + num_sec) as int));
    if rest(sec).len() >= 1 {
        assert(rest(sec).skip(1) == s.skip((num_deg + num_min + num_sec) as int + 1));
    }
}

/// A header that decodes is 78 to 80 bytes long, two of them the
/// hemisphere letters that may be left out, and every number in it is
/// within what its digits can spell.
pub proof fn lemma_uhl_block_ranges(s: Seq<u8>)
    requires
        uhl_block(s) is Ok,
    ensures
        ({
            let header = value(uhl_block(s));
            &&& 78 <= s.len() - rest(uhl_block(s)).len() <= 80
            &&& header.origin.lon.deg <= 999 && header.origin.lon.min <= 99
                && header.origin.lon.sec <= 99
            &&& header.origin.lat.deg <= 999 && header.origin.lat.min <= 99
                && header.origin.lat.sec <= 99
            &&& header.interval_secs_x_10.lon <= 9999 && header.interval_secs_x_10.lat <= 9999
            &&& header.accuracy matches Some(a) ==> a <= 9999
            &&& header.count.lon <= 9999 && header.count.lat <= 9999
        }),
{
    reveal_with_fuel(pow10, 5);
    let sentinel = tag_field(RecognitionSentinel::UHL.bytes(), s);
    let lon_origin = angle_field(3, 2, 2, rest(sentinel));
    let lat_origin = angle_field(3, 2, 2, rest(lon_origin));
    let lon_interval = uint_field::<u32>(4, rest(lat_origin));
    let lat_interval = uint_field::<u32>(4, rest(lon_interval));
    let accuracy = nan_field::<u32>(4, rest(lat_interval));
    let reserved_a = bytes_field(15, rest(accuracy));
    let lon_count = uint_field::<u32>(4, rest(reserved_a));
    assert(RecognitionSentinel::UHL.bytes().len() == 4);
    lemma_angle_field_bound(3, 2, 2, rest(sentinel));
    lemma_angle_field_bound(3, 2, 2, rest(lon_origin));
    lemma_uint_field_bound::<u32>(4, rest(lat_origin));
    lemma_uint_field_bound::<u32>(4, rest(lon_interval));
    if !is_not_available(4, rest(lat_interval)) {
        lemma_uint_field_bound::<u32>(4, rest(lat_interval));
    }
    lemma_uint_field_bound::<u32>(4, rest(reserved_a));
    lemma_uint_field_bound::<u32>(4, rest(lon_count));
}

/// A decimal field of `n` digits that decodes at offset `k` of a sequence
/// holds the number that the bytes from `k` to `k + n` spell, and leaves
/// the bytes from `k + n` on.
pub proof fn lemma_uint_field_at<U: FieldInt>(n: nat, s: Seq<u8>, k: int)
    requires
        0 <= k <= s.len(),
        uint_field::<U>(n, s.skip(k)) is Ok,
    ensures
        k + n <= s.len(),
        all_digits(s.subrange(k, k + n)),
        rest(uint_field::<U>(n, s.skip(k))) == s.skip(k + n),
        value(uint_field::<U>(n, s.skip(k))).value() == decimal_value(
            s.subrange(k, k + n),
        ),
{
    let field = s.skip(k).take(n as int);
    assert(field == s.subrange(k, k + n));
    assert(s.skip(k).skip(n as int) == s.skip(k + n));
    U::narrow_is_exact(decimal_value(field) as u32);
}

/// The layout of an angle that decodes at offset `k` of a sequence: its
/// three numbers lie one after the other, and the byte after them is read
/// exactly where it is a hemisphere letter.
pub proof fn lemma_angle_field_at(num_deg: nat, num_min: nat, num_sec: nat, s: Seq<u8>, k: int)
    requires
        0 <= k <= s.len(),
        angle_field(num_deg, num_min, num_sec, s.skip(k)) is Ok,
    ensures
        ({
            let angle = value(angle_field(num_deg, num_min, num_sec, s.skip(k)));
            let after = rest(angle_field(num_deg, num_min, num_sec, s.skip(k)));
            let m = k + num_deg;
            let c = m + num_min;
            let e = c + num_sec;
            &&& e <= s.len()
            &&& angle.deg == decimal_value(s.subrange(k, m))
            &&& angle.min == decimal_value(s.subrange(m, c))
            &&& angle.sec == decimal_value(s.subrange(c, e))
            &&& if e < s.len() && hemisphere(s[e]) is Some {
                angle.negative == hemisphere(s[e])->0 && after == s.skip(e + 1)
            } else {
                !angle.negative && after == s.skip(e)
            }
        }),
{
    let m = k + num_deg;
    let c = m + num_min;
    let e = c + num_sec;
    let deg = uint_field_or::<u16>(num_deg, 0, s.skip(k));
    if num_deg > 0 {
        lemma_uint_field_at::<u16>(num_deg, s, k);
    } else {
        assert(s.subrange(k, m).len() == 0);
    }
    assert(rest(deg) == s.skip(m));
    let min = uint_field_or::<u8>(num_min, 0, s.skip(m));
    if num_min > 0 {
        lemma_uint_field_at::<u8>(num_min, s, m);
    } else {
        assert(s.subrange(m, c).len() == 0);
    }
    assert(rest(min) == s.skip(c));
    let sec = uint_field_or::<u32>(num_sec, 0, s.skip(c));
    if num_sec > 0 {
        lemma_uint_field_at::<u32>(num_sec, s, c);
    } else {
        assert(s.subrange(c, e).len() == 0);
    }
    assert(rest(sec) == s.skip(e));
    if e < s.len() {
        assert(s.skip(e)[0] == s[e]);
        assert(s.skip(e).skip(1) == s.skip(e + 1));
    }
}

/// The layout of a field that may be not available and that decodes at
/// offset `k` of a sequence.
pub proof fn lemma_nan_field_at<U: FieldInt>(count: nat, s: Seq<u8>, k: int)
    requires
        0 <= k <= s.len(),
        RecognitionSentinel::NA.bytes().len() <= count,
        nan_field::<U>(count, s.skip(k)) is Ok,
    ensures
        k + count <= s.len(),
        rest(nan_field::<U>(count, s.skip(k))) == s.skip(k + count),
        s.subrange(k, k + 2) == RecognitionSentinel::NA.bytes() ==> value(
            nan_field::<U>(count, s.skip(k)),
        ) is None,
        s.subrange(k, k + 2) != RecognitionSentinel::NA.bytes() ==> {
            let number = value(nan_field::<U>(count, s.skip(k)));
            number is Some && number->0.value() == decimal_value(s.subrange(k, k + count))
        },
{
    let na = RecognitionSentinel::NA.bytes();
    let tail = s.skip(k);
    assert(na.len() == 2);
    if is_not_available(count, tail) {
        assert(tail.subrange(0, 2) == s.subrange(k, k + 2));
        assert(tail.skip(2).skip(count - 2) == s.skip(k + count));
    } else {
        lemma_uint_field_at::<U>(count, s, k);
        if s.subrange(k, k + 2) == na {
            assert(tail.subrange(0, 2) == s.subrange(k, k + 2));
        }
    }
}

/// The layout of a header whose two origin angles carry their hemisphere
/// letter: it is 80 bytes long and every field lies at a fixed offset.
pub proof fn lemma_uhl_block_layout(s: Seq<u8>)
    requires
        uhl_block(s) is Ok,
        hemisphere(s[11]) is Some,
        hemisphere(s[19]) is Some,
    ensures
        ({
            let header = value(uhl_block(s));
            &&& 80 <= s.len()
            &&& rest(uhl_block(s)) == s.skip(80)
            &&& s.subrange(0, 4) == RecognitionSentinel::UHL.bytes()
            &&& header.origin.lon.deg == decimal_value(s.subrange(4, 7))
            &&& header.origin.lon.min == decimal_value(s.subrange(7, 9))
            &&& header.origin.lon.sec == decimal_value(s.subrange(9, 11))
            &&& header.origin.lon.negative == hemisphere(s[11])->0
            &&& header.origin.lat.deg == decimal_value(s.subrange(12, 15))
            &&& header.origin.lat.min == decimal_value(s.subrange(15, 17))
            &&& header.origin.lat.sec == decimal_value(s.subrange(17, 19))
            &&& header.origin.lat.negative == hemisphere(s[19])->0
            &&& header.interval_secs_x_10.lon == decimal_value(s.subrange(20, 24))
            &&& header.interval_secs_x_10.lat == decimal_value(s.subrange(24, 28))
            &&& s.subrange(28, 30) == RecognitionSentinel::NA.bytes() ==> header.accuracy is None
            &&& s.subrange(28, 30) != RecognitionSentinel::NA.bytes() ==> header.accuracy
                == Some(decimal_value(s.subrange(28, 32)) as u32)
            &&& header.count.lon == decimal_value(s.subrange(47, 51))
            &&& header.count.lat == decimal_value(s.subrange(51, 55))
        }),
{
    assert(RecognitionSentinel::UHL.bytes().len() == 4);
    assert(RecognitionSentinel::NA.bytes().len() == 2);
    lemma_angle_field_at(3, 2, 2, s, 4);
    lemma_angle_field_bound(3, 2, 2, s.skip(4));
    lemma_angle_field_at(3, 2, 2, s, 12);
    lemma_angle_field_bound(3, 2, 2, s.skip(12));
    lemma_uint_field_at::<u32>(4, s, 20);
    lemma_uint_field_at::<u32>(4, s, 24);
    lemma_nan_field_at::<u32>(4, s, 28);
    assert(s.skip(32).skip(15) == s.skip(47));
    lemma_uint_field_at::<u32>(4, s, 47);
    lemma_uint_field_at::<u32>(4, s, 51);
    assert(s.skip(55).skip(25) == s.skip(80));
}

/// The layout of a data record: it decodes exactly where the first byte is
/// the sentinel and `12 + 2 * line_len` bytes are there, and then every
/// field lies at a fixed offset.  A record that is cut short fails.
pub proof fn lemma_data_record_layout(line_len: nat, s: Seq<u8>)
    ensures
        data_record(line_len, s) is Ok <==> 12 + 2 * line_len <= s.len() && s[0] == 0xAA,
        data_record(line_len, s) is Ok ==> {
            let record = value(data_record(line_len, s));
            &&& rest(data_record(line_len, s)) == s.skip(12 + 2 * line_len as int)
            &&& record.blk_count == block_count(s[1], be_u16_value(s[2], s[3]))
            &&& record.lon_count == be_u16_value(s[4], s[5])
            &&& record.lat_count == be_u16_value(s[6], s[7])
            &&& record.well_formed()
            &&& record.elevations.len() == line_len
            &&& forall|i: int|
                0 <= i < line_len ==> #[trigger] record.elevations[i] == signed_magnitude(
                    be_u16_value(s[8 + 2 * i], s[9 + 2 * i]),
                )
        },
{
    let sentinel = RecognitionSentinel::DATA.bytes();
    assert(sentinel.len() == 1 && sentinel[0] == 0xAA);
    if sentinel.is_prefix_of(s) {
        assert(s[0] == sentinel[0]);
    }
    if 1 <= s.len() && s[0] == 0xAA {
        assert(sentinel =~= s.subrange(0, 1));
    }
    if data_record(line_len, s) is Ok {
        let s1 = s.skip(1);
        let s2 = s1.skip(1);
        let s3 = s2.skip(2);
        let s4 = s3.skip(2);
        let s5 = s4.skip(2);
        let s6 = s5.skip(2 * line_len as int);
        assert(s6.skip(4) == s.skip(12 + 2 * line_len as int));
        assert(s1.take(1)[0] == s[1]);
        let record = value(data_record(line_len, s));
        assert forall|i: int| 0 <= i < line_len implies #[trigger] record.elevations[i]
            == signed_magnitude(be_u16_value(s[8 + 2 * i], s[9 + 2 * i])) by {
            assert(record.elevations[i] == sample_at(s5, i));
            assert(s5[2 * i] == s[8 + 2 * i]);
            assert(s5[2 * i + 1] == s[9 + 2 * i]);
            lemma_signed_magnitude_round_trip(be_u16_value(s[8 + 2 * i], s[9 + 2 * i]));
        }
    }
}

/// Once a record of a run fails, the run fails in the same way however
/// many records are asked for after it.
pub proof fn lemma_data_records_failure(k: nat, n: nat, line_len: nat, s: Seq<u8>)
    requires
        k <= n,
        data_records(k, line_len, s) is Err,
    ensures
        data_records(n, line_len, s) == data_records(k, line_len, s),
    decreases n,
{
    if k < n {
        lemma_data_records_failure(k, (n - 1) as nat, line_len, s);
    }
}

/// A run of records that decodes holds as many records as were asked for,
/// each of them well formed and with as many samples as were asked for.
pub proof fn lemma_data_records_dimensions(n: nat, line_len: nat, s: Seq<u8>)
    requires
        data_records(n, line_len, s) is Ok,
    ensures
        value(data_records(n, line_len, s)).len() == n,
        forall|i: int|
            0 <= i < n ==> {
                &&& (#[trigger] value(data_records(n, line_len, s))[i]).well_formed()
                &&& value(data_records(n, line_len, s))[i].elevations.len() == line_len
            },
    decreases n,
{
    if n > 0 {
        lemma_data_records_dimensions((n - 1) as nat, line_len, s);
    }
}

/// A run of `n` records that decodes reads `12 + 2 * line_len` bytes for
/// each record, so a run that is cut short fails.
pub proof fn lemma_data_records_length(n: nat, line_len: nat, s: Seq<u8>)
    requires
        data_records(n, line_len, s) is Ok,
    ensures
        n * (12 + 2 * line_len) <= s.len(),
        rest(data_records(n, line_len, s)) == s.skip((n * (12 + 2 * line_len)) as int),
    decreases n,
{
    let each = 12 + 2 * line_len;
    if n == 0 {
        assert(n * each == 0) by (nonlinear_arith)
            requires
                n == 0,
        ;
        assert(s.skip(0) == s);
    } else {
        let before = data_records((n - 1) as nat, line_len, s);
        lemma_data_records_length((n - 1) as nat, line_len, s);
        lemma_data_record_layout(line_len, rest(before));
        assert(n * each == (n - 1) * each + each) by (nonlinear_arith);
        assert(s.skip(((n - 1) * each) as int).skip(each as int) == s.skip((n * each) as int));
    }
}

/// A file that decodes is as long as its header says: the header, the two
/// auxiliary blocks, and `12 + 2 * lat` bytes for each of the `lon` records.
/// A buffer that is shorter does not decode.
pub proof fn lemma_file_length(s: Seq<u8>)
    requires
        dted_file(s) is Ok,
    ensures
        ({
            let count = value(dted_file(s)).header.count;
            let read = s.len() - rest(dted_file(s)).len();
            let body = DT2_DSI_RECORD_LENGTH + DT2_ACC_RECORD_LENGTH + count.lon * (12 + 2
                * count.lat);
            78 + body <= read <= 80 + body
        }),
{
    let header = uhl_block(s);
    let dsi = bytes_field(DT2_DSI_RECORD_LENGTH as nat, rest(header));
    let acc = bytes_field(DT2_ACC_RECORD_LENGTH as nat, rest(dsi));
    lemma_uhl_block_ranges(s);
    lemma_data_records_length(
        value(header).count.lon as nat,
        value(header).count.lat as nat,
        rest(acc),
    );
}

/// A file that decodes is well formed, and its two auxiliary records are
/// empty.
pub proof fn lemma_file_well_formed(s: Seq<u8>)
    requires
        dted_file(s) is Ok,
    ensures
        value(dted_file(s)).well_formed(),
        value(dted_file(s)).dsi_record is None,
        value(dted_file(s)).acc_record is None,
{
    let header = uhl_block(s);
    let dsi = bytes_field(DT2_DSI_RECORD_LENGTH as nat, rest(header));
    let acc = bytes_field(DT2_ACC_RECORD_LENGTH as nat, rest(dsi));
    lemma_data_records_dimensions(
        value(header).count.lon as nat,
        value(header).count.lat as nat,
        rest(acc),
    );
}

/// An outcome within the tail that an earlier field left lies within the
/// input of that field.
pub proof fn lemma_within_tail<T, U>(s: Seq<u8>, first: Decoded<T>, second: Decoded<U>)
    requires
        first is Ok,
        within(first, s),
        within(second, rest(first)),
    ensures
        within(second, s),
{
    if second is Ok {
        let a = s.len() - rest(first).len();
        let b = rest(first).len() - rest(second).len();
        assert(s.skip(a).skip(b) == s.skip(a + b));
    }
}

/// A decimal field reads from the front of its input.
pub proof fn lemma_uint_field_within<U: FieldInt>(count: nat, s: Seq<u8>)
    ensures
        within(uint_field::<U>(count, s), s),
{
}

/// A decimal field that may be absent reads from the front of its input.
pub proof fn lemma_uint_field_or_within<U: FieldInt>(count: nat, default: U, s: Seq<u8>)
    ensures
        within(uint_field_or::<U>(count, default, s), s),
{
    assert(s.skip(0) == s);
}

/// An elevation sample reads from the front of its input.
pub proof fn lemma_signed_mag_field_within(s: Seq<u8>)
    ensures
        within(signed_mag_field(s), s),
{
}

/// A field that may be not available reads from the front of its input.
pub proof fn lemma_nan_field_within<U: FieldInt>(count: nat, s: Seq<u8>)
    ensures
        within(nan_field::<U>(count, s), s),
{
    if is_not_available(count, s) {
        let width = RecognitionSentinel::NA.bytes().len();
        if (count - width) as nat <= s.skip(width as int).len() {
            assert(s.skip(width as int).skip(count - width) == s.skip(count as int));
        }
    }
}

/// An angle reads from the front of its input.
pub proof fn lemma_angle_field_within(num_deg: nat, num_min: nat, num_sec: nat, s: Seq<u8>)
    ensures
        within(angle_field(num_deg, num_min, num_sec, s), s),
{
    let deg = uint_field_or::<u16>(num_deg, 0, s);
    let min = uint_field_or::<u8>(num_min, 0, rest(deg));
    let sec = uint_field_or::<u32>(num_sec, 0, rest(min));
    let sign = hemisphere_field(rest(sec));
    assert(s.skip(0) == s);
    assert(within(deg, s));
    if deg is Ok {
        assert(rest(deg).skip(0) == rest(deg));
        assert(within(min, rest(deg)));
        lemma_within_tail(s, deg, min);
        if min is Ok {
            assert(rest(min).skip(0) == rest(min));
            assert(within(sec, rest(min)));
            lemma_within_tail(s, min, sec);
            if sec is Ok {
                assert(rest(sec).skip(0) == rest(sec));
                assert(within(sign, rest(sec)));
                lemma_within_tail(s, sec, sign);
            }
        }
    }
}

/// The header reads from the front of its input.
pub proof fn lemma_uhl_block_within(s: Seq<u8>)
    ensures
        within(uhl_block(s), s),
{
    let sentinel = tag_field(RecognitionSentinel::UHL.bytes(), s);
    let lon_origin = angle_field(3, 2, 2, rest(sentinel));
    let lat_origin = angle_field(3, 2, 2, rest(lon_origin));
    let lon_interval = uint_field::<u32>(4, rest(lat_origin));
    let lat_interval = uint_field::<u32>(4, rest(lon_interval));
    let accuracy = nan_field::<u32>(4, rest(lat_interval));
    let reserved_a = bytes_field(15, rest(accuracy));
    let lon_count = uint_field::<u32>(4, rest(reserved_a));
    let lat_count = uint_field::<u32>(4, rest(lon_count));
    let reserved_b = bytes_field(25, rest(lat_count));
    if sentinel is Ok {
        lemma_angle_field_within(3, 2, 2, rest(sentinel));
        lemma_within_tail(s, sentinel, lon_origin);
        if lon_origin is Ok {
            lemma_angle_field_within(3, 2, 2, rest(lon_origin));
            lemma_within_tail(s, lon_origin, lat_origin);
            if lat_origin is Ok {
                lemma_within_tail(s, lat_origin, lon_interval);
                if lon_interval is Ok {
                    lemma_within_tail(s, lon_interval, lat_interval);
                    if lat_interval is Ok {
                        lemma_nan_field_within::<u32>(4, rest(lat_interval));
                        lemma_within_tail(s, lat_interval, accuracy);
                        if accuracy is Ok {
                            lemma_within_tail(s, accuracy, reserved_a);
                            if reserved_a is Ok {
                                lemma_within_tail(s, reserved_a, lon_count);
                                if lon_count is Ok {
                                    lemma_within_tail(s, lon_count, lat_count);
                                    if lat_count is Ok {
                                        lemma_within_tail(s, lat_count, reserved_b);
                                    }
                                }
                            }
                        }
                    }
                }
            }
        }
    }
}

/// A data record reads from the front of its input.
pub proof fn lemma_data_record_within(line_len: nat, s: Seq<u8>)
    ensures
        within(data_record(line_len, s), s),
{
    let sentinel = tag_field(RecognitionSentinel::DATA.bytes(), s);
    let high = bytes_field(1, rest(sentinel));
    let low = be_u16_field(rest(high));
    let lon_count = be_u16_field(rest(low));
    let lat_count = be_u16_field(rest(lon_count));
    let elevations = samples_field(line_len, rest(lat_count));
    let checksum = bytes_field(4, rest(elevations));
    if sentinel is Ok {
        lemma_within_tail(s, sentinel, high);
        if high is Ok {
            lemma_within_tail(s, high, low);
            if low is Ok {
                lemma_within_tail(s, low, lon_count);
                if lon_count is Ok {
                    lemma_within_tail(s, lon_count, lat_count);
                    if lat_count is Ok {
                        lemma_within_tail(s, lat_count, elevations);
                        if elevations is Ok {
                            lemma_within_tail(s, elevations, checksum);
                        }
                    }
                }
            }
        }
    }
}

/// A run of data records reads from the front of its input.
pub proof fn lemma_data_records_within(n: nat, line_len: nat, s: Seq<u8>)
    ensures
        within(data_records(n, line_len, s), s),
    decreases n,
{
    if n == 0 {
        assert(s.skip(0) == s);
    } else {
        let before = data_records((n - 1) as nat, line_len, s);
        lemma_data_records_within((n - 1) as nat, line_len, s);
        if before is Ok {
            lemma_data_record_within(line_len, rest(before));
            lemma_within_tail(s, before, data_record(line_len, rest(before)));
        }
    }
}

/// The file decoder reads from the front of its input: what it leaves is a
/// tail of the input, and where it fails, the failing field starts inside
/// the input.
pub proof fn lemma_dted_file_within(s: Seq<u8>)
    ensures
        within(dted_file(s), s),
{
    let header = uhl_block(s);
    let dsi = bytes_field(DT2_DSI_RECORD_LENGTH as nat, rest(header));
    let acc = bytes_field(DT2_ACC_RECORD_LENGTH as nat, rest(dsi));
    let data = data_records(
        value(header).count.lon as nat,
        value(header).count.lat as nat,
        rest(acc),
    );
    lemma_uhl_block_within(s);
    if header is Ok {
        lemma_within_tail(s, header, dsi);
        if dsi is Ok {
            lemma_within_tail(s, dsi, acc);
            if acc is Ok {
                lemma_data_records_within(
                    value(header).count.lon as nat,
                    value(header).count.lat as nat,
                    rest(acc),
                );
                lemma_within_tail(s, acc, data);
            }
        }
    }
}

/// Decoding depends on the bytes alone: whatever two runs of the file
/// decoder return for buffers that hold the same bytes, they agree in the
/// bytes that are left and in every part of the file, or in the failure.
pub proof fn lemma_decoding_is_deterministic(
    a: &[u8],
    b: &[u8],
    first: Result<(&[u8], RawDTEDFile), DecodeError>,
    second: Result<(&[u8], RawDTEDFile), DecodeError>,
)
    requires
        a@ == b@,
        outcome_view(first) == dted_file(a@),
        outcome_view(second) == dted_file(b@),
    ensures
        outcome_view(first) == outcome_view(second),
        first is Ok <==> second is Ok,
        first matches Err(e) ==> second == Err::<(&[u8], RawDTEDFile), DecodeError>(e),
{
}

} // verus!
