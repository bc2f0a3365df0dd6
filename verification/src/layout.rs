//! Byte-level model of the icon container and the verified assembler.
//!
//! The container is a 6-byte header (reserved field, format type, entry
//! count, all little-endian u16), then one 16-byte directory record per
//! entry, then every compressed payload back to back.  Record `i` stores
//! the payload's length and its absolute offset inside the buffer.

use vstd::prelude::*;
use vstd::bytes::spec_u16_to_le_bytes;
use vstd::bytes::spec_u32_to_le_bytes;
use vstd::bytes::lemma_auto_spec_u16_to_from_le_bytes;
use vstd::bytes::lemma_auto_spec_u32_to_from_le_bytes;
use vstd::bytes::u16_to_le_bytes;
use vstd::bytes::u32_to_le_bytes;
use crate::error::IcoError;

verus! {

broadcast use vstd::seq::group_seq_axioms;

/// Largest entry count the header's 2-byte count field can hold.
pub const MAX_ENTRIES: usize = 65535;

/// The width/height byte of a directory record: the format stores the
/// edge length in one byte, with 0 standing for 256.  Sizes above 256
/// are clamped to the same sentinel, a quirk of the format kept as-is.
pub open spec fn size_byte(size: u32) -> u8 {
    if size >= 256 {
        0u8
    } else {
        size as u8
    }
}

/// The 6-byte header: reserved = 0, format type = 1, entry count.
pub open spec fn header_bytes(count: u16) -> Seq<u8> {
    spec_u16_to_le_bytes(0u16) + spec_u16_to_le_bytes(1u16) + spec_u16_to_le_bytes(count)
}

/// One 16-byte directory record: width byte, height byte, color count 0,
/// reserved 0, plane count 0, bit count 0 (both conventional for
/// compressed payloads), payload length, absolute payload offset.
pub open spec fn entry_bytes(size: u32, payload_len: u32, offset: u32) -> Seq<u8> {
    seq![size_byte(size), size_byte(size), 0u8, 0u8] + spec_u16_to_le_bytes(0u16)
        + spec_u16_to_le_bytes(0u16) + spec_u32_to_le_bytes(payload_len)
        + spec_u32_to_le_bytes(offset)
}

/// Total length of the header plus `count` directory records.
pub open spec fn directory_len(count: nat) -> nat {
    (6 + 16 * count) as nat
}

/// Sum of the payload lengths.
pub open spec fn sum_lens(payloads: Seq<Seq<u8>>) -> nat
    decreases payloads.len(),
{
    if payloads.len() == 0 {
        0
    } else {
        (payloads.first().len() + sum_lens(payloads.drop_first())) as nat
    }
}

/// The directory records for `sizes` and `payloads`, with the first
/// payload placed at absolute offset `base`.
pub open spec fn directory_bytes(sizes: Seq<u32>, payloads: Seq<Seq<u8>>, base: int) -> Seq<u8>
    decreases sizes.len(),
{
    if sizes.len() == 0 {
        Seq::empty()
    } else {
        entry_bytes(sizes.first(), payloads.first().len() as u32, base as u32)
            + directory_bytes(
            sizes.drop_first(),
            payloads.drop_first(),
            base + payloads.first().len(),
        )
    }
}

/// All payloads concatenated in order, with no padding between them.
pub open spec fn concat_bytes(payloads: Seq<Seq<u8>>) -> Seq<u8>
    decreases payloads.len(),
{
    if payloads.len() == 0 {
        Seq::empty()
    } else {
        payloads.first() + concat_bytes(payloads.drop_first())
    }
}

/// The absolute offset of payload `i`: everything before the payload
/// region, plus the payloads that precede it.
pub open spec fn entry_offset(count: nat, payloads: Seq<Seq<u8>>, i: int) -> int {
    directory_len(count) + sum_lens(payloads.take(i)) as int
}

/// The complete container image for the given sizes and payloads.
pub open spec fn ico_bytes(sizes: Seq<u32>, payloads: Seq<Seq<u8>>) -> Seq<u8> {
    header_bytes(sizes.len() as u16) + directory_bytes(
        sizes,
        payloads,
        directory_len(sizes.len()) as int,
    ) + concat_bytes(payloads)
}

/// The assembler's precondition on its inputs: one payload per size, and
/// a total small enough that every offset fits the 4-byte offset field.
pub open spec fn fits_in_container(sizes: Seq<u32>, payloads: Seq<Seq<u8>>) -> bool {
    &&& sizes.len() == payloads.len()
    &&& directory_len(sizes.len()) + sum_lens(payloads) <= u32::MAX
}

pub proof fn lemma_header_len(count: u16)
    ensures
        header_bytes(count).len() == 6,
{
    lemma_auto_spec_u16_to_from_le_bytes();
}

pub proof fn lemma_entry_len(size: u32, payload_len: u32, offset: u32)
    ensures
        entry_bytes(size, payload_len, offset).len() == 16,
{
    lemma_auto_spec_u16_to_from_le_bytes();
    lemma_auto_spec_u32_to_from_le_bytes();
}

/// Appending one payload adds its length to the running total.
pub proof fn lemma_sum_lens_push(payloads: Seq<Seq<u8>>, q: Seq<u8>)
    ensures
        sum_lens(payloads.push(q)) == sum_lens(payloads) + q.len(),
    decreases payloads.len(),
{
    if payloads.len() == 0 {
        assert(payloads.push(q).drop_first() =~= Seq::<Seq<u8>>::empty());
        assert(payloads.push(q).first() == q);
        assert(sum_lens(Seq::<Seq<u8>>::empty()) == 0);
    } else {
        assert(payloads.push(q).first() == payloads.first());
        assert(payloads.push(q).drop_first() =~= payloads.drop_first().push(q));
        lemma_sum_lens_push(payloads.drop_first(), q);
    }
}

/// The running total over a prefix grows by exactly one payload length.
pub proof fn lemma_sum_lens_take_succ(payloads: Seq<Seq<u8>>, i: int)
    requires
        0 <= i < payloads.len(),
    ensures
        sum_lens(payloads.take(i + 1)) == sum_lens(payloads.take(i)) + payloads[i].len(),
{
    assert(payloads.take(i + 1) =~= payloads.take(i).push(payloads[i]));
    lemma_sum_lens_push(payloads.take(i), payloads[i]);
}

/// A prefix of the payload list never sums to more than the whole list.
pub proof fn lemma_sum_lens_take_le(payloads: Seq<Seq<u8>>, i: int)
    requires
        0 <= i <= payloads.len(),
    ensures
        sum_lens(payloads.take(i)) <= sum_lens(payloads),
    decreases payloads.len() - i,
{
    if i == payloads.len() {
        assert(payloads.take(i) =~= payloads);
    } else {
        lemma_sum_lens_take_succ(payloads, i);
        lemma_sum_lens_take_le(payloads, i + 1);
    }
}

/// Appending one entry to the directory appends its 16 bytes, with the
/// new record's offset sitting past every earlier payload.
pub proof fn lemma_directory_bytes_push(
    sizes: Seq<u32>,
    payloads: Seq<Seq<u8>>,
    base: int,
    s: u32,
    q: Seq<u8>,
)
    requires
        sizes.len() == payloads.len(),
    ensures
        directory_bytes(sizes.push(s), payloads.push(q), base) == directory_bytes(
            sizes,
            payloads,
            base,
        ) + entry_bytes(s, q.len() as u32, (base + sum_lens(payloads)) as u32),
    decreases sizes.len(),
{
    if sizes.len() == 0 {
        assert(sizes.push(s).drop_first() =~= Seq::<u32>::empty());
        assert(payloads.push(q).drop_first() =~= Seq::<Seq<u8>>::empty());
        assert(sizes.push(s).first() == s);
        assert(payloads.push(q).first() == q);
        assert(directory_bytes(sizes.push(s).drop_first(), payloads.push(q).drop_first(), base + q.len())
            == Seq::<u8>::empty());
        assert(directory_bytes(sizes, payloads, base) == Seq::<u8>::empty());
        assert(sum_lens(payloads) == 0);
        assert(Seq::<u8>::empty() + entry_bytes(s, q.len() as u32, base as u32) =~= entry_bytes(
            s,
            q.len() as u32,
            base as u32,
        ));
        assert(entry_bytes(s, q.len() as u32, base as u32) + Seq::<u8>::empty() =~= entry_bytes(
            s,
            q.len() as u32,
            base as u32,
        ));
    } else {
        assert(sizes.push(s).first() == sizes.first());
        assert(payloads.push(q).first() == payloads.first());
        assert(sizes.push(s).drop_first() =~= sizes.drop_first().push(s));
        assert(payloads.push(q).drop_first() =~= payloads.drop_first().push(q));
        lemma_directory_bytes_push(
            sizes.drop_first(),
            payloads.drop_first(),
            base + payloads.first().len(),
            s,
            q,
        );
        assert(sum_lens(payloads) == (payloads.first().len() + sum_lens(
            payloads.drop_first(),
        )) as nat);
        let e0 = entry_bytes(sizes.first(), payloads.first().len() as u32, base as u32);
        let rest = directory_bytes(
            sizes.drop_first(),
            payloads.drop_first(),
            base + payloads.first().len(),
        );
        let e_new = entry_bytes(s, q.len() as u32, (base + sum_lens(payloads)) as u32);
        assert(directory_bytes(sizes.push(s), payloads.push(q), base) == e0 + (rest + e_new));
        assert(directory_bytes(sizes, payloads, base) == e0 + rest);
        assert(e0 + (rest + e_new) =~= (e0 + rest) + e_new);
    }
}

/// Appending one payload to the payload region appends its bytes.
pub proof fn lemma_concat_bytes_push(payloads: Seq<Seq<u8>>, q: Seq<u8>)
    ensures
        concat_bytes(payloads.push(q)) == concat_bytes(payloads) + q,
    decreases payloads.len(),
{
    if payloads.len() == 0 {
        assert(payloads.push(q).first() == q);
        assert(payloads.push(q).drop_first() =~= Seq::<Seq<u8>>::empty());
        assert(concat_bytes(payloads.push(q).drop_first()) == Seq::<u8>::empty());
        assert(concat_bytes(payloads) == Seq::<u8>::empty());
        assert(concat_bytes(payloads.push(q)) =~= concat_bytes(payloads) + q);
    } else {
        assert(payloads.push(q).first() == payloads.first());
        assert(payloads.push(q).drop_first() =~= payloads.drop_first().push(q));
        lemma_concat_bytes_push(payloads.drop_first(), q);
        let p0 = payloads.first();
        let rest = concat_bytes(payloads.drop_first());
        assert(concat_bytes(payloads.push(q)) == p0 + (rest + q));
        assert(concat_bytes(payloads) == p0 + rest);
        assert(p0 + (rest + q) =~= (p0 + rest) + q);
    }
}

/// The directory region holds exactly 16 bytes per entry.
pub proof fn lemma_directory_bytes_len(sizes: Seq<u32>, payloads: Seq<Seq<u8>>, base: int)
    ensures
        directory_bytes(sizes, payloads, base).len() == 16 * sizes.len(),
    decreases sizes.len(),
{
    if sizes.len() != 0 {
        lemma_entry_len(sizes.first(), payloads.first().len() as u32, base as u32);
        lemma_directory_bytes_len(
            sizes.drop_first(),
            payloads.drop_first(),
            base + payloads.first().len(),
        );
    }
}

/// The payload region holds exactly the summed payload lengths.
pub proof fn lemma_concat_bytes_len(payloads: Seq<Seq<u8>>)
    ensures
        concat_bytes(payloads).len() == sum_lens(payloads),
    decreases payloads.len(),
{
    if payloads.len() != 0 {
        lemma_concat_bytes_len(payloads.drop_first());
    }
}

/// Buffer size identity: the container's length is the header, the
/// directory, and the payloads, nothing more and nothing less.
pub proof fn lemma_ico_bytes_len(sizes: Seq<u32>, payloads: Seq<Seq<u8>>)
    ensures
        ico_bytes(sizes, payloads).len() == 6 + 16 * sizes.len() + sum_lens(payloads),
{
    lemma_header_len(sizes.len() as u16);
    lemma_directory_bytes_len(sizes, payloads, directory_len(sizes.len()) as int);
    lemma_concat_bytes_len(payloads);
}

/// The directory region splits at any entry boundary: the records before
/// it, then the rest, whose first offset sits past the earlier payloads.
proof fn lemma_directory_split(sizes: Seq<u32>, payloads: Seq<Seq<u8>>, base: int, i: int)
    requires
        sizes.len() == payloads.len(),
        0 <= i <= sizes.len(),
    ensures
        directory_bytes(sizes, payloads, base) == directory_bytes(
            sizes.take(i),
            payloads.take(i),
            base,
        ) + directory_bytes(
            sizes.skip(i),
            payloads.skip(i),
            base + sum_lens(payloads.take(i)) as int,
        ),
    decreases i,
{
    if i == 0 {
        assert(sizes.take(0) =~= Seq::<u32>::empty());
        assert(payloads.take(0) =~= Seq::<Seq<u8>>::empty());
        assert(sizes.skip(0) =~= sizes);
        assert(payloads.skip(0) =~= payloads);
        assert(directory_bytes(sizes.take(0), payloads.take(0), base) == Seq::<u8>::empty());
        assert(Seq::<u8>::empty() + directory_bytes(sizes, payloads, base) =~= directory_bytes(
            sizes,
            payloads,
            base,
        ));
    } else {
        let sdf = sizes.drop_first();
        let pdf = payloads.drop_first();
        let p0 = payloads.first();
        lemma_directory_split(sdf, pdf, base + p0.len(), i - 1);
        assert(sizes.take(i).first() == sizes.first());
        assert(payloads.take(i).first() == p0);
        assert(sizes.take(i).drop_first() =~= sdf.take(i - 1));
        assert(payloads.take(i).drop_first() =~= pdf.take(i - 1));
        assert(sizes.skip(i) =~= sdf.skip(i - 1));
        assert(payloads.skip(i) =~= pdf.skip(i - 1));
        assert(sum_lens(payloads.take(i)) == (p0.len() + sum_lens(pdf.take(i - 1))) as nat);
        let e0 = entry_bytes(sizes.first(), p0.len() as u32, base as u32);
        let a = directory_bytes(sdf.take(i - 1), pdf.take(i - 1), base + p0.len());
        let b = directory_bytes(
            sdf.skip(i - 1),
            pdf.skip(i - 1),
            base + p0.len() + sum_lens(pdf.take(i - 1)) as int,
        );
        assert(directory_bytes(sizes, payloads, base) == e0 + (a + b));
        assert(directory_bytes(sizes.take(i), payloads.take(i), base) == e0 + a);
        assert(e0 + (a + b) =~= (e0 + a) + b);
    }
}

/// The payload region splits at any payload boundary.
proof fn lemma_concat_split(payloads: Seq<Seq<u8>>, i: int)
    requires
        0 <= i <= payloads.len(),
    ensures
        concat_bytes(payloads) == concat_bytes(payloads.take(i)) + concat_bytes(payloads.skip(i)),
    decreases i,
{
    if i == 0 {
        assert(payloads.take(0) =~= Seq::<Seq<u8>>::empty());
        assert(payloads.skip(0) =~= payloads);
        assert(concat_bytes(payloads.take(0)) == Seq::<u8>::empty());
        assert(Seq::<u8>::empty() + concat_bytes(payloads) =~= concat_bytes(payloads));
    } else {
        let pdf = payloads.drop_first();
        let p0 = payloads.first();
        lemma_concat_split(pdf, i - 1);
        assert(payloads.take(i).first() == p0);
        assert(payloads.take(i).drop_first() =~= pdf.take(i - 1));
        assert(payloads.skip(i) =~= pdf.skip(i - 1));
        let a = concat_bytes(pdf.take(i - 1));
        let b = concat_bytes(pdf.skip(i - 1));
        assert(concat_bytes(payloads) == p0 + (a + b));
        assert(concat_bytes(payloads.take(i)) == p0 + a);
        assert(p0 + (a + b) =~= (p0 + a) + b);
    }
}

/// Directory record `i` of the container, read back as 16 raw bytes,
/// is exactly the record that `entry_bytes` describes, placed at byte
/// `6 + 16*i`, with its offset field pointing past every earlier payload.
pub proof fn lemma_record_bytes(sizes: Seq<u32>, payloads: Seq<Seq<u8>>, i: int)
    requires
        fits_in_container(sizes, payloads),
        sizes.len() <= MAX_ENTRIES,
        0 <= i < sizes.len(),
    ensures
        ico_bytes(sizes, payloads).subrange(6 + 16 * i, 6 + 16 * i + 16) == entry_bytes(
            sizes[i],
            payloads[i].len() as u32,
            entry_offset(sizes.len(), payloads, i) as u32,
        ),
{
    let n = sizes.len();
    let base = directory_len(n) as int;
    let whole = ico_bytes(sizes, payloads);
    lemma_header_len(n as u16);
    lemma_directory_split(sizes, payloads, base, i);
    let pre = directory_bytes(sizes.take(i), payloads.take(i), base);
    lemma_directory_bytes_len(sizes.take(i), payloads.take(i), base);
    let off = base + sum_lens(payloads.take(i)) as int;
    let rest = directory_bytes(sizes.skip(i), payloads.skip(i), off);
    assert(sizes.skip(i).first() == sizes[i]);
    assert(payloads.skip(i).first() == payloads[i]);
    assert(sizes.skip(i).drop_first() =~= sizes.skip(i + 1));
    assert(payloads.skip(i).drop_first() =~= payloads.skip(i + 1));
    let entry = entry_bytes(sizes[i], payloads[i].len() as u32, off as u32);
    let tail = directory_bytes(sizes.skip(i + 1), payloads.skip(i + 1), off + payloads[i].len());
    assert(rest == entry + tail);
    lemma_entry_len(sizes[i], payloads[i].len() as u32, off as u32);
    assert(whole == header_bytes(n as u16) + (pre + (entry + tail)) + concat_bytes(payloads));
    assert forall|k: int| 0 <= k < 16 implies whole[6 + 16 * i + k] == entry[k] by {
        assert(whole[6 + 16 * i + k] == (header_bytes(n as u16) + (pre + (entry + tail))
            + concat_bytes(payloads))[6 + 16 * i + k]);
    }
    lemma_ico_bytes_len(sizes, payloads);
    assert(whole.subrange(6 + 16 * i, 6 + 16 * i + 16) =~= entry);
}

/// Round-trip size fidelity: the width and height bytes of directory
/// record `i` hold the requested size when it is below 256, and the
/// format's 0 sentinel otherwise.
pub proof fn lemma_record_size_byte(sizes: Seq<u32>, payloads: Seq<Seq<u8>>, i: int)
    requires
        fits_in_container(sizes, payloads),
        sizes.len() <= MAX_ENTRIES,
        0 <= i < sizes.len(),
    ensures
        ico_bytes(sizes, payloads)[6 + 16 * i] == size_byte(sizes[i]),
        ico_bytes(sizes, payloads)[6 + 16 * i + 1] == size_byte(sizes[i]),
{
    lemma_record_bytes(sizes, payloads, i);
    let entry = entry_bytes(
        sizes[i],
        payloads[i].len() as u32,
        entry_offset(sizes.len(), payloads, i) as u32,
    );
    lemma_auto_spec_u16_to_from_le_bytes();
    lemma_auto_spec_u32_to_from_le_bytes();
    assert(entry[0] == size_byte(sizes[i]));
    assert(entry[1] == size_byte(sizes[i]));
    let whole = ico_bytes(sizes, payloads);
    lemma_ico_bytes_len(sizes, payloads);
    lemma_sum_lens_take_le(payloads, i);
    assert(6 + 16 * i + 16 <= whole.len());
    assert(whole[6 + 16 * i] == whole.subrange(6 + 16 * i, 6 + 16 * i + 16)[0]);
    assert(whole[6 + 16 * i + 1] == whole.subrange(6 + 16 * i, 6 + 16 * i + 16)[1]);
}

/// Offset exactness, field half: reading directory record `i`'s 4-byte
/// length field back as a little-endian integer gives exactly the
/// payload's length, and reading its offset field gives exactly the
/// directory size plus the lengths of the payloads before it.
pub proof fn lemma_record_fields(sizes: Seq<u32>, payloads: Seq<Seq<u8>>, i: int)
    requires
        fits_in_container(sizes, payloads),
        sizes.len() <= MAX_ENTRIES,
        0 <= i < sizes.len(),
    ensures
        vstd::bytes::spec_u32_from_le_bytes(
            ico_bytes(sizes, payloads).subrange(6 + 16 * i + 8, 6 + 16 * i + 12),
        ) == payloads[i].len(),
        vstd::bytes::spec_u32_from_le_bytes(
            ico_bytes(sizes, payloads).subrange(6 + 16 * i + 12, 6 + 16 * i + 16),
        ) == entry_offset(sizes.len(), payloads, i),
{
    lemma_record_bytes(sizes, payloads, i);
    lemma_sum_lens_take_succ(payloads, i);
    lemma_sum_lens_take_le(payloads, i + 1);
    let n = sizes.len();
    let plen = payloads[i].len() as u32;
    let off = entry_offset(n, payloads, i) as u32;
    let entry = entry_bytes(sizes[i], plen, off);
    lemma_auto_spec_u16_to_from_le_bytes();
    lemma_auto_spec_u32_to_from_le_bytes();
    lemma_entry_len(sizes[i], plen, off);
    assert(entry.subrange(8, 12) =~= spec_u32_to_le_bytes(plen));
    assert(entry.subrange(12, 16) =~= spec_u32_to_le_bytes(off));
    let whole = ico_bytes(sizes, payloads);
    lemma_ico_bytes_len(sizes, payloads);
    lemma_sum_lens_take_le(payloads, i);
    assert(6 + 16 * i + 16 <= whole.len());
    assert(whole.subrange(6 + 16 * i + 8, 6 + 16 * i + 12) =~= whole.subrange(
        6 + 16 * i,
        6 + 16 * i + 16,
    ).subrange(8, 12));
    assert(whole.subrange(6 + 16 * i + 12, 6 + 16 * i + 16) =~= whole.subrange(
        6 + 16 * i,
        6 + 16 * i + 16,
    ).subrange(12, 16));
    assert(payloads[i].len() <= u32::MAX);
    assert(entry_offset(n, payloads, i) <= u32::MAX);
}

/// Offset exactness, slice half: re-slicing the container at record
/// `i`'s recorded offset and length yields payload `i`, byte for byte;
/// the payloads sit back to back with no gaps or overlaps.
pub proof fn lemma_payload_slice(sizes: Seq<u32>, payloads: Seq<Seq<u8>>, i: int)
    requires
        fits_in_container(sizes, payloads),
        sizes.len() <= MAX_ENTRIES,
        0 <= i < sizes.len(),
    ensures
        ico_bytes(sizes, payloads).subrange(
            entry_offset(sizes.len(), payloads, i),
            entry_offset(sizes.len(), payloads, i) + payloads[i].len(),
        ) == payloads[i],
{
    let n = sizes.len();
    let whole = ico_bytes(sizes, payloads);
    let off = entry_offset(n, payloads, i);
    lemma_header_len(n as u16);
    lemma_directory_bytes_len(sizes, payloads, directory_len(n) as int);
    lemma_concat_split(payloads, i);
    lemma_concat_bytes_len(payloads.take(i));
    lemma_concat_bytes_len(payloads);
    lemma_sum_lens_take_succ(payloads, i);
    lemma_sum_lens_take_le(payloads, i + 1);
    assert(payloads.skip(i).first() == payloads[i]);
    assert(payloads.skip(i).drop_first() =~= payloads.skip(i + 1));
    let tail = concat_bytes(payloads.skip(i + 1));
    assert(concat_bytes(payloads.skip(i)) == payloads[i] + tail);
    let header = header_bytes(n as u16);
    let dir = directory_bytes(sizes, payloads, directory_len(n) as int);
    let pre = concat_bytes(payloads.take(i));
    assert(whole == header + dir + (pre + (payloads[i] + tail)));
    lemma_ico_bytes_len(sizes, payloads);
    assert forall|k: int| 0 <= k < payloads[i].len() implies whole[off + k] == payloads[i][k] by {
        assert(whole[off + k] == (header + dir + (pre + (payloads[i] + tail)))[off + k]);
    }
    assert(whole.subrange(off, off + payloads[i].len()) =~= payloads[i]);
}

/// A deeply viewed payload list indexes to the bytes of the vector there.
pub proof fn lemma_deep_view_index(payloads: &Vec<Vec<u8>>, i: int)
    requires
        0 <= i < payloads@.len(),
    ensures
        payloads.deep_view().len() == payloads@.len(),
        payloads.deep_view()[i] == payloads@[i]@,
{
    assert(payloads@[i].deep_view() =~= payloads@[i]@);
}

/// Appends the two little-endian bytes of `v`.
fn push_u16_le(out: &mut Vec<u8>, v: u16)
    ensures
        final(out)@ == old(out)@ + spec_u16_to_le_bytes(v),
{
    let mut b = u16_to_le_bytes(v);
    out.append(&mut b);
}

/// Appends the four little-endian bytes of `v`.
fn push_u32_le(out: &mut Vec<u8>, v: u32)
    ensures
        final(out)@ == old(out)@ + spec_u32_to_le_bytes(v),
{
    let mut b = u32_to_le_bytes(v);
    out.append(&mut b);
}

/// The clamped width/height byte of a directory record.
pub fn size_byte_of(size: u32) -> (r: u8)
    ensures
        r == size_byte(size),
{
    if size >= 256 {
        0
    } else {
        size as u8
    }
}

/// Serializes the container: header, one directory record per entry in
/// list order, then the payloads back to back.  Succeeds exactly when
/// the entry count fits the header's 2-byte count field, and then
/// returns the byte image that `ico_bytes` describes; otherwise returns
/// `TooManyEntries` and no buffer.
pub fn assemble(sizes: &[u32], payloads: &Vec<Vec<u8>>) -> (r: Result<Vec<u8>, IcoError>)
    requires
        fits_in_container(sizes@, payloads.deep_view()),
    ensures
        sizes@.len() <= MAX_ENTRIES ==> (r matches Ok(out) && out@ == ico_bytes(
            sizes@,
            payloads.deep_view(),
        )),
        sizes@.len() > MAX_ENTRIES ==> (r matches Err(e) && e matches IcoError::TooManyEntries {
            count,
        } && count == sizes@.len()),
{
    let ghost ps = payloads.deep_view();
    let n = sizes.len();
    if n > MAX_ENTRIES {
        return Err(IcoError::TooManyEntries { count: n });
    }
    let dir_base: u32 = 6 + 16 * (n as u32);
    assert(dir_base == directory_len(n as nat));
    let mut out: Vec<u8> = Vec::new();
    push_u16_le(&mut out, 0);
    push_u16_le(&mut out, 1);
    push_u16_le(&mut out, n as u16);
    assert(out@ =~= header_bytes(n as u16));
    let ghost header = header_bytes(n as u16);
    let mut offset: u32 = dir_base;
    let mut i: usize = 0;
    while i < n
        invariant
            i <= n,
            n == sizes@.len(),
            n <= MAX_ENTRIES,
            n == ps.len(),
            ps == payloads.deep_view(),
            header == header_bytes(n as u16),
            directory_len(ps.len()) + sum_lens(ps) <= u32::MAX,
            dir_base == directory_len(n as nat),
            offset == directory_len(n as nat) + sum_lens(ps.take(i as int)),
            out@ == header + directory_bytes(
                sizes@.take(i as int),
                ps.take(i as int),
                dir_base as int,
            ),
        decreases n - i,
    {
        proof {
            lemma_deep_view_index(payloads, i as int);
            lemma_sum_lens_take_succ(ps, i as int);
            lemma_sum_lens_take_le(ps, i as int + 1);
        }
        let plen: u32 = payloads[i].len() as u32;
        assert(plen == ps[i as int].len());
        let wh = size_byte_of(sizes[i]);
        let ghost dir_before = out@;
        out.push(wh);
        out.push(wh);
        out.push(0);
        out.push(0);
        push_u16_le(&mut out, 0);
        push_u16_le(&mut out, 0);
        push_u32_le(&mut out, plen);
        push_u32_le(&mut out, offset);
        proof {
            let s_i = sizes@[i as int];
            let p_i = ps[i as int];
            assert(out@ =~= dir_before + entry_bytes(s_i, plen, offset));
            lemma_directory_bytes_push(
                sizes@.take(i as int),
                ps.take(i as int),
                dir_base as int,
                s_i,
                p_i,
            );
            assert(sizes@.take(i as int + 1) =~= sizes@.take(i as int).push(s_i));
            assert(ps.take(i as int + 1) =~= ps.take(i as int).push(p_i));
            assert(out@ =~= header + directory_bytes(
                sizes@.take(i as int + 1),
                ps.take(i as int + 1),
                dir_base as int,
            ));
        }
        offset = offset + plen;
        i = i + 1;
    }
    assert(sizes@.take(n as int) =~= sizes@);
    assert(ps.take(n as int) =~= ps);
    let ghost dir_full = directory_bytes(sizes@, ps, dir_base as int);
    let mut j: usize = 0;
    while j < n
        invariant
            j <= n,
            n == sizes@.len(),
            n == ps.len(),
            ps == payloads.deep_view(),
            out@ == header + dir_full + concat_bytes(ps.take(j as int)),
        decreases n - j,
    {
        proof {
            lemma_deep_view_index(payloads, j as int);
        }
        let mut chunk = vstd::slice::slice_to_vec(payloads[j].as_slice());
        out.append(&mut chunk);
        proof {
            assert(ps.take(j as int + 1) =~= ps.take(j as int).push(ps[j as int]));
            lemma_concat_bytes_push(ps.take(j as int), ps[j as int]);
            assert(out@ =~= header + dir_full + concat_bytes(ps.take(j as int + 1)));
        }
        j = j + 1;
    }
    assert(out@ =~= ico_bytes(sizes@, ps));
    Ok(out)
}

} // verus!
