//! The KTX 2.0 container of a packed texture.
//!
//! The file starts with the 12-byte identifier, the header record and the
//! section index, 80 bytes in all. The level index follows, 24 bytes for
//! every mip level, entry `i` describing level `i`. Then comes the data
//! format descriptor, which consists of its total size alone: the least
//! that readers of the format accept. The level data comes last, from the
//! smallest level to the largest, each level starting on a four-byte
//! boundary. The file has no key/value data and no supercompression global
//! data: their entries in the section index are zero.

use vstd::prelude::*;
use crate::endian::{le32, le64, lemma_value_of_le32, lemma_value_of_le64, value32, value64};
use crate::image::PackedTexture;

verus! {

/// The format code of RGB9E5 (`VK_FORMAT_E5B9G9R9_UFLOAT_PACK32`).
pub const FORMAT_E5B9G9R9: u32 = 123;

/// The size in bytes of one packed word.
pub const TYPE_SIZE: u32 = 4;

/// The length of the identifier, the header record and the section index.
pub const FIXED_LEN: usize = 80;

/// The length of one entry of the level index.
pub const ENTRY_LEN: usize = 24;

/// The length of the data format descriptor.
pub const DESCRIPTOR_LEN: u32 = 4;

/// Why a container could not be written.
#[derive(Debug, Clone, PartialEq, Eq)]
pub enum WriteError {
    /// The destination could not be created or written; the text says why.
    IoFailure(String),
    /// The file would be longer than this machine can address, or its
    /// level index longer than the section index can tell.
    TooLarge,
}

/// The file identifier: `«KTX 20»\r\n\x1A\n`.
pub open spec fn identifier() -> Seq<u8> {
    seq![0xABu8, 0x4B, 0x54, 0x58, 0x20, 0x32, 0x30, 0xBB, 0x0D, 0x0A, 0x1A, 0x0A]
}

/// A run of zero bytes.
pub open spec fn zeros(count: nat) -> Seq<u8> {
    Seq::new(count, |k: int| 0u8)
}

/// The header record: format, type size, width, height, depth 1, one layer,
/// one face, the level count, and no supercompression.
pub open spec fn header_record(width: u32, height: u32, level_count: u32) -> Seq<u8> {
    le32(FORMAT_E5B9G9R9) + le32(TYPE_SIZE) + le32(width) + le32(height) + le32(1) + le32(1)
        + le32(1) + le32(level_count) + le32(0)
}

/// Where the level index ends and the data format descriptor starts.
pub open spec fn index_end(level_count: nat) -> nat {
    80 + 24 * level_count
}

/// The section index: the offset and the length of the data format
/// descriptor, and zeros for the key/value data and the supercompression
/// global data, which are absent.
pub open spec fn section_index(level_count: nat) -> Seq<u8> {
    le32(index_end(level_count) as u32) + le32(DESCRIPTOR_LEN) + zeros(24)
}

/// The data format descriptor: its total size, which counts these four
/// bytes alone.
pub open spec fn descriptor() -> Seq<u8> {
    le32(DESCRIPTOR_LEN)
}

/// The next multiple of four at or after `n`.
pub open spec fn align4(n: nat) -> nat {
    (((n + 3) / 4) * 4) as nat
}

/// The length of everything before the level data.
pub open spec fn head_len(level_count: nat) -> nat {
    index_end(level_count) + 4
}

/// Where the data of level `i` ends, counted from the start of the file,
/// for levels of the byte lengths `lens`. The levels are laid out from the
/// last to the first; past the last level this is the end of the data
/// format descriptor.
pub open spec fn section_end(lens: Seq<nat>, i: int) -> nat
    decreases lens.len() - i,
{
    if i >= lens.len() {
        head_len(lens.len())
    } else {
        align4(section_end(lens, i + 1)) + lens[i]
    }
}

/// Where the data of level `i` starts: on the first four-byte boundary
/// after the level laid out before it.
pub open spec fn level_offset(lens: Seq<nat>, i: int) -> nat {
    align4(section_end(lens, i + 1))
}

/// The length of the whole file.
pub open spec fn file_len(lens: Seq<nat>) -> nat {
    section_end(lens, 0)
}

/// A file with levels of these lengths can be written: the offset of the
/// data format descriptor fits its 32-bit field and the length of the file
/// fits in `usize`.
pub open spec fn representable(lens: Seq<nat>) -> bool {
    index_end(lens.len()) <= u32::MAX && file_len(lens) <= usize::MAX
}

/// Entry `i` of the level index: the offset of the level's data, its
/// length, and its length before supercompression, which is the same.
pub open spec fn index_entry(lens: Seq<nat>, i: int) -> Seq<u8> {
    le64(level_offset(lens, i)) + le64(lens[i]) + le64(lens[i])
}

/// The level index: one entry for every level, in the order of the levels.
pub open spec fn level_index(lens: Seq<nat>) -> Seq<u8> {
    Seq::new(24 * lens.len(), |k: int| index_entry(lens, k / 24)[k % 24])
}

/// Everything before the level data.
#[verifier::opaque]
pub open spec fn head(width: u32, height: u32, lens: Seq<nat>) -> Seq<u8> {
    identifier() + header_record(width, height, lens.len() as u32) + section_index(lens.len())
        + level_index(lens) + descriptor()
}

/// `bytes` followed by the zeros that bring its length to a multiple of
/// four.
pub open spec fn pad4(bytes: Seq<u8>) -> Seq<u8> {
    bytes + zeros((align4(bytes.len()) - bytes.len()) as nat)
}

/// The file up to the end of the data of level `i`: the head, then the
/// levels from the last down to `i`, each on a four-byte boundary.
pub open spec fn file_through(head: Seq<u8>, levels: Seq<Seq<u8>>, i: int) -> Seq<u8>
    decreases levels.len() - i,
{
    if i >= levels.len() {
        head
    } else {
        pad4(file_through(head, levels, i + 1)) + levels[i]
    }
}

/// The byte lengths of the levels.
pub open spec fn lengths(levels: Seq<Seq<u8>>) -> Seq<nat> {
    Seq::new(levels.len(), |i: int| levels[i].len())
}

/// The container file of a texture with the given extents and levels.
pub open spec fn container(width: u32, height: u32, levels: Seq<Seq<u8>>) -> Seq<u8> {
    file_through(head(width, height, lengths(levels)), levels, 0)
}

impl PackedTexture {
    /// The contents of the levels.
    pub open spec fn level_bytes(&self) -> Seq<Seq<u8>> {
        Seq::new(self.levels@.len(), |i: int| self.levels@[i]@)
    }

    /// The container file of this texture.
    pub open spec fn container(&self) -> Seq<u8> {
        container(self.width, self.height, self.level_bytes())
    }

    /// The length of the container file of this texture.
    pub open spec fn container_len(&self) -> nat {
        file_len(lengths(self.level_bytes()))
    }

    /// The container file of this texture can be written.
    pub open spec fn representable(&self) -> bool {
        representable(lengths(self.level_bytes()))
    }
}

/// Appends the four bytes of a 32-bit field.
fn push_le32(out: &mut Vec<u8>, x: u32)
    ensures
        final(out)@ == old(out)@ + le32(x),
{
    out.push((x % 0x100) as u8);
    out.push(((x / 0x100) % 0x100) as u8);
    out.push(((x / 0x1_0000) % 0x100) as u8);
    out.push(((x / 0x100_0000) % 0x100) as u8);
    assert(out@ =~= old(out)@ + le32(x));
}

/// Appends the eight bytes of a 64-bit field.
fn push_le64(out: &mut Vec<u8>, x: u64)
    ensures
        final(out)@ == old(out)@ + le64(x as nat),
{
    out.push((x % 0x100) as u8);
    out.push(((x / 0x100) % 0x100) as u8);
    out.push(((x / 0x1_0000) % 0x100) as u8);
    out.push(((x / 0x100_0000) % 0x100) as u8);
    out.push(((x / 0x1_0000_0000) % 0x100) as u8);
    out.push(((x / 0x100_0000_0000) % 0x100) as u8);
    out.push(((x / 0x1_0000_0000_0000) % 0x100) as u8);
    out.push(((x / 0x100_0000_0000_0000) % 0x100) as u8);
    assert(out@ =~= old(out)@ + le64(x as nat));
}

/// Appends zeros until the length is `target`.
fn pad_to(out: &mut Vec<u8>, target: usize)
    requires
        old(out)@.len() <= target,
    ensures
        final(out)@ == old(out)@ + zeros((target - old(out)@.len()) as nat),
{
    while out.len() < target
        invariant
            old(out)@.len() <= out@.len() <= target,
            out@ == old(out)@ + zeros((out@.len() - old(out)@.len()) as nat),
        decreases target - out@.len(),
    {
        out.push(0);
        assert(out@ =~= old(out)@ + zeros((out@.len() - old(out)@.len()) as nat));
    }
}

/// Appends a copy of `bytes`.
fn push_all(out: &mut Vec<u8>, bytes: &Vec<u8>)
    ensures
        final(out)@ == old(out)@ + bytes@,
{
    let mut k: usize = 0;
    while k < bytes.len()
        invariant
            k <= bytes@.len(),
            out@ == old(out)@ + bytes@.subrange(0, k as int),
        decreases bytes@.len() - k,
    {
        out.push(bytes[k]);
        k = k + 1;
        assert(out@ =~= old(out)@ + bytes@.subrange(0, k as int));
    }
    assert(bytes@.subrange(0, k as int) =~= bytes@);
}

/// Every level ends at or before the end of the file.
pub proof fn lemma_file_holds_sections(lens: Seq<nat>, i: int)
    requires
        0 <= i <= lens.len(),
    ensures
        section_end(lens, i) <= file_len(lens),
    decreases i,
{
    if i > 0 {
        lemma_file_holds_sections(lens, i - 1);
    }
}

/// The file up to the end of level `i` is as long as the layout says.
pub proof fn lemma_file_through_len(head: Seq<u8>, levels: Seq<Seq<u8>>, i: int)
    requires
        0 <= i <= levels.len(),
        head.len() == head_len(levels.len()),
    ensures
        file_through(head, levels, i).len() == section_end(lengths(levels), i),
    decreases levels.len() - i,
{
    if i < levels.len() {
        lemma_file_through_len(head, levels, i + 1);
    }
}

/// The file up to the end of a level is a prefix of the file up to the end
/// of any level laid out after it.
pub proof fn lemma_file_through_prefix(head: Seq<u8>, levels: Seq<Seq<u8>>, i: int, j: int)
    requires
        0 <= i <= j <= levels.len(),
    ensures
        file_through(head, levels, j).len() <= file_through(head, levels, i).len(),
        file_through(head, levels, i).subrange(0, file_through(head, levels, j).len() as int)
            == file_through(head, levels, j),
    decreases j - i,
{
    let whole = file_through(head, levels, i);
    let part = file_through(head, levels, j);
    if i < j {
        lemma_file_through_prefix(head, levels, i + 1, j);
        let inner = file_through(head, levels, i + 1);
        assert(whole.subrange(0, part.len() as int) =~= inner.subrange(0, part.len() as int));
    } else {
        assert(whole.subrange(0, part.len() as int) =~= part);
    }
}

/// The levels follow one another without overlap: a level laid out later
/// starts at or after the end of every level laid out before it.
pub proof fn lemma_levels_do_not_overlap(lens: Seq<nat>, i: int, j: int)
    requires
        0 <= i < j < lens.len(),
    ensures
        level_offset(lens, j) + lens[j] <= level_offset(lens, i),
    decreases j - i,
{
    if i + 1 < j {
        lemma_levels_do_not_overlap(lens, i + 1, j);
    }
}

/// A part of a prefix is the same part of the whole.
proof fn lemma_part_of_prefix(whole: Seq<u8>, prefix: Seq<u8>, from: int, to: int)
    requires
        prefix.len() <= whole.len(),
        whole.subrange(0, prefix.len() as int) == prefix,
        0 <= from <= to <= prefix.len(),
    ensures
        whole.subrange(from, to) == prefix.subrange(from, to),
{
    assert forall|k: int| 0 <= k < to - from implies whole.subrange(from, to)[k]
        == prefix.subrange(from, to)[k] by {
        assert(whole.subrange(0, prefix.len() as int)[from + k] == whole[from + k]);
    }
    assert(whole.subrange(from, to) =~= prefix.subrange(from, to));
}

/// The header record is 36 bytes long.
proof fn lemma_header_record_len(width: u32, height: u32, level_count: u32)
    ensures
        header_record(width, height, level_count).len() == 36,
{
}

/// The parts of the head stand where the format puts them.
proof fn lemma_head_parts(width: u32, height: u32, lens: Seq<nat>)
    ensures
        head(width, height, lens).len() == head_len(lens.len()),
        head(width, height, lens).subrange(0, 12) == identifier(),
        head(width, height, lens).subrange(12, 48) == header_record(
            width,
            height,
            lens.len() as u32,
        ),
        head(width, height, lens).subrange(48, 80) == section_index(lens.len()),
        head(width, height, lens).subrange(80, index_end(lens.len()) as int) == level_index(lens),
        head(width, height, lens).subrange(
            index_end(lens.len()) as int,
            head_len(lens.len()) as int,
        ) == descriptor(),
{
    reveal(head);
    let h = head(width, height, lens);
    let record = header_record(width, height, lens.len() as u32);
    lemma_header_record_len(width, height, lens.len() as u32);
    assert(h.subrange(0, 12) =~= identifier());
    assert(h.subrange(12, 48) =~= record);
    assert(h.subrange(48, 80) =~= section_index(lens.len()));
    assert(h.subrange(80, index_end(lens.len()) as int) =~= level_index(lens));
    assert(h.subrange(index_end(lens.len()) as int, head_len(lens.len()) as int)
        =~= descriptor());
}

/// Entry `i` of the level index stands at byte `24 * i` of the index.
proof fn lemma_index_entry_at(lens: Seq<nat>, i: int)
    requires
        0 <= i < lens.len(),
    ensures
        level_index(lens).subrange(24 * i, 24 * i + 24) == index_entry(lens, i),
{
    assert forall|k: int| 0 <= k < 24 implies level_index(lens).subrange(24 * i, 24 * i + 24)[k]
        == index_entry(lens, i)[k] by {
        assert((24 * i + k) / 24 == i && (24 * i + k) % 24 == k);
    }
    assert(level_index(lens).subrange(24 * i, 24 * i + 24) =~= index_entry(lens, i));
}

/// A part of the head is the same part of the file.
proof fn lemma_part_of_head(h: Seq<u8>, levels: Seq<Seq<u8>>, from: int, to: int)
    requires
        0 <= from <= to <= h.len(),
    ensures
        to <= file_through(h, levels, 0).len(),
        file_through(h, levels, 0).subrange(from, to) == h.subrange(from, to),
{
    lemma_file_through_prefix(h, levels, 0, levels.len() as int);
    lemma_part_of_prefix(file_through(h, levels, 0), h, from, to);
}

/// Where the data of level `i` stands in a file with the head `h`.
proof fn lemma_level_data(h: Seq<u8>, levels: Seq<Seq<u8>>, i: int)
    requires
        0 <= i < levels.len(),
        h.len() == head_len(levels.len()),
    ensures
        ({
            let file = file_through(h, levels, 0);
            let lens = lengths(levels);
            let at = level_offset(lens, i);
            &&& file.len() == file_len(lens)
            &&& head_len(levels.len()) <= at
            &&& at % 4 == 0
            &&& at + lens[i] <= file.len()
            &&& file.subrange(at as int, (at + lens[i]) as int) == levels[i]
        }),
{
    let lens = lengths(levels);
    let file = file_through(h, levels, 0);
    let at = level_offset(lens, i);
    lemma_file_through_len(h, levels, 0);
    lemma_file_through_len(h, levels, i);
    lemma_file_through_len(h, levels, i + 1);
    lemma_file_holds_sections(lens, i);
    lemma_section_end_past_head(lens, i + 1);
    lemma_file_through_prefix(h, levels, 0, i);
    let through = file_through(h, levels, i);
    assert(through.subrange(at as int, (at + lens[i]) as int) =~= levels[i]);
    lemma_part_of_prefix(file, through, at as int, (at + lens[i]) as int);
}

/// No level ends before the end of the data format descriptor.
proof fn lemma_section_end_past_head(lens: Seq<nat>, i: int)
    requires
        0 <= i <= lens.len(),
    ensures
        head_len(lens.len()) <= section_end(lens, i),
    decreases lens.len() - i,
{
    if i < lens.len() {
        lemma_section_end_past_head(lens, i + 1);
    }
}

/// The head of the container file.
///
/// The file starts with the identifier, the header record, in which the
/// extents are those of the texture and the level count is the number of
/// levels, and the section index; the level index follows, and the data
/// format descriptor ends where the level data begins.
pub proof fn lemma_container_head(width: u32, height: u32, levels: Seq<Seq<u8>>)
    ensures
        ({
            let file = container(width, height, levels);
            let lens = lengths(levels);
            &&& file.len() == file_len(lens)
            &&& head_len(levels.len()) <= file.len()
            &&& file.subrange(0, 12) == identifier()
            &&& file.subrange(12, 48) == header_record(width, height, levels.len() as u32)
            &&& file.subrange(48, 80) == section_index(levels.len())
            &&& file.subrange(80, index_end(levels.len()) as int) == level_index(lens)
            &&& file.subrange(index_end(levels.len()) as int, head_len(levels.len()) as int)
                == descriptor()
        }),
{
    let lens = lengths(levels);
    let h = head(width, height, lens);
    lemma_head_parts(width, height, lens);
    lemma_file_through_len(h, levels, 0);
    lemma_part_of_head(h, levels, 0, 12);
    lemma_part_of_head(h, levels, 12, 48);
    lemma_part_of_head(h, levels, 48, 80);
    lemma_part_of_head(h, levels, 80, index_end(levels.len()) as int);
    lemma_part_of_head(h, levels, index_end(levels.len()) as int, head_len(levels.len()) as int);
}

/// The place of one level in the container file.
///
/// Entry `i` of the level index stands at byte `80 + 24 * i` and records
/// the offset and the length of level `i`. That offset is a multiple of
/// four and lies past the data format descriptor, the level ends within
/// the file, and the bytes found there are those of the level.
pub proof fn lemma_container_level(width: u32, height: u32, levels: Seq<Seq<u8>>, i: int)
    requires
        0 <= i < levels.len(),
    ensures
        ({
            let file = container(width, height, levels);
            let lens = lengths(levels);
            let at = level_offset(lens, i);
            &&& file.subrange(80 + 24 * i, 104 + 24 * i) == index_entry(lens, i)
            &&& head_len(levels.len()) <= at
            &&& at % 4 == 0
            &&& at + lens[i] <= file.len()
            &&& file.subrange(at as int, (at + lens[i]) as int) == levels[i]
        }),
{
    let lens = lengths(levels);
    let h = head(width, height, lens);
    lemma_head_parts(width, height, lens);
    lemma_level_data(h, levels, i);
    lemma_part_of_head(h, levels, 80 + 24 * i, 104 + 24 * i);
    lemma_index_entry_at(lens, i);
    assert(h.subrange(80 + 24 * i, 104 + 24 * i) =~= h.subrange(
        80,
        index_end(lens.len()) as int,
    ).subrange(24 * i, 24 * i + 24));
}

/// Levels of whole words need no padding: if every length is a multiple of
/// four, every level starts where the one laid out before it ends.
pub proof fn lemma_words_need_no_padding(lens: Seq<nat>, i: int)
    requires
        0 <= i <= lens.len(),
        forall|k: int| 0 <= k < lens.len() ==> #[trigger] lens[k] % 4 == 0,
    ensures
        section_end(lens, i) % 4 == 0,
        i > 0 ==> level_offset(lens, i - 1) == section_end(lens, i),
    decreases lens.len() - i,
{
    if i < lens.len() {
        lemma_words_need_no_padding(lens, i + 1);
        assert(lens[i] % 4 == 0);
    }
}

/// The header of the container file, read back.
///
/// The fields of the header record hold the format code of RGB9E5, the
/// type size 4, the extents of the texture, depth 1, one layer, one face,
/// the number of levels and no supercompression. The section index names
/// the four bytes after the level index as the data format descriptor, and
/// these hold their own length.
pub proof fn lemma_header_fields(width: u32, height: u32, levels: Seq<Seq<u8>>)
    requires
        index_end(levels.len()) <= u32::MAX,
    ensures
        ({
            let file = container(width, height, levels);
            let descriptor_at = value32(file.subrange(48, 52));
            &&& file.len() >= 84 + 24 * levels.len()
            &&& descriptor_at == 80 + 24 * levels.len()
            &&& value32(file.subrange(52, 56)) == 4
            &&& file.subrange(56, 80) == zeros(24)
            &&& value32(file.subrange(descriptor_at as int, descriptor_at as int + 4)) == 4
            &&& value32(file.subrange(12, 16)) == FORMAT_E5B9G9R9
            &&& value32(file.subrange(16, 20)) == TYPE_SIZE
            &&& value32(file.subrange(20, 24)) == width
            &&& value32(file.subrange(24, 28)) == height
            &&& value32(file.subrange(28, 32)) == 1
            &&& value32(file.subrange(32, 36)) == 1
            &&& value32(file.subrange(36, 40)) == 1
            &&& value32(file.subrange(40, 44)) == levels.len()
            &&& value32(file.subrange(44, 48)) == 0
        }),
{
    let file = container(width, height, levels);
    let count = levels.len() as u32;
    let record = header_record(width, height, count);
    lemma_container_head(width, height, levels);
    lemma_header_record_len(width, height, count);
    assert(file.subrange(12, 16) =~= file.subrange(12, 48).subrange(0, 4));
    assert(file.subrange(16, 20) =~= file.subrange(12, 48).subrange(4, 8));
    assert(file.subrange(20, 24) =~= file.subrange(12, 48).subrange(8, 12));
    assert(file.subrange(24, 28) =~= file.subrange(12, 48).subrange(12, 16));
    assert(file.subrange(28, 32) =~= file.subrange(12, 48).subrange(16, 20));
    assert(file.subrange(32, 36) =~= file.subrange(12, 48).subrange(20, 24));
    assert(file.subrange(36, 40) =~= file.subrange(12, 48).subrange(24, 28));
    assert(file.subrange(40, 44) =~= file.subrange(12, 48).subrange(28, 32));
    assert(file.subrange(44, 48) =~= file.subrange(12, 48).subrange(32, 36));
    lemma_record_fields(width, height, count);
    let index = section_index(levels.len());
    assert(index.subrange(0, 4) =~= le32(index_end(levels.len()) as u32));
    assert(index.subrange(4, 8) =~= le32(DESCRIPTOR_LEN));
    assert(index.subrange(8, 32) =~= zeros(24));
    assert(file.subrange(48, 52) =~= file.subrange(48, 80).subrange(0, 4));
    assert(file.subrange(52, 56) =~= file.subrange(48, 80).subrange(4, 8));
    assert(file.subrange(56, 80) =~= file.subrange(48, 80).subrange(8, 32));
    lemma_value_of_le32(index_end(levels.len()) as u32);
    lemma_value_of_le32(DESCRIPTOR_LEN);
    lemma_value_of_le32(FORMAT_E5B9G9R9);
    lemma_value_of_le32(TYPE_SIZE);
    lemma_value_of_le32(width);
    lemma_value_of_le32(height);
    lemma_value_of_le32(1);
    lemma_value_of_le32(count);
    lemma_value_of_le32(0);
}

/// The fields of the header record stand four bytes apart.
proof fn lemma_record_fields(width: u32, height: u32, level_count: u32)
    ensures
        ({
            let record = header_record(width, height, level_count);
            &&& record.subrange(0, 4) == le32(FORMAT_E5B9G9R9)
            &&& record.subrange(4, 8) == le32(TYPE_SIZE)
            &&& record.subrange(8, 12) == le32(width)
            &&& record.subrange(12, 16) == le32(height)
            &&& record.subrange(16, 20) == le32(1)
            &&& record.subrange(20, 24) == le32(1)
            &&& record.subrange(24, 28) == le32(1)
            &&& record.subrange(28, 32) == le32(level_count)
            &&& record.subrange(32, 36) == le32(0)
        }),
{
    let record = header_record(width, height, level_count);
    assert(record.subrange(0, 4) =~= le32(FORMAT_E5B9G9R9));
    assert(record.subrange(4, 8) =~= le32(TYPE_SIZE));
    assert(record.subrange(8, 12) =~= le32(width));
    assert(record.subrange(12, 16) =~= le32(height));
    assert(record.subrange(16, 20) =~= le32(1));
    assert(record.subrange(20, 24) =~= le32(1));
    assert(record.subrange(24, 28) =~= le32(1));
    assert(record.subrange(28, 32) =~= le32(level_count));
    assert(record.subrange(32, 36) =~= le32(0));
}

/// One entry of the level index, read back.
///
/// Entry `i` records the offset of level `i`, its length, and its length
/// once more. The region that it names lies past the data format
/// descriptor and within the file, and holds the bytes of the level.
pub proof fn lemma_entry_fields(width: u32, height: u32, levels: Seq<Seq<u8>>, i: int)
    requires
        0 <= i < levels.len(),
        file_len(lengths(levels)) <= u64::MAX,
    ensures
        ({
            let file = container(width, height, levels);
            let offset = value64(file.subrange(80 + 24 * i, 88 + 24 * i));
            let length = value64(file.subrange(88 + 24 * i, 96 + 24 * i));
            let unpacked = value64(file.subrange(96 + 24 * i, 104 + 24 * i));
            &&& offset == level_offset(lengths(levels), i)
            &&& length == levels[i].len()
            &&& unpacked == length
            &&& 84 + 24 * levels.len() <= offset
            &&& offset % 4 == 0
            &&& offset + length <= file.len()
            &&& file.subrange(offset as int, (offset + length) as int) == levels[i]
        }),
{
    let file = container(width, height, levels);
    let lens = lengths(levels);
    let entry = index_entry(lens, i);
    lemma_container_head(width, height, levels);
    lemma_container_level(width, height, levels, i);
    lemma_value_of_le64(level_offset(lens, i));
    lemma_value_of_le64(lens[i]);
    assert(file.subrange(80 + 24 * i, 88 + 24 * i) =~= entry.subrange(0, 8)) by {
        assert(file.subrange(80 + 24 * i, 88 + 24 * i) =~= file.subrange(
            80 + 24 * i,
            104 + 24 * i,
        ).subrange(0, 8));
    }
    assert(file.subrange(88 + 24 * i, 96 + 24 * i) =~= entry.subrange(8, 16)) by {
        assert(file.subrange(88 + 24 * i, 96 + 24 * i) =~= file.subrange(
            80 + 24 * i,
            104 + 24 * i,
        ).subrange(8, 16));
    }
    assert(file.subrange(96 + 24 * i, 104 + 24 * i) =~= entry.subrange(16, 24)) by {
        assert(file.subrange(96 + 24 * i, 104 + 24 * i) =~= file.subrange(
            80 + 24 * i,
            104 + 24 * i,
        ).subrange(16, 24));
    }
    assert(entry.subrange(0, 8) =~= le64(level_offset(lens, i)));
    assert(entry.subrange(8, 16) =~= le64(lens[i]));
    assert(entry.subrange(16, 24) =~= le64(lens[i]));
}

/// Serialises a packed texture as a KTX 2.0 file.
///
/// The result is the whole file, or `TooLarge` if the file cannot be
/// written: if its length does not fit in `usize` or the end of its level
/// index does not fit in 32 bits.
pub fn write_container(texture: &PackedTexture) -> (out: Result<Vec<u8>, WriteError>)
    requires
        texture.levels@.len() == texture.mip_count,
    ensures
        match out {
            Ok(bytes) => bytes@ == texture.container() && texture.representable(),
            Err(e) => e == WriteError::TooLarge && !texture.representable(),
        },
{
    let n: usize = texture.levels.len();
    let ghost levels = texture.level_bytes();
    let ghost lens = lengths(levels);
    proof {
        lemma_file_holds_sections(lens, n as int);
    }
    let index_len: usize = match n.checked_mul(ENTRY_LEN) {
        Some(x) => x,
        None => {
            return Err(WriteError::TooLarge);
        },
    };
    let table_end: usize = match index_len.checked_add(FIXED_LEN) {
        Some(x) => x,
        None => {
            return Err(WriteError::TooLarge);
        },
    };
    if table_end > u32::MAX as usize {
        return Err(WriteError::TooLarge);
    }
    let head_end: usize = match table_end.checked_add(DESCRIPTOR_LEN as usize) {
        Some(x) => x,
        None => {
            return Err(WriteError::TooLarge);
        },
    };
    // first pass: where every level starts, last level first
    let mut starts: Vec<usize> = Vec::new();
    let mut end: usize = head_end;
    let mut i: usize = n;
    while i > 0
        invariant
            i <= n,
            n == texture.levels@.len(),
            levels == texture.level_bytes(),
            lens == lengths(levels),
            end == section_end(lens, i as int),
            starts@.len() == n - i,
            forall|k: int|
                0 <= k < starts@.len() ==> starts@[k] == level_offset(lens, n - 1 - k),
        decreases i,
    {
        i = i - 1;
        proof {
            lemma_file_holds_sections(lens, i as int);
        }
        let rem: usize = end % 4;
        let start: usize = if rem == 0 {
            end
        } else {
            match end.checked_add(4 - rem) {
                Some(s) => s,
                None => {
                    return Err(WriteError::TooLarge);
                },
            }
        };
        assert(start == level_offset(lens, i as int));
        let len: usize = texture.levels[i].len();
        assert(len == lens[i as int]);
        let next: usize = match start.checked_add(len) {
            Some(e) => e,
            None => {
                return Err(WriteError::TooLarge);
            },
        };
        starts.push(start);
        end = next;
    }
    // second pass: the bytes
    let mut out: Vec<u8> = Vec::new();
    out.push(0xAB);
    out.push(0x4B);
    out.push(0x54);
    out.push(0x58);
    out.push(0x20);
    out.push(0x32);
    out.push(0x30);
    out.push(0xBB);
    out.push(0x0D);
    out.push(0x0A);
    out.push(0x1A);
    out.push(0x0A);
    assert(out@ =~= identifier());
    push_le32(&mut out, FORMAT_E5B9G9R9);
    push_le32(&mut out, TYPE_SIZE);
    push_le32(&mut out, texture.width);
    push_le32(&mut out, texture.height);
    push_le32(&mut out, 1);
    push_le32(&mut out, 1);
    push_le32(&mut out, 1);
    push_le32(&mut out, texture.mip_count);
    push_le32(&mut out, 0);
    let ghost fixed = identifier() + header_record(texture.width, texture.height, n as u32);
    assert(out@ =~= fixed);
    push_le32(&mut out, table_end as u32);
    push_le32(&mut out, DESCRIPTOR_LEN);
    pad_to(&mut out, FIXED_LEN);
    let ghost fixed = fixed + section_index(n as nat);
    assert(out@ =~= fixed);
    let mut i: usize = 0;
    while i < n
        invariant
            i <= n,
            n == texture.levels@.len(),
            levels == texture.level_bytes(),
            lens == lengths(levels),
            fixed.len() == 80,
            starts@.len() == n,
            forall|k: int| 0 <= k < n ==> starts@[k] == level_offset(lens, n - 1 - k),
            out@ == fixed + Seq::new((24 * i) as nat, |k: int| index_entry(lens, k / 24)[k % 24]),
        decreases n - i,
    {
        let ghost before = out@;
        let len: usize = texture.levels[i].len();
        assert(len == lens[i as int]);
        push_le64(&mut out, starts[n - 1 - i] as u64);
        push_le64(&mut out, len as u64);
        push_le64(&mut out, len as u64);
        assert(out@ =~= before + index_entry(lens, i as int));
        i = i + 1;
        assert(out@ =~= fixed + Seq::new(
            (24 * i) as nat,
            |k: int| index_entry(lens, k / 24)[k % 24],
        ));
    }
    push_le32(&mut out, DESCRIPTOR_LEN);
    let ghost whole_head = head(texture.width, texture.height, lens);
    assert(out@ =~= whole_head) by {
        reveal(head);
    }
    proof {
        lemma_head_parts(texture.width, texture.height, lens);
    }
    let mut i: usize = n;
    while i > 0
        invariant
            i <= n,
            n == texture.levels@.len(),
            levels == texture.level_bytes(),
            lens == lengths(levels),
            whole_head.len() == head_len(n as nat),
            starts@.len() == n,
            forall|k: int| 0 <= k < n ==> starts@[k] == level_offset(lens, n - 1 - k),
            out@ == file_through(whole_head, levels, i as int),
        decreases i,
    {
        proof {
            lemma_file_through_len(whole_head, levels, i as int);
        }
        i = i - 1;
        pad_to(&mut out, starts[n - 1 - i]);
        push_all(&mut out, &texture.levels[i]);
        assert(texture.levels@[i as int]@ == levels[i as int]);
    }
    proof {
        lemma_file_through_len(whole_head, levels, 0);
        assert(out.len() == out@.len());
    }
    Ok(out)
}

} // verus!
