use vstd::prelude::*;

verus! {

/// The first word of an IDX label file.
pub const LABEL_MAGIC: u32 = 2049;

/// The first word of an IDX image file.
pub const IMAGE_MAGIC: u32 = 2051;

/// The big-endian number in bytes `off .. off + 4` of `b`.
pub open spec fn be_u32(b: Seq<u8>, off: int) -> nat {
    (b[off] as nat) * 16777216 + (b[off + 1] as nat) * 65536 + (b[off + 2] as nat) * 256 + (b[off
        + 3] as nat)
}

/// Reads a big-endian `u32` from four bytes.
pub fn read_u32_be(buf: &[u8]) -> (r: u32)
    requires
        buf@.len() == 4,
    ensures
        r == be_u32(buf@, 0),
{
    let b0 = buf[0] as u32;
    let b1 = buf[1] as u32;
    let b2 = buf[2] as u32;
    let b3 = buf[3] as u32;
    b0 * 16777216 + b1 * 65536 + b2 * 256 + b3
}

/// Reads the big-endian word at `off`.
fn word_at(buf: &Vec<u8>, off: usize) -> (r: u32)
    requires
        off + 4 <= buf@.len(),
    ensures
        r == be_u32(buf@, off as int),
{
    let len = buf.len();
    assert(off + 4 <= len);
    let b0 = buf[off] as u32;
    let b1 = buf[off + 1] as u32;
    let b2 = buf[off + 2] as u32;
    let b3 = buf[off + 3] as u32;
    b0 * 16777216 + b1 * 65536 + b2 * 256 + b3
}

/// A label file: the magic word, a count, then that many labels.
pub open spec fn label_file_ok(buf: Seq<u8>) -> bool {
    &&& buf.len() >= 8
    &&& be_u32(buf, 0) == LABEL_MAGIC
    &&& 8 + be_u32(buf, 4) <= buf.len()
}

/// The labels that a label file holds.
pub open spec fn label_file_labels(buf: Seq<u8>) -> Seq<u8> {
    buf.subrange(8, 8 + be_u32(buf, 4) as int)
}

/// The number of images, rows and columns that an image file declares.
pub open spec fn image_file_counts(buf: Seq<u8>) -> (nat, nat, nat) {
    (be_u32(buf, 4), be_u32(buf, 8), be_u32(buf, 12))
}

/// An image file: the magic word, the image count, rows and columns, then
/// the pixels of every image, row after row; no count too large for the
/// machine.
pub open spec fn image_file_ok(buf: Seq<u8>) -> bool {
    let (n, rows, cols) = image_file_counts(buf);
    &&& buf.len() >= 16
    &&& buf.len() <= isize::MAX
    &&& be_u32(buf, 0) == IMAGE_MAGIC
    &&& rows * cols <= isize::MAX
    &&& n <= isize::MAX
    &&& n * (rows * cols) <= isize::MAX
    &&& 16 + n * (rows * cols) <= buf.len()
}

/// The pixel bytes that an image file holds.
pub open spec fn image_file_pixels(buf: Seq<u8>) -> Seq<u8> {
    let (n, rows, cols) = image_file_counts(buf);
    buf.subrange(16, 16 + (n * (rows * cols)) as int)
}

/// Whether `buf` is a label file that `parse_label_file` accepts.
pub fn is_valid_label_file(buf: &Vec<u8>) -> (r: bool)
    ensures
        r == label_file_ok(buf@),
{
    if buf.len() < 8 {
        return false;
    }
    let magic = word_at(buf, 0);
    let num = word_at(buf, 4);
    magic == LABEL_MAGIC && (num as usize) <= buf.len() - 8
}

/// Whether `buf` is an image file that `parse_image_file` accepts.
pub fn is_valid_image_file(buf: &Vec<u8>) -> (r: bool)
    ensures
        r == image_file_ok(buf@),
{
    if buf.len() < 16 || buf.len() > isize::MAX as usize {
        return false;
    }
    let magic = word_at(buf, 0);
    let num = word_at(buf, 4) as u128;
    let rows = word_at(buf, 8) as u128;
    let cols = word_at(buf, 12) as u128;
    assert(rows * cols <= 0xffff_ffffu128 * 0xffff_ffffu128) by (nonlinear_arith)
        requires
            rows <= 0xffff_ffffu128,
            cols <= 0xffff_ffffu128,
    ;
    let size = rows * cols;
    assert(num * size <= 0xffff_ffffu128 * (0xffff_ffffu128 * 0xffff_ffffu128)) by (nonlinear_arith)
        requires
            num <= 0xffff_ffffu128,
            size <= 0xffff_ffffu128 * 0xffff_ffffu128,
    ;
    let total = num * size;
    magic == IMAGE_MAGIC && size <= isize::MAX as u128 && num <= isize::MAX as u128 && total
        <= isize::MAX as u128 && total <= (buf.len() - 16) as u128
}

/// Copies `buf[start..end]`.
fn copy_range(buf: &Vec<u8>, start: usize, end: usize) -> (r: Vec<u8>)
    requires
        start <= end <= buf@.len(),
    ensures
        r@ == buf@.subrange(start as int, end as int),
{
    let mut out: Vec<u8> = Vec::with_capacity(end - start);
    let mut i = start;
    while i < end
        invariant
            start <= i <= end,
            end <= buf@.len(),
            out@ == buf@.subrange(start as int, i as int),
        decreases end - i,
    {
        out.push(buf[i]);
        i += 1;
    }
    out
}

/// The labels of a label file.
pub fn parse_label_file(buf: &Vec<u8>) -> (r: Vec<u8>)
    requires
        label_file_ok(buf@),
    ensures
        r@ == label_file_labels(buf@),
{
    let len = buf.len();
    let num = word_at(buf, 4) as usize;
    assert(8 + num <= len);
    copy_range(buf, 8, 8 + num)
}

/// The header of an image file: after the magic word at offset 0, the
/// image count is the big-endian word at offset 4, the rows the word at
/// offset 8 and the columns the word at offset 12; the pixels start at
/// offset 16.
pub proof fn lemma_image_header(buf: Seq<u8>)
    ensures
        image_file_counts(buf).0 == (buf[4] as nat) * 16777216 + (buf[5] as nat) * 65536 + (buf[6] as nat) * 256 + (buf[7] as nat),
        image_file_counts(buf).1 == (buf[8] as nat) * 16777216 + (buf[9] as nat) * 65536 + (buf[10] as nat) * 256 + (buf[11] as nat),
        image_file_counts(buf).2 == (buf[12] as nat) * 16777216 + (buf[13] as nat) * 65536 + (buf[14] as nat) * 256 + (buf[15] as nat),
        image_file_pixels(buf) == buf.subrange(
            16,
            (16 + image_file_counts(buf).0 * (image_file_counts(buf).1 * image_file_counts(buf).2)) as int,
        ),
{
}

/// The header of a label file: the label count is the big-endian word at
/// offset 4, and the labels follow from offset 8.
pub proof fn lemma_label_header(buf: Seq<u8>)
    ensures
        label_file_labels(buf) == buf.subrange(
            8,
            (8 + (buf[4] as nat) * 16777216 + (buf[5] as nat) * 65536 + (buf[6] as nat) * 256 + (buf[7] as nat)) as int,
        ),
{
}

/// The pixels of an image file with its image count, rows and columns.
pub fn parse_image_file(buf: &Vec<u8>) -> (r: (Vec<u8>, usize, usize, usize))
    requires
        image_file_ok(buf@),
    ensures
        r.0@ == image_file_pixels(buf@),
        (r.1 as nat, r.2 as nat, r.3 as nat) == image_file_counts(buf@),
        r.1 == be_u32(buf@, 4),
        r.2 == be_u32(buf@, 8),
        r.3 == be_u32(buf@, 12),
        r.0@ == buf@.subrange(16, 16 + r.1 * (r.2 * r.3)),
{
    let num = word_at(buf, 4) as usize;
    let rows = word_at(buf, 8) as usize;
    let cols = word_at(buf, 12) as usize;
    proof {
        assert(rows * cols <= isize::MAX);
        assert(num * (rows * cols) <= isize::MAX);
    }
    let size = rows * cols;
    let data = copy_range(buf, 16, 16 + num * size);
    (data, num, rows, cols)
}

} // verus!
