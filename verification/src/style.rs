//! Voice styles: tables of rows of 32-bit floats, one row for each length of
//! speech. The floats are kept by their bit patterns.

use vstd::prelude::*;

verus! {

/// How many floats a row of a style table holds.
pub const STYLE_DIM: usize = 256;

/// How many bytes of a file a row takes.
pub const ROW_BYTES: usize = 1024;

/// The 32-bit word that four bytes spell, lowest byte first.
pub open spec fn word_at(bytes: Seq<u8>, at: int) -> int {
    bytes[at] + bytes[at + 1] * 0x100 + bytes[at + 2] * 0x1_0000 + bytes[at + 3] * 0x100_0000
}

/// The words that a file spells.
pub open spec fn words_in(bytes: Seq<u8>) -> Seq<u32> {
    Seq::new((bytes.len() / 4) as nat, |k: int| word_at(bytes, 4 * k) as u32)
}

/// A file that holds rows of a style table and nothing else.
pub open spec fn holds_rows(bytes: Seq<u8>) -> bool {
    bytes.len() % (ROW_BYTES as nat) == 0
}

/// How many rows a table has.
pub open spec fn rows(table: Seq<u32>) -> int {
    table.len() as int / STYLE_DIM as int
}

/// The row for a number of ids: the one of that number, or else the last.
pub open spec fn row_for(table: Seq<u32>, n_ids: int) -> int {
    vstd::math::min(n_ids, rows(table) - 1)
}

/// The style for a number of ids.
pub open spec fn style_for(table: Seq<u32>, n_ids: int) -> Seq<u32> {
    let row = row_for(table, n_ids);
    table.subrange(row * STYLE_DIM, (row + 1) * STYLE_DIM)
}

/// Reads a style file. Nothing is read from a file that does not hold rows.
pub fn parse_style_table(bytes: &Vec<u8>) -> (r: Option<Vec<u32>>)
    ensures
        match r {
            Some(table) => holds_rows(bytes@) && table@ == words_in(bytes@),
            None => !holds_rows(bytes@),
        },
{
    if bytes.len() % ROW_BYTES != 0 {
        return None;
    }
    let total: usize = bytes.len();
    let n: usize = total / 4;
    let mut table: Vec<u32> = Vec::new();
    for k in 0..n
        invariant
            total == bytes@.len(),
            n == total / 4,
            table@ == words_in(bytes@).take(k as int),
    {
        let at: usize = 4 * k;
        let word: u32 = bytes[at] as u32 + bytes[at + 1] as u32 * 0x100 + bytes[at + 2] as u32
            * 0x1_0000 + bytes[at + 3] as u32 * 0x100_0000;
        table.push(word);
    }
    Some(table)
}

/// The style for a number of ids.
pub fn style_row(table: &Vec<u32>, n_ids: usize) -> (style: Vec<u32>)
    requires
        table@.len() >= STYLE_DIM,
    ensures
        style@ == style_for(table@, n_ids as int),
        style@.len() == STYLE_DIM,
{
    let total: usize = table.len();
    let last: usize = total / STYLE_DIM - 1;
    let row: usize = if n_ids < last {
        n_ids
    } else {
        last
    };
    let start: usize = row * STYLE_DIM;
    let mut style: Vec<u32> = Vec::new();
    for k in 0..STYLE_DIM
        invariant
            total == table@.len(),
            start + STYLE_DIM <= total,
            style@ == table@.subrange(start as int, start + k),
    {
        style.push(table[start + k]);
    }
    style
}

/// A style file that is read has as many floats as a whole number of rows, and
/// whatever the number of ids, the style is one row that lies in the table.
pub proof fn law_a_style_is_a_row(bytes: Seq<u8>, n_ids: int)
    requires
        holds_rows(bytes),
        bytes.len() > 0,
        n_ids >= 0,
    ensures
        words_in(bytes).len() == rows(words_in(bytes)) * STYLE_DIM,
        0 <= row_for(words_in(bytes), n_ids) < rows(words_in(bytes)),
        style_for(words_in(bytes), n_ids).len() == STYLE_DIM,
{
    let n = bytes.len() as int;
    assert(n / 4 / 256 * 256 == n / 4 && n / 4 / 256 > 0) by (nonlinear_arith)
        requires
            n % 1024 == 0,
            n > 0,
    ;
}

/// A style is 256 floats of the table that stand together: those behind as many
/// times 256 as there are ids, or the last row's where there are not so many rows.
pub proof fn law_a_style_stands_in_its_table(table: Seq<u32>, n_ids: int, m: int)
    requires
        table.len() >= 256,
        n_ids >= 0,
        0 <= m < 256,
    ensures
        style_for(table, n_ids).len() == 256,
        n_ids * 256 + 256 <= table.len() ==> style_for(table, n_ids)[m] == table[n_ids * 256 + m],
        n_ids * 256 + 256 > table.len() ==> style_for(table, n_ids)[m] == table[table.len()
            - table.len() as int % 256 - 256 + m],
{
    let n = table.len() as int;
    let r = n / 256;
    assert(n == r * 256 + n % 256);
    if n_ids < r {
        assert(n_ids * 256 + 256 <= r * 256);
    } else {
        assert(n_ids * 256 >= r * 256);
    }
}

/// A file is read when it is a whole number of rows of 1024 bytes, and then gives
/// a float for every four bytes.
pub proof fn law_style_files_are_read_whole(bytes: Seq<u8>, n: int)
    ensures
        bytes.len() == 1024 * n ==> holds_rows(bytes) && words_in(bytes).len() == 256 * n,
        1024 * n < bytes.len() < 1024 * (n + 1) ==> !holds_rows(bytes),
{
}

/// A number below 256, and a multiple of 256 more.
proof fn lemma_low_byte(low: int, rest: int)
    requires
        0 <= low < 0x100,
    ensures
        (low + rest * 0x100) % 0x100 == low,
        (low + rest * 0x100) / 0x100 == rest,
{
}

/// The word that four bytes spell gives the bytes back.
pub proof fn law_words_hold_their_bytes(bytes: Seq<u8>, k: int)
    requires
        0 <= k < bytes.len() / 4,
    ensures
        ({
            let w = words_in(bytes)[k] as int;
            &&& w % 0x100 == bytes[4 * k]
            &&& w / 0x100 % 0x100 == bytes[4 * k + 1]
            &&& w / 0x100 / 0x100 % 0x100 == bytes[4 * k + 2]
            &&& w / 0x100 / 0x100 / 0x100 == bytes[4 * k + 3]
        }),
{
    let a = bytes[4 * k] as int;
    let b = bytes[4 * k + 1] as int;
    let c = bytes[4 * k + 2] as int;
    let d = bytes[4 * k + 3] as int;
    let w = word_at(bytes, 4 * k);
    assert(w == a + (b + (c + d * 0x100) * 0x100) * 0x100);
    lemma_low_byte(a, b + (c + d * 0x100) * 0x100);
    lemma_low_byte(b, c + d * 0x100);
    lemma_low_byte(c, d);
}

} // verus!
