//! The classic sixteen-bytes-per-line hex dump of a byte buffer.
use vstd::prelude::*;
use crate::text::{
    pad_left, spec_hex, push_hex, push_str, push_char, is_hex_char, numeral_value, law_hex_numeral,
    law_zero_padding_keeps_value,
};

verus! {

/// Bytes shown as themselves in the text column: graphic ASCII and space.
pub open spec fn is_shown_plain(b: u8) -> bool {
    (0x21 <= b && b <= 0x7e) || b == 0x20
}

/// The text-column character for a byte.
pub open spec fn text_cell(b: u8) -> char {
    if is_shown_plain(b) {
        b as char
    } else {
        '.'
    }
}

/// The hex cell of the byte at position `j` of its line: two digits and a
/// space, with an extra space after the eighth byte.
pub open spec fn hex_cell(b: u8, j: int) -> Seq<char> {
    pad_left(spec_hex(b as nat), 2, '0') + seq![' '] + (if j == 7 {
        seq![' ']
    } else {
        Seq::<char>::empty()
    })
}

/// The hex cells of a whole line.
pub open spec fn hex_cells(chunk: Seq<u8>) -> Seq<char>
    decreases chunk.len(),
{
    if chunk.len() == 0 {
        Seq::<char>::empty()
    } else {
        hex_cells(chunk.drop_last()) + hex_cell(chunk.last(), chunk.len() - 1)
    }
}

/// The blank standing for the `j`-th missing byte of a short line of `len` bytes.
pub open spec fn gap_cell(len: int, j: int) -> Seq<char> {
    seq![' ', ' ', ' '] + (if len + j == 7 {
        seq![' ']
    } else {
        Seq::<char>::empty()
    })
}

/// The blanks for the first `k` missing bytes of a line of `len` bytes.
pub open spec fn gap_cells(len: int, k: nat) -> Seq<char>
    decreases k,
{
    if k == 0 {
        Seq::<char>::empty()
    } else {
        gap_cells(len, (k - 1) as nat) + gap_cell(len, k - 1)
    }
}

/// The text column of a line.
pub open spec fn text_column(chunk: Seq<u8>) -> Seq<char> {
    chunk.map_values(|b: u8| text_cell(b))
}

/// One line of the dump: eight-digit offset, hex cells padded to full
/// width, and the text column between bars.
pub open spec fn dump_line(offset: nat, chunk: Seq<u8>) -> Seq<char> {
    pad_left(spec_hex(offset), 8, '0') + seq![' ', ' '] + hex_cells(chunk) + gap_cells(
        chunk.len() as int,
        (16 - chunk.len()) as nat,
    ) + seq![' ', '|'] + text_column(chunk) + seq!['|', '\n']
}

/// The `i`-th sixteen-byte chunk of `data` (the last one may be shorter).
pub open spec fn chunk_of(data: Seq<u8>, i: int) -> Seq<u8> {
    data.subrange(16 * i, if 16 * i + 16 <= data.len() {
        16 * i + 16
    } else {
        data.len() as int
    })
}

/// Number of lines of the dump of `len` bytes.
pub open spec fn line_count(len: nat) -> nat {
    (len + 15) / 16
}

/// The first `k` lines of the dump of `data`, with offsets counted from `base`.
pub open spec fn dump_lines(base: nat, data: Seq<u8>, k: nat) -> Seq<char>
    decreases k,
{
    if k == 0 {
        Seq::<char>::empty()
    } else {
        dump_lines(base, data, (k - 1) as nat) + dump_line(
            base + (16 * (k - 1)) as nat,
            chunk_of(data, k - 1),
        )
    }
}

/// The dump of `data` as if it started at offset `base` of a longer buffer.
pub open spec fn dump_at(base: nat, data: Seq<u8>) -> Seq<char> {
    dump_lines(base, data, line_count(data.len()))
}

/// The whole dump of `data`.
pub open spec fn spec_hex_dump(data: Seq<u8>) -> Seq<char> {
    dump_at(0, data)
}

proof fn lemma_prefix_lines(a: Seq<u8>, b: Seq<u8>, k: nat)
    requires
        16 * k <= a.len(),
    ensures
        dump_lines(0, a + b, k) == dump_lines(0, a, k),
    decreases k,
{
    if k > 0 {
        lemma_prefix_lines(a, b, (k - 1) as nat);
        let i = k - 1;
        assert(chunk_of(a + b, i) =~= chunk_of(a, i));
    }
}

proof fn lemma_suffix_lines(a: Seq<u8>, b: Seq<u8>, m: nat, j: nat)
    requires
        a.len() == 16 * m,
        j <= line_count(b.len()),
    ensures
        dump_lines(0, a + b, m + j) == dump_lines(0, a, m) + dump_lines(a.len(), b, j),
    decreases j,
{
    if j == 0 {
        lemma_prefix_lines(a, b, m);
        assert(dump_lines(0, a, m) + Seq::<char>::empty() =~= dump_lines(0, a, m));
    } else {
        lemma_suffix_lines(a, b, m, (j - 1) as nat);
        let i = (m + j - 1) as int;
        let jj = j - 1;
        assert(16 * jj < b.len());
        assert(16 * i == a.len() + 16 * jj);
        let ab = a + b;
        assert(ab.len() == a.len() + b.len());
        let e1 = if 16 * i + 16 <= ab.len() {
            16 * i + 16
        } else {
            ab.len() as int
        };
        let e2 = if 16 * jj + 16 <= b.len() {
            16 * jj + 16
        } else {
            b.len() as int
        };
        assert(e1 == a.len() + e2);
        assert(chunk_of(ab, i) == ab.subrange(16 * i, e1));
        assert(chunk_of(b, jj) == b.subrange(16 * jj, e2));
        assert(ab.subrange(16 * i, e1) =~= b.subrange(16 * jj, e2));
        assert(dump_lines(0, a + b, m + j) == dump_lines(0, a + b, (m + j - 1) as nat) + dump_line(
            (16 * i) as nat,
            chunk_of(a + b, i),
        ));
        assert((16 * i) as nat == a.len() + (16 * (j - 1)) as nat);
        assert(dump_lines(0, a, m) + dump_lines(a.len(), b, (j - 1) as nat) + dump_line(
            a.len() + (16 * (j - 1)) as nat,
            chunk_of(b, j - 1),
        ) =~= dump_lines(0, a, m) + dump_lines(a.len(), b, j));
    }
}

/// Dumps compose: when the first buffer fills whole lines, the dump of the two
/// buffers together is the dump of the first followed by the dump of the
/// second with every offset raised by the length of the first.
pub proof fn law_dump_of_concatenation(a: Seq<u8>, b: Seq<u8>)
    requires
        a.len() % 16 == 0,
    ensures
        spec_hex_dump(a + b) == spec_hex_dump(a) + dump_at(a.len(), b),
{
    let m = a.len() / 16;
    assert(line_count(a.len()) == m);
    assert(line_count((a + b).len()) == m + line_count(b.len()));
    lemma_suffix_lines(a, b, m, line_count(b.len()));
}

proof fn lemma_byte_hex_width(b: u8)
    ensures
        pad_left(spec_hex(b as nat), 2, '0').len() == 2,
{
    let n = b as nat;
    if n >= 16 {
        assert(spec_hex(n / 16).len() == 1);
    }
}

proof fn lemma_hex_cells_len(chunk: Seq<u8>)
    ensures
        hex_cells(chunk).len() == 3 * chunk.len() + (if chunk.len() >= 8 {
            1int
        } else {
            0int
        }),
    decreases chunk.len(),
{
    if chunk.len() > 0 {
        lemma_hex_cells_len(chunk.drop_last());
        lemma_byte_hex_width(chunk.last());
    }
}

proof fn lemma_gap_cells_len(len: int, k: nat)
    requires
        0 <= len,
    ensures
        gap_cells(len, k).len() == 3 * k + (if len <= 7 && 7 - len < k {
            1int
        } else {
            0int
        }),
    decreases k,
{
    if k > 0 {
        lemma_gap_cells_len(len, (k - 1) as nat);
    }
}

/// Whatever the length of a line's chunk (at most sixteen bytes), its hex
/// cells together with the blanks for the missing bytes are forty-nine
/// characters wide, so the text column of every line starts at the same place.
pub proof fn law_hex_column_width(chunk: Seq<u8>)
    requires
        chunk.len() <= 16,
    ensures
        hex_cells(chunk).len() + gap_cells(chunk.len() as int, (16 - chunk.len()) as nat).len()
            == 49,
{
    lemma_hex_cells_len(chunk);
    lemma_gap_cells_len(chunk.len() as int, (16 - chunk.len()) as nat);
}

proof fn lemma_dump_lines_prefix(base: nat, data: Seq<u8>, k: nat, m: nat)
    requires
        k <= m,
    ensures
        dump_lines(base, data, k).len() <= dump_lines(base, data, m).len(),
        dump_lines(base, data, m).take(dump_lines(base, data, k).len() as int) == dump_lines(
            base,
            data,
            k,
        ),
    decreases m,
{
    if k == m {
        assert(dump_lines(base, data, m).take(dump_lines(base, data, m).len() as int) =~= dump_lines(
            base,
            data,
            m,
        ));
    } else {
        lemma_dump_lines_prefix(base, data, k, (m - 1) as nat);
        let prev = dump_lines(base, data, (m - 1) as nat);
        let cur = dump_lines(base, data, m);
        let kk = dump_lines(base, data, k);
        assert(cur == prev + dump_line(base + (16 * (m - 1)) as nat, chunk_of(data, m - 1)));
        assert(cur.take(kk.len() as int) =~= prev.take(kk.len() as int));
    }
}

spec fn pow16(j: nat) -> nat
    decreases j,
{
    if j == 0 {
        1
    } else {
        16 * pow16((j - 1) as nat)
    }
}

proof fn lemma_hex_len(n: nat, j: nat)
    requires
        j >= 1,
        n < pow16(j),
    ensures
        spec_hex(n).len() <= j,
    decreases j,
{
    if n >= 16 {
        assert(j >= 2) by {
            if j == 1 {
                assert(pow16(0) == 1);
            }
        }
        assert(n / 16 < pow16((j - 1) as nat));
        lemma_hex_len(n / 16, (j - 1) as nat);
    }
}

/// Every line of the dump begins with the eight-digit lower-case hex numeral
/// of the index of its first byte in the buffer: line `k` follows the dump of
/// the first `16 * k` bytes, and its first eight characters are hex digits
/// that read back as `16 * k` (for buffers of up to 4 GiB).
pub proof fn law_line_offsets(data: Seq<u8>, k: nat)
    requires
        k < line_count(data.len()),
        16 * k < 0x1_0000_0000,
    ensures
        ({
            let d = spec_hex_dump(data);
            let p = spec_hex_dump(data.take((16 * k) as int));
            &&& p.len() + 8 <= d.len()
            &&& d.take(p.len() as int) == p
            &&& forall|i: int| p.len() <= i < p.len() + 8 ==> is_hex_char(#[trigger] d[i])
            &&& numeral_value(d.subrange(p.len() as int, (p.len() + 8) as int), 16) == 16 * k
        }),
{
    let n = data.len();
    let m = line_count(n);
    let a = data.take((16 * k) as int);
    let b = data.skip((16 * k) as int);
    assert(16 * k < n);
    assert(a + b =~= data);
    assert(line_count(a.len()) == k);
    lemma_prefix_lines(a, b, k);
    let p = spec_hex_dump(a);
    assert(dump_lines(0, data, k) == p);
    let off = (16 * k) as nat;
    let line = dump_line(off, chunk_of(data, k as int));
    assert(dump_lines(0, data, k + 1) == p + line);
    lemma_dump_lines_prefix(0, data, k + 1, m);
    let d = spec_hex_dump(data);
    assert(d == dump_lines(0, data, m));
    assert(d.take((p + line).len() as int) == p + line);
    // the offset numeral
    assert(pow16(0) == 1);
    assert(pow16(1) == 16);
    assert(pow16(2) == 256);
    assert(pow16(3) == 4096);
    assert(pow16(4) == 65536);
    assert(pow16(5) == 1048576);
    assert(pow16(6) == 16777216);
    assert(pow16(7) == 268435456);
    assert(pow16(8) == 0x1_0000_0000);
    lemma_hex_len(off, 8);
    let h = spec_hex(off);
    let num = pad_left(h, 8, '0');
    law_hex_numeral(off);
    law_zero_padding_keeps_value(h, 8, 16);
    assert(num.len() == 8);
    assert(line.take(8) =~= num);
    assert(d.subrange(p.len() as int, (p.len() + 8) as int) =~= num) by {
        assert forall|i: int| 0 <= i < 8 implies d.subrange(p.len() as int, (p.len() + 8) as int)[i]
            == num[i] by {
            assert(d[p.len() + i] == d.take((p + line).len() as int)[p.len() + i]);
            assert((p + line)[p.len() + i] == line[i]);
            assert(line[i] == line.take(8)[i]);
        }
    }
    let z = 8 - h.len();
    assert forall|i: int| p.len() <= i < p.len() + 8 implies is_hex_char(#[trigger] d[i]) by {
        assert(d[i] == d.subrange(p.len() as int, (p.len() + 8) as int)[i - p.len()]);
        let j = i - p.len();
        if j >= z {
            assert(num[j] == num.skip(z)[j - z]);
            assert(num.skip(z)[j - z] == h[j - z]);
        }
    }
    assert(d.take(p.len() as int) =~= p) by {
        assert forall|i: int| 0 <= i < p.len() implies d.take(p.len() as int)[i] == p[i] by {
            assert(d[i] == d.take((p + line).len() as int)[i]);
        }
    }
}

fn push_dump_line(s: &mut String, data: &[u8], start: usize, end: usize)
    requires
        start <= end <= data.len(),
        end - start <= 16,
    ensures
        final(s)@ == old(s)@ + dump_line(start as nat, data@.subrange(start as int, end as int)),
{
    let ghost chunk = data@.subrange(start as int, end as int);
    let len = end - start;
    push_hex(s, start as u64, 8);
    proof {
        reveal_strlit("  ");
        reveal_strlit("   ");
        reveal_strlit(" |");
        reveal_strlit("|\n");
    }
    push_str(s, "  ");
    let ghost before_cells = s@;
    let mut j: usize = 0;
    while j < len
        invariant
            j <= len,
            len == end - start,
            start <= end <= data.len(),
            chunk == data@.subrange(start as int, end as int),
            s@ == before_cells + hex_cells(chunk.take(j as int)),
        decreases len - j,
    {
        let b = data[start + j];
        push_hex(s, b as u64, 2);
        push_char(s, ' ');
        if j == 7 {
            push_char(s, ' ');
        }
        assert(chunk.take(j + 1).drop_last() =~= chunk.take(j as int));
        assert(chunk.take(j + 1).last() == b);
        j = j + 1;
    }
    assert(chunk.take(len as int) =~= chunk);
    let ghost before_gaps = s@;
    let missing = 16 - len;
    let mut k: usize = 0;
    while k < missing
        invariant
            k <= missing,
            missing == 16 - len,
            s@ == before_gaps + gap_cells(len as int, k as nat),
        decreases missing - k,
    {
        proof {
            reveal_strlit("   ");
        }
        push_str(s, "   ");
        if len + k == 7 {
            push_char(s, ' ');
        }
        assert(s@ =~= before_gaps + gap_cells(len as int, (k + 1) as nat));
        k = k + 1;
    }
    push_str(s, " |");
    let ghost before_text = s@;
    let mut j: usize = 0;
    while j < len
        invariant
            j <= len,
            len == end - start,
            start <= end <= data.len(),
            chunk == data@.subrange(start as int, end as int),
            s@ == before_text + text_column(chunk.take(j as int)),
        decreases len - j,
    {
        let b = data[start + j];
        let shown = (0x21 <= b && b <= 0x7e) || b == 0x20;
        if shown {
            push_char(s, b as char);
        } else {
            push_char(s, '.');
        }
        assert(text_column(chunk.take(j + 1)) =~= text_column(chunk.take(j as int)).push(text_cell(b)));
        j = j + 1;
    }
    push_str(s, "|\n");
    assert(s@ =~= old(s)@ + dump_line(start as nat, chunk));
}

/// Formats `data` as a hex dump: one line per sixteen bytes, each with the
/// offset in eight hex digits, the bytes in hex (an extra space after the
/// eighth), and the bytes as text between bars, non-printable ones as dots.
pub fn format_hex_dump(data: &[u8]) -> (result: String)
    ensures
        result@ == spec_hex_dump(data@),
{
    let mut result = String::new();
    let n = data.len();
    let lines: usize = n / 16 + if n % 16 != 0 {
        1
    } else {
        0
    };
    assert(lines == line_count(n as nat));
    let mut i: usize = 0;
    while i < lines
        invariant
            i <= lines,
            n == data.len(),
            lines == line_count(n as nat),
            result@ == dump_lines(0, data@, i as nat),
        decreases lines - i,
    {
        let start = i * 16;
        let end = if n - start < 16 {
            n
        } else {
            start + 16
        };
        push_dump_line(&mut result, data, start, end);
        assert(data@.subrange(start as int, end as int) == chunk_of(data@, i as int));
        i = i + 1;
    }
    result
}

} // verus!
