//! The matrix codec: a verified reader and writer for the standard
//! single-frame `.npy` container holding a row-major 2-D array of 32-bit
//! floats. Element values travel as IEEE-754 bit patterns (`u32`, see
//! `fbits`); byte order inside the file is little-endian (`<f4`). The parser
//! accepts both row-major (`fortran_order: False`) and column-major
//! (`fortran_order: True`) files and always yields row-major data; the
//! writer emits the canonical row-major form, padded to a 64-byte boundary.

use vstd::prelude::*;
use vstd::bytes::*;
use vstd::slice::*;
use crate::fbits::{POS_INF_BITS, NEG_INF_BITS, ZERO_BITS, spec_is_nan, spec_min, spec_max, spec_fold_min, spec_fold_max, bits_min, bits_max};

verus! {

/// The eight bytes before the header-length field: magic `\x93NUMPY` and
/// format version 1.0.
pub open spec fn magic_bytes() -> Seq<u8> {
    seq![147u8, 78u8, 85u8, 77u8, 80u8, 89u8, 1u8, 0u8]
}

/// ASCII bytes of `{'descr': '<f4', 'fortran_order': `, the fixed start of
/// the header dictionary.
pub open spec fn header_prefix() -> Seq<u8> {
    seq![
        123u8, 39u8, 100u8, 101u8, 115u8, 99u8, 114u8, 39u8, 58u8, 32u8, 39u8, 60u8, 102u8, 52u8,
        39u8, 44u8, 32u8, 39u8, 102u8, 111u8, 114u8, 116u8, 114u8, 97u8, 110u8, 95u8, 111u8,
        114u8, 100u8, 101u8, 114u8, 39u8, 58u8, 32u8,
    ]
}

/// ASCII bytes of `False`.
pub open spec fn false_bytes() -> Seq<u8> {
    seq![70u8, 97u8, 108u8, 115u8, 101u8]
}

/// ASCII bytes of `True`.
pub open spec fn true_bytes() -> Seq<u8> {
    seq![84u8, 114u8, 117u8, 101u8]
}

/// ASCII bytes of `, 'shape': (`.
pub open spec fn shape_key_bytes() -> Seq<u8> {
    seq![44u8, 32u8, 39u8, 115u8, 104u8, 97u8, 112u8, 101u8, 39u8, 58u8, 32u8, 40u8]
}

pub open spec fn is_digit(b: u8) -> bool {
    48 <= b && b <= 57
}

/// The decimal digits of `n >= 0`, most significant first.
pub open spec fn dec_bytes(n: int) -> Seq<u8>
    decreases n,
{
    if n < 10 {
        seq![(48 + n) as u8]
    } else {
        dec_bytes(n / 10).push((48 + n % 10) as u8)
    }
}

/// The value of a digit string, most significant digit first.
pub open spec fn digits_val(s: Seq<u8>) -> int
    decreases s.len(),
{
    if s.len() == 0 {
        0
    } else {
        digits_val(s.drop_last()) * 10 + (s.last() - 48)
    }
}

/// The first index at or after `i` holding a non-digit (or the end).
pub open spec fn digit_run_end(s: Seq<u8>, i: int) -> int
    decreases s.len() - i,
{
    if i < 0 {
        i
    } else if i >= s.len() || !is_digit(s[i]) {
        i
    } else {
        digit_run_end(s, i + 1)
    }
}

pub open spec fn spec_pow10(k: int) -> int
    decreases k,
{
    if k <= 0 {
        1
    } else {
        10 * spec_pow10(k - 1)
    }
}

/// Padding after the header body and before the final newline: the writer
/// pads the whole header (prolog, length field, body, padding, newline) to a
/// multiple of 64 bytes, with at least one padding byte.
pub open spec fn pad_len(body_len: int) -> int {
    64 - ((11 + body_len) % 64)
}

/// `n` space bytes.
pub open spec fn spaces(n: int) -> Seq<u8> {
    Seq::new(n as nat, |i: int| 32u8)
}

/// The digits-and-punctuation tail of the header body: `R, C)}`.
pub open spec fn shape_body(rows: int, cols: int) -> Seq<u8> {
    dec_bytes(rows) + seq![44u8, 32u8] + dec_bytes(cols) + seq![41u8, 125u8]
}

/// The header dictionary the writer emits (row-major order).
pub open spec fn header_body(rows: int, cols: int) -> Seq<u8> {
    header_prefix() + false_bytes() + shape_key_bytes() + shape_body(rows, cols)
}

/// Little-endian bytes of a word sequence, in order.
pub open spec fn le_words(data: Seq<u32>) -> Seq<u8>
    decreases data.len(),
{
    if data.len() == 0 {
        Seq::<u8>::empty()
    } else {
        le_words(data.drop_last()) + spec_u32_to_le_bytes(data.last())
    }
}

/// The exact bytes `encode` produces for a grid of shape `rows x cols` with
/// row-major element bit patterns `data`.
pub open spec fn spec_encode(rows: int, cols: int, data: Seq<u32>) -> Seq<u8> {
    let body = header_body(rows, cols);
    let pad = pad_len(body.len() as int);
    let hlen = body.len() + 1 + pad;
    magic_bytes() + seq![(hlen % 256) as u8, ((hlen / 256) % 256) as u8] + body + spaces(pad)
        + seq![10u8] + le_words(data)
}

// ---------------------------------------------------------------------------
// The parsing grammar, as one deterministic specification. `spec_parse`
// returns `Some` exactly on the byte strings the executable parser accepts,
// with the row-major model it yields.
// ---------------------------------------------------------------------------

/// The mathematical model of a parsed grid: shape and row-major bit
/// patterns.
pub ghost struct GridModel {
    pub rows: int,
    pub cols: int,
    pub data: Seq<u32>,
}

/// `False` or `True` at header offset 34; yields the layout flag and the
/// next offset.
pub open spec fn parse_fortran(h: Seq<u8>) -> Option<(bool, int)> {
    if h.len() >= 39 && h.subrange(34, 39) == false_bytes() {
        Some((false, 39))
    } else if h.len() >= 38 && h.subrange(34, 38) == true_bytes() {
        Some((true, 38))
    } else {
        None
    }
}

/// `R, C)` starting at offset `i`; yields rows, cols and the offset after
/// the closing parenthesis.
pub open spec fn parse_shape(h: Seq<u8>, i: int) -> Option<(int, int, int)> {
    let e1 = digit_run_end(h, i);
    let rows = digits_val(h.subrange(i, e1));
    if e1 == i || e1 + 2 > h.len() || h[e1] != 44 || h[e1 + 1] != 32 {
        None
    } else {
        let e2 = digit_run_end(h, e1 + 2);
        let cols = digits_val(h.subrange(e1 + 2, e2));
        if e2 == e1 + 2 || e2 >= h.len() || h[e2] != 41 {
            None
        } else {
            Some((rows, cols, e2 + 1))
        }
    }
}

/// The end of the dictionary after the shape tuple: either `}` directly or
/// `, }` (both spellings occur in the wild).
pub open spec fn dict_end(h: Seq<u8>, j: int) -> Option<int> {
    if 0 <= j && j < h.len() && h[j] == 125 {
        Some(j + 1)
    } else if 0 <= j && j + 3 <= h.len() && h[j] == 44 && h[j + 1] == 32 && h[j + 2] == 125 {
        Some(j + 3)
    } else {
        None
    }
}

/// From offset `k` on, the header holds only spaces and ends with a
/// newline.
pub open spec fn padding_ok(h: Seq<u8>, k: int) -> bool {
    &&& 0 <= k < h.len()
    &&& h[h.len() - 1] == 10
    &&& forall|t: int| k <= t < h.len() - 1 ==> h[t] == 32
}

/// The whole header dictionary: fixed prefix, layout flag, shape, dictionary
/// end, padding, newline.
pub open spec fn parse_header(h: Seq<u8>) -> Option<(bool, int, int)> {
    if h.len() < 34 || h.subrange(0, 34) != header_prefix() {
        None
    } else {
        match parse_fortran(h) {
            None => None,
            Some((fortran, i)) => {
                if i + 12 > h.len() || h.subrange(i, i + 12) != shape_key_bytes() {
                    None
                } else {
                    match parse_shape(h, i + 12) {
                        None => None,
                        Some((rows, cols, j)) => {
                            match dict_end(h, j) {
                                None => None,
                                Some(k) => {
                                    if padding_ok(h, k) {
                                        Some((fortran, rows, cols))
                                    } else {
                                        None
                                    }
                                },
                            }
                        },
                    }
                }
            },
        }
    }
}

/// The position inside the file's element area of row-major element `k`:
/// identity for row-major files, the transposed position for column-major
/// files.
pub open spec fn file_index(k: int, rows: int, cols: int, fortran: bool) -> int {
    if fortran {
        (k % cols) * rows + k / cols
    } else {
        k
    }
}

/// The word whose little-endian bytes sit at element slot `idx` after
/// offset `off`.
pub open spec fn word_at(s: Seq<u8>, off: int, idx: int) -> u32 {
    spec_u32_from_le_bytes(s.subrange(off + 4 * idx, off + 4 * idx + 4))
}

/// The parsing grammar: `Some` exactly for a well-formed single-frame
/// container whose shape fits the machine and whose element area has
/// exactly the announced size; the model's data is always row-major.
pub open spec fn spec_parse(s: Seq<u8>) -> Option<GridModel> {
    if s.len() < 10 || s.subrange(0, 8) != magic_bytes() {
        None
    } else {
        let hlen = s[8] as int + 256 * (s[9] as int);
        if s.len() < 10 + hlen {
            None
        } else {
            match parse_header(s.subrange(10, 10 + hlen)) {
                None => None,
                Some((fortran, rows, cols)) => {
                    if rows <= usize::MAX && cols <= usize::MAX && rows * cols <= usize::MAX
                        && s.len() == 10 + hlen + 4 * rows * cols {
                        Some(
                            GridModel {
                                rows: rows,
                                cols: cols,
                                data: Seq::new(
                                    (rows * cols) as nat,
                                    |k: int|
                                        word_at(s, 10 + hlen, file_index(k, rows, cols, fortran)),
                                ),
                            },
                        )
                    } else {
                        None
                    }
                },
            }
        }
    }
}

// ---------------------------------------------------------------------------
// Executable mirrors of the byte constants.
// ---------------------------------------------------------------------------

fn magic_vec() -> (v: Vec<u8>)
    ensures
        v@ == magic_bytes(),
{
    let mut v: Vec<u8> = Vec::new();
    v.push(147);
    v.push(78);
    v.push(85);
    v.push(77);
    v.push(80);
    v.push(89);
    v.push(1);
    v.push(0);
    proof {
        assert(v@ =~= magic_bytes());
    }
    v
}

fn header_prefix_vec() -> (v: Vec<u8>)
    ensures
        v@ == header_prefix(),
{
    let mut v: Vec<u8> = Vec::new();
    v.push(123);
    v.push(39);
    v.push(100);
    v.push(101);
    v.push(115);
    v.push(99);
    v.push(114);
    v.push(39);
    v.push(58);
    v.push(32);
    v.push(39);
    v.push(60);
    v.push(102);
    v.push(52);
    v.push(39);
    v.push(44);
    v.push(32);
    v.push(39);
    v.push(102);
    v.push(111);
    v.push(114);
    v.push(116);
    v.push(114);
    v.push(97);
    v.push(110);
    v.push(95);
    v.push(111);
    v.push(114);
    v.push(100);
    v.push(101);
    v.push(114);
    v.push(39);
    v.push(58);
    v.push(32);
    proof {
        assert(v@ =~= header_prefix());
    }
    v
}

fn false_vec() -> (v: Vec<u8>)
    ensures
        v@ == false_bytes(),
{
    let mut v: Vec<u8> = Vec::new();
    v.push(70);
    v.push(97);
    v.push(108);
    v.push(115);
    v.push(101);
    proof {
        assert(v@ =~= false_bytes());
    }
    v
}

fn true_vec() -> (v: Vec<u8>)
    ensures
        v@ == true_bytes(),
{
    let mut v: Vec<u8> = Vec::new();
    v.push(84);
    v.push(114);
    v.push(117);
    v.push(101);
    proof {
        assert(v@ =~= true_bytes());
    }
    v
}

fn shape_key_vec() -> (v: Vec<u8>)
    ensures
        v@ == shape_key_bytes(),
{
    let mut v: Vec<u8> = Vec::new();
    v.push(44);
    v.push(32);
    v.push(39);
    v.push(115);
    v.push(104);
    v.push(97);
    v.push(112);
    v.push(101);
    v.push(39);
    v.push(58);
    v.push(32);
    v.push(40);
    proof {
        assert(v@ =~= shape_key_bytes());
    }
    v
}

/// Renders `n` as decimal digit bytes.
fn dec_bytes_vec(n: u64) -> (v: Vec<u8>)
    ensures
        v@ == dec_bytes(n as int),
    decreases n,
{
    if n < 10 {
        let mut v: Vec<u8> = Vec::new();
        v.push((48 + n) as u8);
        proof {
            assert(v@ =~= dec_bytes(n as int));
        }
        v
    } else {
        let mut v = dec_bytes_vec(n / 10);
        v.push((48 + (n % 10)) as u8);
        proof {
            assert(v@ =~= dec_bytes(n as int));
        }
        v
    }
}

proof fn lemma_pow10_pos(k: int)
    ensures
        spec_pow10(k) >= 1,
    decreases k,
{
    if k > 0 {
        lemma_pow10_pos(k - 1);
    }
}

/// `n < 10^k` has at most `k` decimal digits.
proof fn lemma_dec_len_bound(n: int, k: int)
    requires
        0 <= n,
        1 <= k,
        n < spec_pow10(k),
    ensures
        dec_bytes(n).len() <= k,
    decreases k,
{
    if n < 10 {
    } else {
        lemma_pow10_pos(k - 1);
        assert(spec_pow10(k) == 10 * spec_pow10(k - 1));
        assert(n / 10 < spec_pow10(k - 1)) by (nonlinear_arith)
            requires
                n >= 10,
                n < 10 * spec_pow10(k - 1),
                spec_pow10(k - 1) >= 1,
        ;
        lemma_dec_len_bound(n / 10, k - 1);
    }
}

/// Any `u64` value has at most 20 decimal digits.
proof fn lemma_dec_len_u64(n: int)
    requires
        0 <= n <= u64::MAX,
    ensures
        dec_bytes(n).len() <= 20,
{
    assert(spec_pow10(20) == 100_000_000_000_000_000_000) by {
        reveal_with_fuel(spec_pow10, 21);
    }
    lemma_dec_len_bound(n, 20);
}

// ---------------------------------------------------------------------------
// The grid and its writer.
// ---------------------------------------------------------------------------

/// A 2-D grid of 32-bit element bit patterns, stored row-major.
#[derive(Debug)]
pub struct Grid {
    pub rows: usize,
    pub cols: usize,
    pub data: Vec<u32>,
}

impl Grid {
    /// Shape and storage agree.
    pub open spec fn wf(&self) -> bool {
        self.data@.len() == (self.rows as int) * (self.cols as int)
    }

    /// `(rows, cols)` of the grid.
    pub fn dimensions(&self) -> (r: (usize, usize))
        ensures
            r.0 == self.rows,
            r.1 == self.cols,
    {
        (self.rows, self.cols)
    }

    /// The element values in `(row, col)` iteration order, row by
    /// row — the order the pixel payload promises to renderers.
    pub fn flatten_row_major(&self) -> (r: &Vec<u32>)
        ensures
            r@ == self.data@,
    {
        &self.data
    }

    /// Serializes the grid as a single-frame container; the exact output is
    /// `spec_encode` of the shape and data.
    pub fn encode(&self) -> (out: Vec<u8>)
        ensures
            out@ == spec_encode(self.rows as int, self.cols as int, self.data@),
    {
        let mut out: Vec<u8> = magic_vec();
        let mut body: Vec<u8> = header_prefix_vec();
        let mut fv = false_vec();
        body.append(&mut fv);
        let mut sk = shape_key_vec();
        body.append(&mut sk);
        let mut rd = dec_bytes_vec(self.rows as u64);
        body.append(&mut rd);
        body.push(44);
        body.push(32);
        let mut cd = dec_bytes_vec(self.cols as u64);
        body.append(&mut cd);
        body.push(41);
        body.push(125);
        proof {
            assert(body@ =~= header_body(self.rows as int, self.cols as int));
            lemma_dec_len_u64(self.rows as int);
            lemma_dec_len_u64(self.cols as int);
        }
        let blen = body.len();
        let pad = 64 - ((11 + blen) % 64);
        let hlen = blen + 1 + pad;
        out.push((hlen % 256) as u8);
        out.push(((hlen / 256) % 256) as u8);
        let ghost body_snap = body@;
        out.append(&mut body);
        let ghost head_snap = out@;
        let mut i: usize = 0;
        while i < pad
            invariant
                i <= pad,
                out@ == head_snap + spaces(i as int),
            decreases pad - i,
        {
            out.push(32);
            proof {
                assert(spaces(i + 1) =~= spaces(i as int).push(32u8));
            }
            i = i + 1;
        }
        out.push(10);
        let ghost pre_data = out@;
        let n = self.data.len();
        let mut k: usize = 0;
        while k < n
            invariant
                k <= n,
                n == self.data@.len(),
                out@ == pre_data + le_words(self.data@.take(k as int)),
            decreases n - k,
        {
            let mut wb = u32_to_le_bytes(self.data[k]);
            out.append(&mut wb);
            proof {
                assert(self.data@.take(k as int + 1).drop_last() =~= self.data@.take(k as int));
                assert(self.data@.take(k as int + 1).last() == self.data@[k as int]);
            }
            k = k + 1;
        }
        proof {
            assert(self.data@.take(n as int) =~= self.data@);
            assert(out@ =~= spec_encode(self.rows as int, self.cols as int, self.data@));
        }
        out
    }
}

// ---------------------------------------------------------------------------
// The parser.
// ---------------------------------------------------------------------------

/// A malformed container: anything `spec_parse` refuses.
#[derive(Debug, Clone, Copy, PartialEq, Eq, Structural)]
pub struct DecodeError;

proof fn lemma_digits_val_snoc(s: Seq<u8>, i: int, j: int)
    requires
        0 <= i <= j < s.len(),
    ensures
        digits_val(s.subrange(i, j + 1)) == digits_val(s.subrange(i, j)) * 10 + (s[j] - 48),
{
    assert(s.subrange(i, j + 1).drop_last() =~= s.subrange(i, j));
    assert(s.subrange(i, j + 1).last() == s[j]);
}

proof fn lemma_digit_run_end_of(s: Seq<u8>, i: int, j: int)
    requires
        0 <= i <= j <= s.len(),
        forall|t: int| i <= t < j ==> is_digit(s[t]),
        j == s.len() || !is_digit(s[j]),
    ensures
        digit_run_end(s, i) == j,
    decreases j - i,
{
    if i < j {
        lemma_digit_run_end_of(s, i + 1, j);
    }
}

/// Reads the maximal digit run starting at `start`: its value and end, or
/// `None` when there is no digit or the value does not fit the machine.
fn scan_number(s: &[u8], start: usize) -> (r: Option<(usize, usize)>)
    requires
        start <= s@.len(),
    ensures
        ({
            let e = digit_run_end(s@, start as int);
            let v = digits_val(s@.subrange(start as int, e));
            match r {
                Some(p) => p.1 == e && p.0 == v && e > start && e <= s@.len(),
                None => (e == start || v > usize::MAX) && start <= e <= s@.len(),
            }
        }),
{
    let n = s.len();
    let mut j = start;
    let mut acc: usize = 0;
    let mut over = false;
    while j < n && 48 <= s[j] && s[j] <= 57
        invariant
            start <= j <= n,
            n == s@.len(),
            forall|t: int| start <= t < j ==> is_digit(s@[t]),
            !over ==> acc == digits_val(s@.subrange(start as int, j as int)),
            over ==> digits_val(s@.subrange(start as int, j as int)) > usize::MAX,
        decreases n - j,
    {
        let d = s[j] - 48;
        proof {
            lemma_digits_val_snoc(s@, start as int, j as int);
        }
        if !over {
            if acc > (usize::MAX - d as usize) / 10 {
                over = true;
                proof {
                    let q = (usize::MAX - d) as int / 10;
                    assert(10 * q <= usize::MAX - d);
                    assert(acc * 10 >= (q + 1) * 10);
                }
            } else {
                proof {
                    let q = (usize::MAX - d) as int / 10;
                    assert(10 * q <= usize::MAX - d);
                    assert(acc * 10 <= q * 10);
                }
                acc = acc * 10 + d as usize;
            }
        }
        j = j + 1;
    }
    proof {
        lemma_digit_run_end_of(s@, start as int, j as int);
    }
    if j == start {
        None
    } else if over {
        None
    } else {
        Some((acc, j))
    }
}

/// `pat` occurs in `s` at offset `off`.
fn bytes_eq_at(s: &[u8], off: usize, pat: &Vec<u8>) -> (r: bool)
    requires
        off + pat@.len() <= s@.len(),
    ensures
        r == (s@.subrange(off as int, off as int + pat@.len() as int) == pat@),
{
    let m = pat.len();
    let n = s.len();
    let mut i: usize = 0;
    while i < m
        invariant
            i <= m,
            m == pat@.len(),
            n == s@.len(),
            off + m <= n,
            forall|t: int| 0 <= t < i ==> s@[off + t] == pat@[t],
        decreases m - i,
    {
        if s[off + i] != pat[i] {
            proof {
                assert(s@.subrange(off as int, off as int + m as int)[i as int] == s@[off + i]);
            }
            return false;
        }
        i = i + 1;
    }
    proof {
        assert(s@.subrange(off as int, off as int + m as int) =~= pat@);
    }
    true
}

/// Parses the header dictionary slice; `None` when the grammar
/// (`parse_header`) refuses it or when a shape number does not fit the
/// machine.
#[verifier::rlimit(50)]
#[verifier::loop_isolation(false)]
fn parse_header_exec(h: &[u8]) -> (r: Option<(bool, usize, usize)>)
    ensures
        match r {
            Some(p) => parse_header(h@) == Some((p.0, p.1 as int, p.2 as int)),
            None => parse_header(h@) is None || (parse_header(h@) matches Some(q) && (q.1
                > usize::MAX || q.2 > usize::MAX)),
        },
{
    let hlen = h.len();
    let ghost hs = h@;
    if hlen < 34 {
        return None;
    }
    let pv = header_prefix_vec();
    if !bytes_eq_at(h, 0, &pv) {
        return None;
    }
    let fv = false_vec();
    let tv = true_vec();
    let fortran: bool;
    let i2: usize;
    if hlen >= 39 && bytes_eq_at(h, 34, &fv) {
        fortran = false;
        i2 = 39;
    } else if hlen >= 38 && bytes_eq_at(h, 34, &tv) {
        fortran = true;
        i2 = 38;
        proof {
            if hlen >= 39 && hs.subrange(34, 39) == false_bytes() {
                assert(hs.subrange(34, 39)[0] == hs[34]);
                assert(hs.subrange(34, 38)[0] == hs[34]);
            }
        }
    } else {
        return None;
    }
    proof {
        assert(parse_fortran(hs) == Some((fortran, i2 as int)));
    }
    if i2 + 12 > hlen {
        return None;
    }
    let skv = shape_key_vec();
    if !bytes_eq_at(h, i2, &skv) {
        return None;
    }
    let (rows_v, e1) = match scan_number(h, i2 + 12) {
        None => {
            proof {
                let ii = (i2 + 12) as int;
                let e1s = digit_run_end(hs, ii);
                let v = digits_val(hs.subrange(ii, e1s));
                if e1s != ii {
                    assert(v > usize::MAX);
                    if parse_header(hs) is Some {
                        assert(parse_header(hs)->Some_0.1 == v);
                    }
                }
            }
            return None;
        },
        Some(p) => p,
    };
    if e1 > hlen - 2 || h[e1] != 44 || h[e1 + 1] != 32 {
        return None;
    }
    let (cols_v, e2) = match scan_number(h, e1 + 2) {
        None => {
            proof {
                let ii = (e1 + 2) as int;
                let e2s = digit_run_end(hs, ii);
                let v = digits_val(hs.subrange(ii, e2s));
                if e2s != ii {
                    assert(v > usize::MAX);
                    if parse_header(hs) is Some {
                        assert(parse_header(hs)->Some_0.2 == v);
                    }
                }
            }
            return None;
        },
        Some(p) => p,
    };
    if e2 >= hlen || h[e2] != 41 {
        return None;
    }
    let jj = e2 + 1;
    proof {
        assert(parse_shape(hs, (i2 + 12) as int) == Some(
            (rows_v as int, cols_v as int, jj as int),
        ));
    }
    let kk: usize;
    if jj < hlen && h[jj] == 125 {
        kk = jj + 1;
    } else if jj <= hlen - 3 && h[jj] == 44 && h[jj + 1] == 32 && h[jj + 2] == 125 {
        kk = jj + 3;
    } else {
        return None;
    }
    proof {
        assert(dict_end(hs, jj as int) == Some(kk as int));
    }
    if kk >= hlen {
        return None;
    }
    if h[hlen - 1] != 10 {
        return None;
    }
    let mut t = kk;
    while t < hlen - 1
        invariant
            kk <= t <= hlen - 1,
            forall|u: int| kk <= u < t ==> hs[u] == 32,
        decreases hlen - t,
    {
        if h[t] != 32 {
            return None;
        }
        t = t + 1;
    }
    proof {
        assert(padding_ok(hs, kk as int));
        assert(parse_header(hs) == Some((fortran, rows_v as int, cols_v as int)));
    }
    Some((fortran, rows_v, cols_v))
}

/// Parses a single-frame container into a grid. Succeeds exactly on the
/// byte strings of the grammar `spec_parse`, and then returns exactly the
/// model's shape and row-major data.
#[verifier::rlimit(50)]
#[verifier::loop_isolation(false)]
pub fn parse(bytes: &[u8]) -> (r: Result<Grid, DecodeError>)
    ensures
        r is Ok <==> spec_parse(bytes@) is Some,
        r matches Ok(g) ==> spec_parse(bytes@) matches Some(m) && g.rows == m.rows && g.cols
            == m.cols && g.data@ == m.data && g.wf(),
{
    let n = bytes.len();
    if n < 10 {
        return Err(DecodeError);
    }
    let mv = magic_vec();
    if !bytes_eq_at(bytes, 0, &mv) {
        return Err(DecodeError);
    }
    let hlen: usize = bytes[8] as usize + 256 * (bytes[9] as usize);
    if n - 10 < hlen {
        return Err(DecodeError);
    }
    let h = slice_subrange(bytes, 10, 10 + hlen);
    let ghost hs = h@;
    proof {
        assert(hs == bytes@.subrange(10, 10 + hlen as int));
    }
    let (fortran, rows_v, cols_v) = match parse_header_exec(h) {
        None => {
            proof {
                assert(spec_parse(bytes@) is None);
            }
            return Err(DecodeError);
        },
        Some(p) => p,
    };
    let total = match rows_v.checked_mul(cols_v) {
        None => {
            return Err(DecodeError);
        },
        Some(x) => x,
    };
    let db = match total.checked_mul(4) {
        None => {
            proof {
                assert(4 * (rows_v as int) * (cols_v as int) == 4 * (total as int))
                    by (nonlinear_arith)
                    requires
                        total as int == (rows_v as int) * (cols_v as int),
                ;
                assert(4 * (rows_v as int) * (cols_v as int) > usize::MAX);
                assert(bytes@.len() != 10 + hlen as int + 4 * (rows_v as int) * (cols_v as int));
                assert(spec_parse(bytes@) is None);
            }
            return Err(DecodeError);
        },
        Some(x) => x,
    };
    if n - 10 - hlen != db {
        proof {
            assert(4 * (rows_v as int) * (cols_v as int) == 4 * (total as int))
                by (nonlinear_arith)
                requires
                    total as int == (rows_v as int) * (cols_v as int),
            ;
            assert(bytes@.len() != 10 + hlen as int + 4 * (rows_v as int) * (cols_v as int));
            assert(spec_parse(bytes@) is None);
        }
        return Err(DecodeError);
    }
    let off = 10 + hlen;
    proof {
        assert(bytes@.len() >= 10);
        assert(bytes@.subrange(0, 8) == magic_bytes());
        assert(hlen as int == bytes@[8] as int + 256 * (bytes@[9] as int));
        assert(bytes@.len() >= 10 + hlen as int);
        assert(parse_header(bytes@.subrange(10, 10 + hlen as int)) == Some(
            (fortran, rows_v as int, cols_v as int),
        ));
            assert(4 * (rows_v as int) * (cols_v as int) == 4 * (total as int))
                by (nonlinear_arith)
                requires
                    total as int == (rows_v as int) * (cols_v as int),
            ;
        assert(bytes@.len() == 10 + hlen as int + 4 * (rows_v as int) * (cols_v as int));
        assert(spec_parse(bytes@) matches Some(m) && m.rows == rows_v as int && m.cols == cols_v
            as int);
    }
    let ghost model = spec_parse(bytes@)->Some_0;
    let mut data: Vec<u32> = Vec::new();
    let mut k2: usize = 0;
    while k2 < total
        invariant
            k2 <= total,
            total == (rows_v as int) * (cols_v as int),
            4 * total == db,
            off == 10 + hlen,
            off + db == n,
            n == bytes@.len(),
            data@.len() == k2,
            forall|t2: int| 0 <= t2 < k2 ==> data@[t2] == word_at(
                bytes@,
                off as int,
                file_index(t2, rows_v as int, cols_v as int, fortran),
            ),
        decreases total - k2,
    {
        let src: usize;
        if fortran {
            proof {
                assert(cols_v > 0) by (nonlinear_arith)
                    requires
                        total == (rows_v as int) * (cols_v as int),
                        k2 < total,
                ;
                assert(((k2 as int) % (cols_v as int)) * (rows_v as int) + (k2 as int) / (
                cols_v as int) < total) by (nonlinear_arith)
                    requires
                        total == (rows_v as int) * (cols_v as int),
                        0 <= k2 < total,
                        cols_v > 0,
                ;
            }
            src = (k2 % cols_v) * rows_v + k2 / cols_v;
        } else {
            src = k2;
        }
        let pos = off + 4 * src;
        let w = u32_from_le_bytes(slice_subrange(bytes, pos, pos + 4));
        data.push(w);
        k2 = k2 + 1;
    }
    let g = Grid { rows: rows_v, cols: cols_v, data };
    proof {
        assert(g.data@ =~= model.data);
    }
    Ok(g)
}

// ---------------------------------------------------------------------------
// Reductions and endpoint models.
// ---------------------------------------------------------------------------

/// The min/max reduction of a grid, as element bit patterns. Both folds are
/// seeded at the appropriate infinity (never at `0` or at the first
/// element), so all-negative and all-same-sign data reduce correctly; NaN
/// elements are ignored by the fold.
#[derive(Debug, Clone, Copy, PartialEq, Eq, Structural)]
pub struct Reduction {
    pub min_temp: u32,
    pub max_temp: u32,
}

impl Grid {
    /// Folds minimum and maximum over all elements in row-major order.
    pub fn reduce(&self) -> (r: Reduction)
        ensures
            r.min_temp == spec_fold_min(self.data@),
            r.max_temp == spec_fold_max(self.data@),
    {
        let mut mn: u32 = POS_INF_BITS;
        let mut mx: u32 = NEG_INF_BITS;
        let n = self.data.len();
        let mut i: usize = 0;
        while i < n
            invariant
                i <= n,
                n == self.data@.len(),
                mn == spec_fold_min(self.data@.take(i as int)),
                mx == spec_fold_max(self.data@.take(i as int)),
            decreases n - i,
        {
            mn = bits_min(mn, self.data[i]);
            mx = bits_max(mx, self.data[i]);
            proof {
                assert(self.data@.take(i + 1).drop_last() =~= self.data@.take(i as int));
                assert(self.data@.take(i + 1).last() == self.data@[i as int]);
            }
            i = i + 1;
        }
        proof {
            assert(self.data@.take(n as int) =~= self.data@);
        }
        Reduction { min_temp: mn, max_temp: mx }
    }
}

/// A grid holding the single non-NaN value `v` reduces to `v` for both the
/// minimum and the maximum.
pub proof fn lemma_reduce_singleton(v: u32)
    requires
        !spec_is_nan(v),
    ensures
        spec_fold_min(seq![v]) == v,
        spec_fold_max(seq![v]) == v,
{
    assert(seq![v].drop_last() =~= Seq::<u32>::empty());
    assert(seq![v].last() == v);
    assert(POS_INF_BITS == 0x7F80_0000u32);
    assert(NEG_INF_BITS == 0xFF80_0000u32);
    assert(0x7F80_0000u32 & 0x7F80_0000 == 0x7F80_0000) by (bit_vector);
    assert(0x7F80_0000u32 & 0x007F_FFFF == 0) by (bit_vector);
    assert(0xFF80_0000u32 & 0x7F80_0000 == 0x7F80_0000) by (bit_vector);
    assert(0xFF80_0000u32 & 0x007F_FFFF == 0) by (bit_vector);
    assert(0x7F80_0000u32 & 0x7FFF_FFFF == 0x7F80_0000) by (bit_vector);
    assert(0xFF80_0000u32 & 0x7FFF_FFFF == 0x7F80_0000) by (bit_vector);
    assert(0x7F80_0000u32 & 0x8000_0000 == 0) by (bit_vector);
    assert(0xFF80_0000u32 & 0x8000_0000 != 0) by (bit_vector);
    assert(!(v & 0x7F80_0000 == 0x7F80_0000 && v & 0x007F_FFFF != 0) ==> (v & 0x7FFF_FFFF)
        <= 0x7F80_0000) by (bit_vector);
    assert(v & 0x8000_0000 == 0 ==> v == (v & 0x7FFF_FFFF)) by (bit_vector);
    assert((v & 0x8000_0000 != 0 && (v & 0x7FFF_FFFF) == 0x7F80_0000) ==> v == 0xFF80_0000)
        by (bit_vector);
    assert(spec_min(POS_INF_BITS, v) == v);
    assert(spec_max(NEG_INF_BITS, v) == v);
    assert(spec_fold_min(Seq::<u32>::empty()) == POS_INF_BITS);
    assert(spec_fold_max(Seq::<u32>::empty()) == NEG_INF_BITS);
    assert(spec_fold_min(seq![v]) == spec_min(spec_fold_min(seq![v].drop_last()), v));
    assert(spec_fold_max(seq![v]) == spec_max(spec_fold_max(seq![v].drop_last()), v));
}

/// Peak temperature of an uploaded capture: the maximum over the decoded
/// grid, or the bit pattern of `0.0` when the payload cannot be decoded — a
/// malformed capture must not fail the upload itself.
pub open spec fn spec_max_temp_of(s: Seq<u8>) -> u32 {
    match spec_parse(s) {
        Some(m) => spec_fold_max(m.data),
        None => ZERO_BITS,
    }
}

/// Executable form of `spec_max_temp_of`.
pub fn max_temp_of(bytes: &[u8]) -> (r: u32)
    ensures
        r == spec_max_temp_of(bytes@),
{
    match parse(bytes) {
        Ok(g) => g.reduce().max_temp,
        Err(_) => 0,
    }
}

/// Why a heat-map query failed: an undecodable file (a server-side error)
/// or a frame index other than 0 (a client error — files are single-frame).
#[derive(Debug, Clone, Copy, PartialEq, Eq, Structural)]
pub enum FrameQueryError {
    Malformed,
    BadFrameIndex,
}

/// The heat-map payload for a frame: dimensions, extremes and the pixel bit
/// patterns in row-major order — everything a renderer needs without
/// further metadata.
#[derive(Debug)]
pub struct FrameData {
    pub width: usize,
    pub height: usize,
    pub min_temp: u32,
    pub max_temp: u32,
    pub pixels: Vec<u32>,
}

/// Decodes a capture and answers a heat-map query for one frame. A
/// malformed file is reported before the frame index is looked at; any
/// index other than 0 is refused, since the store only ever holds
/// single-frame files.
pub fn matrix_frame(bytes: &[u8], frame_index: usize) -> (r: Result<FrameData, FrameQueryError>)
    ensures
        spec_parse(bytes@) is None ==> r == Err::<FrameData, FrameQueryError>(
            FrameQueryError::Malformed,
        ),
        spec_parse(bytes@) is Some && frame_index != 0 ==> r == Err::<FrameData, FrameQueryError>(
            FrameQueryError::BadFrameIndex,
        ),
        frame_index == 0 ==> (spec_parse(bytes@) matches Some(m) ==> (r matches Ok(f)
            && f.width == m.cols && f.height == m.rows && f.min_temp == spec_fold_min(m.data)
            && f.max_temp == spec_fold_max(m.data) && f.pixels@ == m.data)),
{
    let g = match parse(bytes) {
        Err(_) => {
            return Err(FrameQueryError::Malformed);
        },
        Ok(g) => g,
    };
    if frame_index > 0 {
        return Err(FrameQueryError::BadFrameIndex);
    }
    let red = g.reduce();
    Ok(
        FrameData {
            width: g.cols,
            height: g.rows,
            min_temp: red.min_temp,
            max_temp: red.max_temp,
            pixels: g.data,
        },
    )
}

// ---------------------------------------------------------------------------
// The round trip: parsing what the writer produced yields the grid back.
// ---------------------------------------------------------------------------

proof fn lemma_le_words_len(data: Seq<u32>)
    ensures
        le_words(data).len() == 4 * data.len(),
    decreases data.len(),
{
    vstd::bytes::lemma_auto_spec_u32_to_from_le_bytes();
    if data.len() > 0 {
        lemma_le_words_len(data.drop_last());
        assert(spec_u32_to_le_bytes(data.last()).len() == 4);
    }
}

proof fn lemma_le_words_index(data: Seq<u32>, k: int)
    requires
        0 <= k < data.len(),
    ensures
        le_words(data).subrange(4 * k, 4 * k + 4) =~= spec_u32_to_le_bytes(data[k]),
    decreases data.len(),
{
    lemma_le_words_len(data);
    lemma_le_words_len(data.drop_last());
    vstd::bytes::lemma_auto_spec_u32_to_from_le_bytes();
    if k == data.len() - 1 {
        assert(le_words(data) == le_words(data.drop_last()) + spec_u32_to_le_bytes(data.last()));
        assert(le_words(data).subrange(4 * k, 4 * k + 4) =~= spec_u32_to_le_bytes(data.last()));
    } else {
        lemma_le_words_index(data.drop_last(), k);
        assert(data.drop_last()[k] == data[k]);
        assert(le_words(data).subrange(4 * k, 4 * k + 4) =~= le_words(data.drop_last()).subrange(
            4 * k,
            4 * k + 4,
        ));
    }
}

proof fn lemma_dec_bytes_digits(n: int)
    requires
        0 <= n,
    ensures
        dec_bytes(n).len() >= 1,
        forall|i: int| 0 <= i < dec_bytes(n).len() ==> is_digit(#[trigger] dec_bytes(n)[i]),
    decreases n,
{
    if n >= 10 {
        lemma_dec_bytes_digits(n / 10);
        assert forall|i: int| 0 <= i < dec_bytes(n).len() implies is_digit(
            #[trigger] dec_bytes(n)[i],
        ) by {
            if i < dec_bytes(n).len() - 1 {
                assert(dec_bytes(n)[i] == dec_bytes(n / 10)[i]);
            }
        }
    }
}

proof fn lemma_digits_val_dec_bytes(n: int)
    requires
        0 <= n,
    ensures
        digits_val(dec_bytes(n)) == n,
    decreases n,
{
    if n < 10 {
        assert(dec_bytes(n) == seq![(48 + n) as u8]);
        assert(dec_bytes(n).drop_last() =~= Seq::<u8>::empty());
        assert(digits_val(Seq::<u8>::empty()) == 0);
        assert(dec_bytes(n).last() == (48 + n) as u8);
        assert(digits_val(dec_bytes(n)) == digits_val(dec_bytes(n).drop_last()) * 10 + ((48
            + n) as u8 - 48));
    } else {
        lemma_digits_val_dec_bytes(n / 10);
        assert(dec_bytes(n) == dec_bytes(n / 10).push((48 + n % 10) as u8));
        assert(dec_bytes(n).drop_last() =~= dec_bytes(n / 10));
        assert(dec_bytes(n).last() == (48 + n % 10) as u8);
        assert(digits_val(dec_bytes(n)) == digits_val(dec_bytes(n).drop_last()) * 10 + ((48 + n
            % 10) as u8 - 48));
    }
}

/// The round trip of the codec: the writer's exact output is accepted by
/// the parsing grammar, and the parsed model returns the same shape and the
/// same row-major element bit patterns. Together with the contracts of
/// `encode` and `parse` this carries over to the executable pair.
#[verifier::rlimit(100)]
pub proof fn lemma_parse_inverts_encode(rows: int, cols: int, data: Seq<u32>)
    requires
        0 <= rows <= usize::MAX,
        0 <= cols <= usize::MAX,
        rows * cols <= usize::MAX,
        data.len() == rows * cols,
    ensures
        spec_parse(spec_encode(rows, cols, data)) matches Some(m) && m.rows == rows && m.cols
            == cols && m.data == data,
{
    let body = header_body(rows, cols);
    let pad = pad_len(body.len() as int);
    let hlen = body.len() + 1 + pad;
    let s = spec_encode(rows, cols, data);
    let dr = dec_bytes(rows);
    let dc = dec_bytes(cols);
    let dl_r = dr.len() as int;
    let dl_c = dc.len() as int;
    lemma_dec_bytes_digits(rows);
    lemma_dec_bytes_digits(cols);
    lemma_digits_val_dec_bytes(rows);
    lemma_digits_val_dec_bytes(cols);
    lemma_le_words_len(data);
    assert(usize::MAX <= u64::MAX);
    lemma_dec_len_u64(rows);
    lemma_dec_len_u64(cols);
    assert(body.len() == 34 + 5 + 12 + dl_r + 2 + dl_c + 2);
    assert(1 <= pad <= 64);
    assert(hlen < 65536);
    assert(s.len() == 10 + hlen + 4 * data.len());
    assert(4 * (rows * cols) == 4 * rows * cols) by (nonlinear_arith);
    // The prolog.
    assert(s.subrange(0, 8) =~= magic_bytes());
    assert(s[8] == (hlen % 256) as u8);
    assert(s[9] == ((hlen / 256) % 256) as u8);
    assert(s[8] as int + 256 * (s[9] as int) == hlen);
    // The header slice.
    let h = s.subrange(10, 10 + hlen as int);
    assert(h =~= body + spaces(pad) + seq![10u8]);
    assert(h.len() == hlen);
    assert(h.subrange(0, 34) =~= header_prefix());
    assert(h.subrange(34, 39) =~= false_bytes());
    assert(parse_fortran(h) == Some((false, 39int)));
    assert(h.subrange(39, 51) =~= shape_key_bytes());
    // The shape numbers.
    assert(h.subrange(51, 51 + dl_r) =~= dr);
    assert forall|t: int| 51 <= t < 51 + dl_r implies is_digit(h[t]) by {
        assert(h[t] == dr[t - 51]);
    }
    assert(h[51 + dl_r] == 44);
    assert(!is_digit(h[51 + dl_r]));
    lemma_digit_run_end_of(h, 51, 51 + dl_r);
    let e1 = 51 + dl_r;
    assert(digits_val(h.subrange(51, e1)) == rows);
    assert(h[e1 + 1] == 32);
    assert(h.subrange(e1 + 2, e1 + 2 + dl_c) =~= dc);
    assert forall|t: int| e1 + 2 <= t < e1 + 2 + dl_c implies is_digit(h[t]) by {
        assert(h[t] == dc[t - (e1 + 2)]);
    }
    let e2 = e1 + 2 + dl_c;
    assert(h[e2] == 41);
    assert(!is_digit(h[e2]));
    lemma_digit_run_end_of(h, e1 + 2, e2);
    assert(digits_val(h.subrange(e1 + 2, e2)) == cols);
    assert(parse_shape(h, 51) == Some((rows, cols, e2 + 1)));
    // Dictionary end and padding.
    let j = e2 + 1;
    assert(h[j] == 125);
    assert(dict_end(h, j) == Some(j + 1));
    let k = j + 1;
    assert(k == body.len());
    assert(hlen - 1 == body.len() + pad);
    assert forall|t: int| k <= t < hlen - 1 implies h[t] == 32 by {
        assert(h[t] == spaces(pad)[t - body.len()]);
    }
    assert(h[hlen - 1] == 10);
    assert(padding_ok(h, k));
    assert(parse_header(h) == Some((false, rows, cols)));
    // The guards and the data.
    assert(s.len() == 10 + hlen + 4 * rows * cols);
    assert(spec_parse(s) matches Some(m) && m.rows == rows && m.cols == cols);
    let m = spec_parse(s)->Some_0;
    vstd::bytes::lemma_auto_spec_u32_to_from_le_bytes();
    assert forall|q: int| 0 <= q < rows * cols implies m.data[q] == data[q] by {
        lemma_le_words_index(data, q);
        let off = 10 + hlen as int;
        assert(s.subrange(off + 4 * q, off + 4 * q + 4) =~= le_words(data).subrange(
            4 * q,
            4 * q + 4,
        ));
        assert(m.data[q] == word_at(s, off, q));
    }
    assert(m.data =~= data);
}

} // verus!
