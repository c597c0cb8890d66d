//! Backups read from the bytes of an `.npy` file: npyz parses the header,
//! the library reads the first record that follows it.
use vstd::prelude::*;

use crate::arrays::{shape_product, shape_to_length};
use crate::experiment::backup::backup::BackUp;
use crate::experiment::backup::deserializer::{backup_at, reboot_seed_len, BackupReader};
use crate::experiment::backup::layout::{backup_lengths, LayoutField, PlainType, RecordLayout};
use crate::measurements::backup::backup_fragments::RUN_INFO_BYTES;
use crate::measurements::measurement_types::save_edges::{as_backup, SaveEdges, SaveEdgesReader};

verus! {

#[verifier::external_type_specification]
#[verifier::external_body]
pub struct ExDType(npyz::DType);

/// The header of the `.npy` file whose bytes are `bytes`, as npyz reads it:
/// the record layout of its rows, the number of bytes that follow the
/// header, and the number of rows.
pub uninterp spec fn npy_header_of(bytes: Seq<u8>) -> Option<(RecordLayout, usize, u64)>;

/// The header of `bytes` with the offset of the first row in place of the
/// number of bytes that follow the header.
pub open spec fn npy_header_at(bytes: Seq<u8>) -> Option<(RecordLayout, usize, u64)> {
    match npy_header_of(bytes) {
        Some((l, rest, n)) => Some((l, (bytes.len() - rest) as usize, n)),
        None => None,
    }
}

/// Converts an npyz dtype to the library's record layout, variant for
/// variant; a scalar keeps its type string and npyz's size for it.
#[verifier::external_body]
fn layout_of_dtype(dtype: &npyz::DType) -> RecordLayout {
    match dtype {
        npyz::DType::Plain(t) => RecordLayout::Plain(PlainType { descr: t.to_string(), size: t.num_bytes() }),
        npyz::DType::Array(n, inner) => RecordLayout::Array(*n, Box::new(layout_of_dtype(inner))),
        npyz::DType::Record(fs) => RecordLayout::Record(
            fs.iter().map(|f| LayoutField { name: f.name.clone(), layout: layout_of_dtype(&f.dtype) }).collect(),
        ),
    }
}

/// Longest header text the library hands to npyz.
pub const MAX_HEADER_TEXT: usize = 65536;

/// Deepest bracket nesting allowed in a header text.
pub const MAX_HEADER_DEPTH: i64 = 10;

/// Most commas allowed in a header text.
pub const MAX_HEADER_COMMAS: u32 = 1024;

/// Where the header text of an `.npy` file's bytes lies, as (start, length):
/// after the magic string, the version (1.0 with a 2-byte length, 2.0 or
/// 3.0 with a 4-byte length, little-endian) and the length itself. `None`
/// where the bytes do not begin so (npyz then refuses them before it reads
/// any text).
pub open spec fn npy_text_range(b: Seq<u8>) -> Option<(int, int)> {
    if b.len() >= 8 && b[0] == 0x93u8 && b[1] == 78u8 && b[2] == 85u8 && b[3] == 77u8 && b[4] == 80u8
        && b[5] == 89u8 && b[7] == 0u8 {
        if b[6] == 1u8 && b.len() >= 10 {
            Some((10int, b[8] + 256 * b[9]))
        } else if (b[6] == 2u8 || b[6] == 3u8) && b.len() >= 12 {
            Some((12int, b[8] + 256 * b[9] + 65536 * b[10] + 16777216 * b[11]))
        } else {
            None
        }
    } else {
        None
    }
}

pub open spec fn is_digit_byte(b: u8) -> bool {
    48 <= b <= 57
}

/// Bytes that may stand next to a number in a header text: whitespace,
/// brackets, commas and colons.
pub open spec fn is_separator_byte(b: u8) -> bool {
    b == 32 || b == 9 || b == 12 || b == 10 || b == 13 || b == 40 || b == 41 || b == 91 || b == 93 || b == 123
        || b == 125 || b == 44 || b == 58
}

/// The state of a left-to-right reading of a header text: the quote that
/// opened the string being read (`0` outside strings), the bracket depth, the
/// number of commas, the previous byte, the number being read (if any), the
/// product of the non-zero numbers met at depth 2, and whether the text has
/// kept to the rules so far.
pub struct HeaderScan {
    pub quote: u8,
    pub depth: int,
    pub commas: nat,
    pub prev: u8,
    pub in_run: bool,
    pub run: nat,
    pub prod: nat,
    pub ok: bool,
}

pub open spec fn scan_start() -> HeaderScan {
    HeaderScan { quote: 0, depth: 0, commas: 0, prev: 32, in_run: false, run: 0, prod: 1, ok: true }
}

/// One byte of the reading. The rules: no backslash; outside strings no `+`
/// or `-`; a number (a run of digits outside strings) has separators on both
/// sides and fits in a `u64`; the product of the non-zero numbers at depth 2
/// fits in a `u64`; the depth stays at most `MAX_HEADER_DEPTH` and the commas
/// at most `MAX_HEADER_COMMAS`.
pub open spec fn scan_step(s: HeaderScan, b: u8) -> HeaderScan {
    if !s.ok {
        s
    } else if b == 92 {
        HeaderScan { ok: false, ..s }
    } else if s.quote != 0 {
        HeaderScan { quote: if b == s.quote { 0 } else { s.quote }, prev: b, ..s }
    } else if is_digit_byte(b) {
        if s.in_run {
            let run = s.run * 10 + (b - 48);
            HeaderScan { run: run as nat, prev: b, ok: run <= u64::MAX, ..s }
        } else {
            HeaderScan { in_run: true, run: (b - 48) as nat, prev: b, ok: is_separator_byte(s.prev), ..s }
        }
    } else {
        let prod = if s.in_run && s.depth == 2 && s.run != 0 {
            s.prod * s.run
        } else {
            s.prod
        };
        let depth = if b == 40 || b == 91 || b == 123 {
            s.depth + 1
        } else if b == 41 || b == 93 || b == 125 {
            s.depth - 1
        } else {
            s.depth
        };
        let commas = if b == 44 {
            s.commas + 1
        } else {
            s.commas
        };
        HeaderScan {
            quote: if b == 39 || b == 34 { b } else { 0 },
            depth,
            commas,
            prev: b,
            in_run: false,
            run: 0,
            prod,
            ok: (!s.in_run || is_separator_byte(b)) && b != 43 && b != 45 && prod <= u64::MAX
                && depth <= MAX_HEADER_DEPTH && commas <= MAX_HEADER_COMMAS,
        }
    }
}

/// The reading of the whole of `t`.
pub open spec fn scan_text(t: Seq<u8>) -> HeaderScan
    decreases t.len(),
{
    if t.len() == 0 {
        scan_start()
    } else {
        scan_step(scan_text(t.drop_last()), t.last())
    }
}

/// `t` keeps to the rules of `scan_step`, a number at its very end included.
pub open spec fn header_text_ok(t: Seq<u8>) -> bool {
    let s = scan_text(t);
    &&& s.ok
    &&& (s.in_run && s.depth == 2 && s.run != 0 ==> s.prod * s.run <= u64::MAX)
}

/// The bytes are safe to hand to npyz's header parser: where they begin as
/// an `.npy` file, the header text is at most `MAX_HEADER_TEXT` bytes, lies
/// within the bytes, and keeps to the rules of `header_text_ok`.
pub open spec fn npy_header_callable(b: Seq<u8>) -> bool {
    match npy_text_range(b) {
        None => true,
        Some((start, len)) => len <= MAX_HEADER_TEXT && start + len <= b.len() && header_text_ok(
            b.subrange(start, start + len),
        ),
    }
}

proof fn lemma_scan_failed_stays(t: Seq<u8>, i: int)
    requires
        0 <= i <= t.len(),
        !scan_text(t.take(i)).ok,
    ensures
        !scan_text(t).ok,
    decreases t.len() - i,
{
    if i < t.len() {
        assert(t.take(i + 1).drop_last() =~= t.take(i));
        lemma_scan_failed_stays(t, i + 1);
    } else {
        assert(t.take(i) =~= t);
    }
}

/// Whether the header text `t` keeps to the rules of `header_text_ok`.
pub fn header_text_is_ok(t: &[u8]) -> (res: bool)
    requires
        t@.len() <= MAX_HEADER_TEXT,
    ensures
        res == header_text_ok(t@),
{
    let ghost tv = t@;
    let mut quote: u8 = 0;
    let mut depth: i64 = 0;
    let mut commas: u32 = 0;
    let mut prev: u8 = 32;
    let mut in_run: bool = false;
    let mut run: u64 = 0;
    let mut prod: u64 = 1;
    let mut i: usize = 0;
    assert(tv.take(0) =~= Seq::<u8>::empty());
    while i < t.len()
        invariant
            tv == t@,
            t@.len() <= MAX_HEADER_TEXT,
            0 <= i <= t@.len(),
            -(i as int) <= depth <= MAX_HEADER_DEPTH,
            commas <= MAX_HEADER_COMMAS,
            scan_text(tv.take(i as int)) == (HeaderScan {
                quote,
                depth: depth as int,
                commas: commas as nat,
                prev,
                in_run,
                run: run as nat,
                prod: prod as nat,
                ok: true,
            }),
        decreases t@.len() - i,
    {
        let b = t[i];
        proof {
            assert(tv.take(i + 1).drop_last() =~= tv.take(i as int));
            assert(tv.take(i + 1).last() == b);
        }
        if b == 92 {
            proof {
                lemma_scan_failed_stays(tv, i + 1);
            }
            return false;
        } else if quote != 0 {
            if b == quote {
                quote = 0;
            }
            prev = b;
        } else if 48 <= b && b <= 57 {
            if in_run {
                let next = match run.checked_mul(10) {
                    Some(r) => r.checked_add((b - 48) as u64),
                    None => None,
                };
                match next {
                    Some(r) => {
                        run = r;
                    },
                    None => {
                        proof {
                            lemma_scan_failed_stays(tv, i + 1);
                        }
                        return false;
                    },
                }
            } else {
                let sep = prev == 32 || prev == 9 || prev == 12 || prev == 10 || prev == 13 || prev == 40
                    || prev == 41 || prev == 91 || prev == 93 || prev == 123 || prev == 125 || prev == 44
                    || prev == 58;
                if !sep {
                    proof {
                        lemma_scan_failed_stays(tv, i + 1);
                    }
                    return false;
                }
                in_run = true;
                run = (b - 48) as u64;
            }
            prev = b;
        } else {
            let sep = b == 32 || b == 9 || b == 12 || b == 10 || b == 13 || b == 40 || b == 41 || b == 91
                || b == 93 || b == 123 || b == 125 || b == 44 || b == 58;
            if (in_run && !sep) || b == 43 || b == 45 {
                proof {
                    lemma_scan_failed_stays(tv, i + 1);
                }
                return false;
            }
            if in_run && depth == 2 && run != 0 {
                match prod.checked_mul(run) {
                    Some(p) => {
                        prod = p;
                    },
                    None => {
                        proof {
                            lemma_scan_failed_stays(tv, i + 1);
                        }
                        return false;
                    },
                }
            }
            if b == 40 || b == 91 || b == 123 {
                if depth >= MAX_HEADER_DEPTH {
                    proof {
                        lemma_scan_failed_stays(tv, i + 1);
                    }
                    return false;
                }
                depth = depth + 1;
            } else if b == 41 || b == 93 || b == 125 {
                depth = depth - 1;
            }
            if b == 44 {
                if commas >= MAX_HEADER_COMMAS {
                    proof {
                        lemma_scan_failed_stays(tv, i + 1);
                    }
                    return false;
                }
                commas = commas + 1;
            }
            quote = if b == 39 || b == 34 {
                b
            } else {
                0
            };
            prev = b;
            in_run = false;
            run = 0;
        }
        i = i + 1;
    }
    proof {
        assert(tv.take(i as int) =~= tv);
    }
    if in_run && depth == 2 && run != 0 {
        prod.checked_mul(run).is_some()
    } else {
        true
    }
}

/// Whether the bytes are safe to hand to npyz's header parser (see
/// `npy_header_callable`).
pub fn npy_header_is_callable(bytes: &[u8]) -> (res: bool)
    ensures
        res == npy_header_callable(bytes@),
{
    let n = bytes.len();
    if n < 8 || bytes[0] != 0x93u8 || bytes[1] != 78u8 || bytes[2] != 85u8 || bytes[3] != 77u8 || bytes[4] != 80u8
        || bytes[5] != 89u8 || bytes[7] != 0u8 {
        return true;
    }
    let (start, len): (usize, u64) = if bytes[6] == 1u8 && n >= 10 {
        (10, bytes[8] as u64 + 256 * (bytes[9] as u64))
    } else if (bytes[6] == 2u8 || bytes[6] == 3u8) && n >= 12 {
        (12, bytes[8] as u64 + 256 * (bytes[9] as u64) + 65536 * (bytes[10] as u64) + 16777216 * (bytes[11] as u64))
    } else {
        return true;
    };
    if len > MAX_HEADER_TEXT as u64 || len > (n - start) as u64 {
        return false;
    }
    let text = vstd::slice::slice_subrange(bytes, start, start + len as usize);
    header_text_is_ok(text)
}

/// Calls `npyz::NpyHeader::from_reader` on the bytes. On success the reader
/// stands at the first data byte; the layout (converted from the header's
/// dtype), the number of bytes left to the reader (at most their number) and
/// the row count (`NpyHeader::len`) are named, as a function of the bytes
/// alone. npyz multiplies the shape's dimensions without overflow
/// checks, allocates the header text's stated length, and parses the text
/// by backtracking recursive descent; `requires` leaves out the bytes on
/// which that could panic, exhaust memory or not return in reasonable time.
#[verifier::external_body]
fn npy_header(bytes: &[u8]) -> (res: Option<(RecordLayout, usize, u64)>)
    requires
        npy_header_callable(bytes@),
    ensures
        res == npy_header_of(bytes@),
        res matches Some((l, rest, n)) ==> rest <= bytes@.len(),
{
    let mut rest: &[u8] = bytes;
    match npyz::NpyHeader::from_reader(&mut rest) {
        Ok(h) => Some((layout_of_dtype(&h.dtype()), rest.len(), h.len())),
        Err(_) => None,
    }
}

/// The header of the `.npy` file whose bytes are `bytes`, as npyz reads it,
/// with the offset of its first row, where the bytes are safe to hand to
/// npyz (else `None`).
pub fn read_npy_header(bytes: &[u8]) -> (res: Option<(RecordLayout, usize, u64)>)
    ensures
        !npy_header_callable(bytes@) ==> res is None,
        npy_header_callable(bytes@) ==> res == npy_header_at(bytes@),
        res matches Some((l, off, n)) ==> off <= bytes@.len(),
{
    if !npy_header_is_callable(bytes) {
        return None;
    }
    match npy_header(bytes) {
        Some((l, rest, n)) => Some((l, bytes.len() - rest, n)),
        None => None,
    }
}

/// Bytes of one record with the given lengths of its variable parts.
pub open spec fn record_len(edges_len: int, rng_len: int, shape: Seq<usize>) -> int {
    reboot_seed_len(edges_len, rng_len) + shape_product(shape) + RUN_INFO_BYTES
}

impl BackupReader {
    /// The number of bytes of one record, or `None` when it exceeds
    /// `usize::MAX`.
    pub fn record_len(&self) -> (res: Option<usize>)
        requires
            crate::arrays::prefix_products_fit(self.data_shape@),
        ensures
            res matches Some(n) ==> n == record_len(
                self.edges_len as int,
                self.rng_len as int,
                self.data_shape@,
            ),
            res is None ==> record_len(self.edges_len as int, self.rng_len as int, self.data_shape@)
                > usize::MAX,
    {
        proof {
            crate::arrays::lemma_shape_product_nonneg(self.data_shape@);
        }
        let count = shape_to_length(self.data_shape.as_slice());
        match self.edges_len.checked_add(self.rng_len) {
            Some(a) => match a.checked_add(52) {
                Some(b) => match b.checked_add(count) {
                    Some(c) => c.checked_add(RUN_INFO_BYTES),
                    None => None,
                },
                None => None,
            },
            None => None,
        }
    }
}

/// How the first `BackUp` record of an `.npy` file's bytes is read: the
/// bytes are safe to hand to npyz, the header parses, has a row, its layout is that of a `BackUp` with the data
/// in `data_name`, and a whole record follows the header.
pub open spec fn npy_record_lengths(bytes: Seq<u8>, data_name: Seq<char>) -> Option<(usize, (usize, usize, Seq<usize>))> {
    match if npy_header_callable(bytes) { npy_header_at(bytes) } else { None } {
        Some((l, off, rows)) => match backup_lengths(l, data_name) {
            Some((e, r, shape)) => if rows >= 1 && off + record_len(e as int, r as int, shape) <= bytes.len() {
                Some((off, (e, r, shape)))
            } else {
                None
            },
            None => None,
        },
        None => None,
    }
}

/// The backup in the first row of the `.npy` file whose bytes are `bytes`,
/// or `None` where it cannot be read (see `npy_record_lengths`).
pub fn backup_from_npy_bytes(bytes: &[u8]) -> (res: Option<BackUp>)
    ensures
        match npy_record_lengths(bytes@, "backup_data"@) {
            None => res is None,
            Some((off, (e, r, shape))) => res matches Some(b) && backup_at(
                bytes@.subrange(off as int, bytes@.len() as int),
                e as int,
                r as int,
                shape,
                b,
            ) && b.reboot_seed.last_state.rng_gen.wf(),
        },
{
    let n_bytes = bytes.len();
    let (layout, off, rows) = match read_npy_header(bytes) {
        Some(h) => h,
        None => {
            return None;
        },
    };
    let reader = match BackupReader::reader(&layout) {
        Some(r) => r,
        None => {
            return None;
        },
    };
    let len = match reader.record_len() {
        Some(n) => n,
        None => {
            return None;
        },
    };
    if rows < 1 || len > n_bytes - off {
        return None;
    }
    let rest = vstd::slice::slice_subrange(bytes, off, n_bytes);
    Some(reader.read_one(rest))
}

/// The edge-recording backup in the first row of the `.npy` file whose bytes
/// are `bytes`, or `None` where it cannot be read (see `npy_record_lengths`,
/// with the data in `edges`).
pub fn save_edges_from_npy_bytes(bytes: &[u8]) -> (res: Option<SaveEdges>)
    ensures
        match npy_record_lengths(bytes@, "edges"@) {
            None => res is None,
            Some((off, (e, r, shape))) => res matches Some(b) && backup_at(
                bytes@.subrange(off as int, bytes@.len() as int),
                e as int,
                r as int,
                shape,
                as_backup(b),
            ) && b.reboot_seed.last_state.rng_gen.wf(),
        },
{
    let n_bytes = bytes.len();
    let (layout, off, rows) = match read_npy_header(bytes) {
        Some(h) => h,
        None => {
            return None;
        },
    };
    let reader = match SaveEdgesReader::reader(&layout) {
        Some(r) => r,
        None => {
            return None;
        },
    };
    let len = match reader.inner.record_len() {
        Some(n) => n,
        None => {
            return None;
        },
    };
    if rows < 1 || len > n_bytes - off {
        return None;
    }
    let rest = vstd::slice::slice_subrange(bytes, off, n_bytes);
    Some(reader.read_one(rest))
}

} // verus!
