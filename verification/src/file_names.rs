//! Reading numbers out of the names of backup files and run directories.
use vstd::prelude::*;
use vstd::string::{StrSliceExecFns, StringExecFns};

use crate::measurements::settings::{append_decimal, decimal_digits, digit_char};

verus! {

pub open spec fn is_digit(c: char) -> bool {
    '0' <= c && c <= '9'
}

pub open spec fn all_digits(s: Seq<char>) -> bool {
    forall|i: int| 0 <= i < s.len() ==> is_digit(#[trigger] s[i])
}

/// The number that the decimal digits `s` spell.
pub open spec fn decimal_value(s: Seq<char>) -> nat
    decreases s.len(),
{
    if s.len() == 0 {
        0
    } else {
        decimal_value(s.drop_last()) * 10 + ((s.last() as u32) - ('0' as u32)) as nat
    }
}

/// What `str::parse` gives for an unsigned type whose largest value is
/// `max`: an optional `+`, then at least one decimal digit and nothing else,
/// and a value that fits.
pub open spec fn parse_unsigned(s: Seq<char>, max: nat) -> Option<nat> {
    let d = if s.len() > 0 && s[0] == '+' {
        s.drop_first()
    } else {
        s
    };
    if d.len() > 0 && all_digits(d) && decimal_value(d) <= max {
        Some(decimal_value(d))
    } else {
        None
    }
}

/// Index of the first `c` in `s`, if any.
pub open spec fn first_index_of(s: Seq<char>, c: char) -> Option<int> {
    if exists|i: int| 0 <= i < s.len() && s[i] == c {
        Some(choose|i: int| 0 <= i < s.len() && s[i] == c && forall|j: int| 0 <= j < i ==> s[j] != c)
    } else {
        None
    }
}

/// The part of `s` before its first `c`, or all of `s`.
pub open spec fn before_first(s: Seq<char>, c: char) -> Seq<char> {
    match first_index_of(s, c) {
        Some(i) => s.subrange(0, i),
        None => s,
    }
}

proof fn lemma_decimal_step(s: Seq<char>, i: int)
    requires
        0 <= i < s.len(),
    ensures
        decimal_value(s.subrange(0, i + 1)) == decimal_value(s.subrange(0, i)) * 10 + ((s[i] as u32)
            - ('0' as u32)) as nat,
{
    assert(s.subrange(0, i + 1).drop_last() =~= s.subrange(0, i));
}

/// Parses `s[from..to]` as an unsigned number no larger than `max`, the way
/// `str::parse` does.
pub fn parse_unsigned_range(s: &str, from: usize, to: usize, max: u64) -> (res: Option<u64>)
    requires
        from <= to <= s@.len(),
    ensures
        res matches Some(v) ==> parse_unsigned(s@.subrange(from as int, to as int), max as nat) == Some(v as nat),
        res is None ==> parse_unsigned(s@.subrange(from as int, to as int), max as nat) is None,
{
    let ghost t = s@.subrange(from as int, to as int);
    let mut start = from;
    if from < to && s.get_char(from) == '+' {
        start = from + 1;
    }
    let ghost d = s@.subrange(start as int, to as int);
    assert(d =~= (if t.len() > 0 && t[0] == '+' { t.drop_first() } else { t }));
    if start == to {
        return None;
    }
    let mut acc: u64 = 0;
    let mut i: usize = start;
    assert(d.subrange(0, 0) =~= Seq::<char>::empty());
    while i < to
        invariant
            start <= i <= to <= s@.len(),
            d == s@.subrange(start as int, to as int),
            t == s@.subrange(from as int, to as int),
            d == (if t.len() > 0 && t[0] == '+' { t.drop_first() } else { t }),
            d.len() > 0,
            acc as nat == decimal_value(d.subrange(0, i - start)),
            acc <= max,
            all_digits(d.subrange(0, i - start)),
        decreases to - i,
    {
        let c = s.get_char(i);
        assert(c == d[i - start]);
        if c < '0' || c > '9' {
            assert(!all_digits(d));
            return None;
        }
        proof {
            lemma_decimal_step(d, i - start);
        }
        let digit = (c as u32 - '0' as u32) as u64;
        if digit > max || acc > (max - digit) / 10 {
            assert(decimal_value(d.subrange(0, i - start + 1)) > max) by (nonlinear_arith)
                requires
                    decimal_value(d.subrange(0, i - start + 1)) == acc * 10 + digit,
                    digit > max || acc > (max - digit) / 10,
            ;
            proof {
                lemma_decimal_prefix_grows(d, i - start + 1);
            }
            return None;
        }
        acc = acc * 10 + digit;
        assert(d.subrange(0, i - start + 1).last() == c);
        assert forall|j: int| 0 <= j < i - start + 1 implies is_digit(#[trigger] d.subrange(0, i - start + 1)[j]) by {
            if j < i - start {
                assert(d.subrange(0, i - start + 1)[j] == d.subrange(0, i - start)[j]);
            }
        }
        i += 1;
    }
    assert(d.subrange(0, to - start) =~= d);
    Some(acc)
}

/// Index of the first `c` in `s[from..to]`, counted from the start of `s`.
pub fn find_char(s: &str, c: char, from: usize, to: usize) -> (res: Option<usize>)
    requires
        from <= to <= s@.len(),
    ensures
        res matches Some(i) ==> from <= i < to && s@[i as int] == c && forall|j: int|
            from <= j < i ==> s@[j] != c,
        res is None ==> forall|j: int| from <= j < to ==> s@[j] != c,
{
    let mut i = from;
    while i < to
        invariant
            from <= i <= to <= s@.len(),
            forall|j: int| from <= j < i ==> s@[j] != c,
        decreases to - i,
    {
        if s.get_char(i) == c {
            return Some(i);
        }
        i += 1;
    }
    None
}

/// `i` is the first `c` in `s`, so `first_index_of` finds it.
pub proof fn lemma_first_index_of(s: Seq<char>, c: char, i: int)
    requires
        0 <= i < s.len(),
        s[i] == c,
        forall|j: int| 0 <= j < i ==> s[j] != c,
    ensures
        first_index_of(s, c) == Some(i),
{
    let k = choose|k: int| 0 <= k < s.len() && s[k] == c && forall|j: int| 0 <= j < k ==> s[j] != c;
    assert(0 <= k < s.len() && s[k] == c && forall|j: int| 0 <= j < k ==> s[j] != c);
    if k < i {
        assert(s[k] != c);
    }
    if i < k {
        assert(s[i] != c);
    }
}

/// The backup number that a backup file's name starts with: the part before
/// the first `.`, read as a `u32`.
pub open spec fn backup_id_spec(name: Seq<char>) -> Option<nat> {
    parse_unsigned(before_first(name, '.'), u32::MAX as nat)
}

/// The backup number of a backup file named like `12.npy`, or `None` where
/// the part of the name before the first `.` is no `u32`.
pub fn backup_id_of_file_name(name: &str) -> (res: Option<u32>)
    ensures
        res matches Some(v) ==> backup_id_spec(name@) == Some(v as nat),
        res is None ==> backup_id_spec(name@) is None,
{
    let len = name.unicode_len();
    let end = match find_char(name, '.', 0, len) {
        Some(i) => {
            proof {
                lemma_first_index_of(name@, '.', i as int);
            }
            i
        },
        None => {
            assert(first_index_of(name@, '.') is None);
            assert(name@.subrange(0, len as int) =~= name@);
            len
        },
    };
    assert(before_first(name@, '.') == name@.subrange(0, end as int));
    match parse_unsigned_range(name, 0, end, 0xffff_ffff) {
        Some(v) => Some(v as u32),
        None => None,
    }
}

/// The name of the backup file numbered `backup_number`: `<number>.npy`.
pub fn backup_file_name(backup_number: u32) -> (res: String)
    ensures
        res@ == decimal_digits(backup_number as nat) + ".npy"@,
{
    let mut out = String::new();
    append_decimal(&mut out, backup_number as u64);
    out.append(".npy");
    out
}

proof fn lemma_digit_char(d: nat)
    requires
        d < 10,
    ensures
        is_digit(digit_char(d)),
        ((digit_char(d) as u32) - ('0' as u32)) as nat == d,
{
}

/// The decimal text of `n` is a non-empty run of digits that spells `n`.
proof fn lemma_decimal_digits(n: nat)
    ensures
        decimal_digits(n).len() > 0,
        all_digits(decimal_digits(n)),
        decimal_value(decimal_digits(n)) == n,
    decreases n,
{
    let s = decimal_digits(n);
    lemma_digit_char(n % 10);
    if n >= 10 {
        lemma_decimal_digits(n / 10);
        assert(s.drop_last() =~= decimal_digits(n / 10));
        assert(s.last() == digit_char(n % 10));
        assert((n / 10) * 10 + n % 10 == n) by (nonlinear_arith);
        assert(decimal_value(s) == decimal_value(s.drop_last()) * 10 + n % 10);
    } else {
        assert(n % 10 == n);
        assert(s.drop_last() =~= Seq::<char>::empty());
        assert(decimal_value(s) == decimal_value(s.drop_last()) * 10 + n % 10);
    }
}

/// A backup file named by `backup_file_name(n)` is read back as number `n`.
pub proof fn law_backup_file_name_roundtrip(n: u32)
    ensures
        backup_id_spec(decimal_digits(n as nat) + ".npy"@) == Some(n as nat),
{
    reveal_strlit(".npy");
    let d = decimal_digits(n as nat);
    lemma_decimal_digits(n as nat);
    let s = d + ".npy"@;
    assert(s[d.len() as int] == '.');
    assert forall|j: int| 0 <= j < d.len() implies s[j] != '.' by {
        assert(is_digit(d[j]));
    }
    lemma_first_index_of(s, '.', d.len() as int);
    assert(before_first(s, '.') =~= d);
    assert(is_digit(d[0]));
}

/// Index of the first `a` directly followed by `b` in `s`, if any.
pub open spec fn first_pair_index(s: Seq<char>, a: char, b: char) -> Option<int> {
    if exists|i: int| #![trigger s[i]] 0 <= i < s.len() - 1 && s[i] == a && s[i + 1] == b {
        Some(
            choose|i: int|
                #![trigger s[i]]
                0 <= i < s.len() - 1 && s[i] == a && s[i + 1] == b && forall|j: int|
                    #![trigger s[j]]
                    0 <= j < i ==> !(s[j] == a && s[j + 1] == b),
        )
    } else {
        None
    }
}

/// The pieces of `s` between the occurrences of `c`, as `str::split` gives
/// them (empty pieces included).
pub open spec fn split_on(s: Seq<char>, c: char) -> Seq<Seq<char>>
    decreases s.len(),
{
    if s.len() == 0 {
        seq![Seq::empty()]
    } else {
        let p = split_on(s.drop_last(), c);
        if s.last() == c {
            p.push(Seq::empty())
        } else {
            p.update(p.len() - 1, p.last().push(s.last()))
        }
    }
}

/// Every piece parsed as a number no larger than `max`, or `None` if one
/// does not parse.
pub open spec fn parse_parts(parts: Seq<Seq<char>>, max: nat) -> Option<Seq<nat>>
    decreases parts.len(),
{
    if parts.len() == 0 {
        Some(Seq::empty())
    } else {
        match (parse_parts(parts.drop_last(), max), parse_unsigned(parts.last(), max)) {
            (Some(v), Some(x)) => Some(v.push(x)),
            _ => None,
        }
    }
}

/// The lattice size written into a run directory's name such as
/// `3-L_8_8_8_4-b_0p50-l_1p00`: the text after the first `L_` up to the
/// next `-`, split at `_`, each piece a `usize`.
pub open spec fn lattice_size_spec(name: Seq<char>) -> Option<Seq<nat>> {
    match first_pair_index(name, 'L', '_') {
        None => None,
        Some(i) => {
            let rest = name.subrange(i + 2, name.len() as int);
            match first_index_of(rest, '-') {
                None => None,
                Some(j) => parse_parts(split_on(rest.subrange(0, j), '_'), usize::MAX as nat),
            }
        },
    }
}

proof fn lemma_split_step(s: Seq<char>, a: int, i: int, c: char)
    requires
        0 <= a <= i < s.len(),
    ensures
        split_on(s.subrange(a, i + 1), c) == (if s[i] == c {
            split_on(s.subrange(a, i), c).push(Seq::empty())
        } else {
            let p = split_on(s.subrange(a, i), c);
            p.update(p.len() - 1, p.last().push(s[i]))
        }),
{
    assert(s.subrange(a, i + 1).drop_last() =~= s.subrange(a, i));
}

proof fn lemma_split_nonempty(s: Seq<char>, c: char)
    ensures
        split_on(s, c).len() >= 1,
    decreases s.len(),
{
    if s.len() > 0 {
        lemma_split_nonempty(s.drop_last(), c);
    }
}

/// Index of the first `a` directly followed by `b` in `s`.
pub fn find_pair(s: &str, a: char, b: char) -> (res: Option<usize>)
    ensures
        res matches Some(i) ==> first_pair_index(s@, a, b) == Some(i as int) && i + 1 < s@.len(),
        res is None ==> first_pair_index(s@, a, b) is None,
{
    let len = s.unicode_len();
    let mut i: usize = 0;
    while i < len
        invariant
            len == s@.len(),
            0 <= i <= len,
            forall|j: int| #![trigger s@[j]] 0 <= j < i && j + 1 < len ==> !(s@[j] == a && s@[j + 1] == b),
        decreases len - i,
    {
        if i + 1 < len && s.get_char(i) == a && s.get_char(i + 1) == b {
            let ghost t = s@;
            assert(first_pair_index(t, a, b) == Some(i as int)) by {
                assert(t[i as int] == a && t[i + 1] == b);
                let k = choose|k: int|
                    #![trigger t[k]]
                    0 <= k < t.len() - 1 && t[k] == a && t[k + 1] == b && forall|j: int|
                        #![trigger t[j]]
                        0 <= j < k ==> !(t[j] == a && t[j + 1] == b);
                if k < i {
                    assert(!(t[k] == a && t[k + 1] == b));
                }
                if i < k {
                    assert(!(t[i as int] == a && t[i + 1] == b));
                }
            }
            return Some(i);
        }
        i += 1;
    }
    let ghost t = s@;
    assert(first_pair_index(t, a, b) is None) by {
        if exists|k: int| #![trigger t[k]] 0 <= k < t.len() - 1 && t[k] == a && t[k + 1] == b {
            let k = choose|k: int| #![trigger t[k]] 0 <= k < t.len() - 1 && t[k] == a && t[k + 1] == b;
            assert(!(t[k] == a && t[k + 1] == b));
        }
    }
    None
}

pub open spec fn nat_values(v: Seq<usize>) -> Seq<nat> {
    v.map_values(|x: usize| x as nat)
}

/// Splits `s[a..b]` at every `_` and parses each piece as a `usize`.
pub fn parse_underscore_fields(s: &str, a: usize, b: usize) -> (res: Option<Vec<usize>>)
    requires
        a <= b <= s@.len(),
    ensures
        match parse_parts(split_on(s@.subrange(a as int, b as int), '_'), usize::MAX as nat) {
            None => res is None,
            Some(vals) => res matches Some(v) && nat_values(v@) == vals,
        },
{
    let ghost t = s@;
    let mut values: Vec<usize> = Vec::new();
    let ghost mut done: Seq<Seq<char>> = Seq::empty();
    let mut start: usize = a;
    let mut k: usize = a;
    assert(t.subrange(a as int, a as int) =~= Seq::<char>::empty());
    assert(nat_values(values@) =~= Seq::<nat>::empty());
    while k < b
        invariant
            t == s@,
            a <= start <= k <= b <= t.len(),
            split_on(t.subrange(a as int, k as int), '_') == done.push(t.subrange(start as int, k as int)),
            parse_parts(done, usize::MAX as nat) == Some(nat_values(values@)),
        decreases b - k,
    {
        proof {
            lemma_split_step(t, a as int, k as int, '_');
        }
        if s.get_char(k) == '_' {
            let piece = parse_unsigned_range(s, start, k, usize::MAX as u64);
            let ghost p = t.subrange(start as int, k as int);
            match piece {
                Some(v) => {
                    let ghost prev = done;
                    let ghost prev_vals = values@;
                    proof {
                        done = done.push(p);
                        assert(done.drop_last() =~= prev);
                    }
                    values.push(v as usize);
                    assert(nat_values(values@) =~= nat_values(prev_vals).push(v as nat));
                    start = k + 1;
                    assert(t.subrange(start as int, k + 1) =~= Seq::<char>::empty());
                },
                None => {
                    proof {
                        lemma_split_prefix(t, a as int, k + 1, b as int, done.push(p));
                        let full = split_on(t.subrange(a as int, b as int), '_');
                        let pre = done.push(p);
                        assert(pre.drop_last() =~= done);
                        assert(full.subrange(0, pre.len() as int) == pre);
                        lemma_parse_parts_prefix(full, pre.len() as int, usize::MAX as nat);
                    }
                    return None;
                },
            }
        } else {
            assert(t.subrange(start as int, k + 1) =~= t.subrange(start as int, k as int).push(t[k as int]));
            assert(done.push(t.subrange(start as int, k as int)).update(done.len() as int, t.subrange(start as int, k + 1))
                =~= done.push(t.subrange(start as int, k + 1)));
        }
        k += 1;
    }
    let last = parse_unsigned_range(s, start, b, usize::MAX as u64);
    let ghost parts = done.push(t.subrange(start as int, b as int));
    assert(parts.drop_last() =~= done);
    match last {
        Some(v) => {
            let ghost prev_vals = values@;
            values.push(v as usize);
            assert(nat_values(values@) =~= nat_values(prev_vals).push(v as nat));
            Some(values)
        },
        None => None,
    }
}

/// The lattice size that a run directory's name carries, or `None` where the
/// name has no `L_`, no `-` after it, or a piece that is no `usize`.
#[verifier::rlimit(40)]
pub fn lattice_size_of_file_name(name: &str) -> (res: Option<Vec<usize>>)
    ensures
        match lattice_size_spec(name@) {
            None => res is None,
            Some(vals) => res matches Some(v) && nat_values(v@) == vals,
        },
{
    let len = name.unicode_len();
    let ghost s = name@;
    let i = match find_pair(name, 'L', '_') {
        Some(i) => i,
        None => {
            return None;
        },
    };
    let a = i + 2;
    let ghost rest = s.subrange(a as int, len as int);
    let b = match find_char(name, '-', a, len) {
        Some(b) => {
            proof {
                lemma_first_index_of(rest, '-', b - a);
            }
            b
        },
        None => {
            assert(first_index_of(rest, '-') is None) by {
                if exists|k: int| 0 <= k < rest.len() && rest[k] == '-' {
                    let k = choose|k: int| 0 <= k < rest.len() && rest[k] == '-';
                    assert(s[a + k] == '-');
                }
            }
            return None;
        },
    };
    assert(rest.subrange(0, b - a) =~= s.subrange(a as int, b as int));
    parse_underscore_fields(name, a, b)
}

/// The pieces of a longer string start with all complete pieces of a prefix
/// and the piece in progress ends at the prefix's first separator after it.
proof fn lemma_split_prefix(s: Seq<char>, a: int, k: int, b: int, pre: Seq<Seq<char>>)
    requires
        0 <= a <= k <= b <= s.len(),
        k > a,
        s[k - 1] == '_',
        split_on(s.subrange(a, k), '_') == pre.push(Seq::empty()),
    ensures
        split_on(s.subrange(a, b), '_').len() >= pre.len() + 1,
        split_on(s.subrange(a, b), '_').subrange(0, pre.len() as int) == pre,
    decreases b - k,
{
    if b > k {
        lemma_split_prefix(s, a, k, b - 1, pre);
        lemma_split_step(s, a, b - 1, '_');
        lemma_split_nonempty(s.subrange(a, b - 1), '_');
        let p = split_on(s.subrange(a, b - 1), '_');
        let q = split_on(s.subrange(a, b), '_');
        assert(q.subrange(0, pre.len() as int) =~= pre) by {
            assert forall|m: int| 0 <= m < pre.len() implies q[m] == pre[m] by {
                assert(p.subrange(0, pre.len() as int)[m] == pre[m]);
                if m < p.len() - 1 || s[b - 1] == '_' {
                    assert(q[m] == p[m]);
                } else {
                    assert(false) by {
                        assert(p.len() >= pre.len() + 1);
                    }
                }
            }
        }
    } else {
        assert((pre.push(Seq::empty())).subrange(0, pre.len() as int) =~= pre);
    }
}

/// If a prefix of the pieces fails to parse, so do all the pieces.
proof fn lemma_parse_parts_prefix(parts: Seq<Seq<char>>, n: int, max: nat)
    requires
        0 <= n <= parts.len(),
        parse_parts(parts.subrange(0, n), max) is None,
    ensures
        parse_parts(parts, max) is None,
    decreases parts.len() - n,
{
    if n < parts.len() {
        assert(parts.subrange(0, n + 1).drop_last() =~= parts.subrange(0, n));
        lemma_parse_parts_prefix(parts, n + 1, max);
    } else {
        assert(parts.subrange(0, n) =~= parts);
    }
}

/// The value of a digit string never drops below that of any of its
/// prefixes.
pub proof fn lemma_decimal_prefix_grows(d: Seq<char>, k: int)
    requires
        0 <= k <= d.len(),
        all_digits(d.subrange(0, k)) || true,
    ensures
        decimal_value(d.subrange(0, k)) <= decimal_value(d),
    decreases d.len() - k,
{
    if k < d.len() {
        lemma_decimal_prefix_grows(d, k + 1);
        lemma_decimal_step(d, k);
    } else {
        assert(d.subrange(0, k) =~= d);
    }
}

} // verus!
