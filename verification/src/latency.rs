//! The round-trip report of the IPC benchmark: the simulator side writes one
//! latency in microseconds per line, and the parent reads them back.
use vstd::prelude::*;
use vstd::string::StringSliceAdditionalSpecFns;

verus! {

/// The byte ends a line.
pub open spec fn is_newline(b: u8) -> bool {
    b == 0x0a
}

/// A one-byte white-space character: tab, line feed, vertical tab, form feed,
/// carriage return or space.
pub open spec fn is_ascii_space(b: u8) -> bool {
    (0x09 <= b && b <= 0x0d) || b == 0x20
}

/// The three bytes encode a white-space character in UTF-8: U+1680,
/// U+2000..=U+200A, U+2028, U+2029, U+202F, U+205F or U+3000.
pub open spec fn is_space3(a: u8, b: u8, c: u8) -> bool {
    ||| a == 0xe1 && b == 0x9a && c == 0x80
    ||| a == 0xe2 && b == 0x80 && ((0x80 <= c && c <= 0x8a) || c == 0xa8 || c == 0xa9 || c == 0xaf)
    ||| a == 0xe2 && b == 0x81 && c == 0x9f
    ||| a == 0xe3 && b == 0x80 && c == 0x80
}

/// Length of the UTF-8 encoding of a white-space character (the characters
/// for which `char::is_whitespace` holds) that starts at `i` in `s`, or 0.
pub open spec fn space_len_at(s: Seq<u8>, i: int) -> int {
    if 0 <= i < s.len() && is_ascii_space(s[i]) {
        1
    } else if 0 <= i && i + 1 < s.len() && s[i] == 0xc2 && (s[i + 1] == 0x85 || s[i + 1] == 0xa0) {
        2
    } else if 0 <= i && i + 2 < s.len() && is_space3(s[i], s[i + 1], s[i + 2]) {
        3
    } else {
        0
    }
}

/// Length of the UTF-8 encoding of a white-space character that ends just
/// before `j` in `s`, or 0.
pub open spec fn space_len_before(s: Seq<u8>, j: int) -> int {
    if 1 <= j <= s.len() && is_ascii_space(s[j - 1]) {
        1
    } else if 2 <= j <= s.len() && s[j - 2] == 0xc2 && (s[j - 1] == 0x85 || s[j - 1] == 0xa0) {
        2
    } else if 3 <= j <= s.len() && is_space3(s[j - 3], s[j - 2], s[j - 1]) {
        3
    } else {
        0
    }
}

/// Where the text of `s` starts once leading white space from `i` on is skipped.
pub open spec fn skip_space(s: Seq<u8>, i: int) -> int
    decreases s.len() - i,
{
    if 0 <= i < s.len() && space_len_at(s, i) > 0 {
        skip_space(s, i + space_len_at(s, i))
    } else {
        i
    }
}

/// Where the text of `s` ends once trailing white space before `j`, down to
/// `lo`, is dropped.
pub open spec fn drop_space(s: Seq<u8>, lo: int, j: int) -> int
    decreases j,
{
    if j > lo && space_len_before(s, j) > 0 && j - space_len_before(s, j) >= lo {
        drop_space(s, lo, j - space_len_before(s, j))
    } else {
        j
    }
}

/// `s` without its leading and trailing white space (`str::trim`).
pub open spec fn trimmed(s: Seq<u8>) -> Seq<u8> {
    let lo = skip_space(s, 0);
    s.subrange(lo, drop_space(s, lo, s.len() as int))
}

/// The byte is a decimal digit.
pub open spec fn is_digit(b: u8) -> bool {
    0x30 <= b && b <= 0x39
}

/// Value of a string of decimal digits, most significant first.
pub open spec fn digits_value(d: Seq<u8>) -> nat
    decreases d.len(),
{
    if d.len() == 0 {
        0
    } else {
        digits_value(d.drop_last()) * 10 + (d.last() - 0x30) as nat
    }
}

/// Every byte of `d` is a decimal digit.
pub open spec fn all_digits(d: Seq<u8>) -> bool {
    forall|i: int| 0 <= i < d.len() ==> is_digit(#[trigger] d[i])
}

/// `s` without the `+` sign it may start with.
pub open spec fn unsigned_part(s: Seq<u8>) -> Seq<u8> {
    if s.len() > 0 && s[0] == 0x2b {
        s.drop_first()
    } else {
        s
    }
}

/// The value of one or more decimal digits, if it fits in a `u64`.
pub open spec fn parse_digits(d: Seq<u8>) -> Option<u64> {
    if d.len() > 0 && all_digits(d) && digits_value(d) <= u64::MAX {
        Some(digits_value(d) as u64)
    } else {
        None
    }
}

/// What `u64::from_str` gives for the text `s`: an optional `+`, then one or
/// more decimal digits whose value fits in a `u64`; anything else is refused.
pub open spec fn parse_u64(s: Seq<u8>) -> Option<u64> {
    parse_digits(unsigned_part(s))
}

/// Index of the first line feed at or after `i`, or the length of `s`.
pub open spec fn line_end(s: Seq<u8>, i: int) -> int
    decreases s.len() - i,
{
    if i >= s.len() || is_newline(s[i]) {
        i
    } else {
        line_end(s, i + 1)
    }
}

/// The line starting at `i` holds no line feed and ends at one or at the end of `s`.
pub proof fn lemma_line_end_bounds(s: Seq<u8>, i: int)
    requires
        0 <= i,
    ensures
        i <= line_end(s, i),
        i < s.len() ==> line_end(s, i) <= s.len(),
        forall|k: int| i <= k < line_end(s, i) ==> !is_newline(#[trigger] s[k]),
        line_end(s, i) < s.len() ==> is_newline(s[line_end(s, i)]),
    decreases s.len() - i,
{
    if i < s.len() && !is_newline(s[i]) {
        lemma_line_end_bounds(s, i + 1);
    }
}

/// The latencies read from the lines of `s` from byte `i` on: each line is
/// trimmed and parsed as a `u64`, and lines that do not parse are skipped.
pub open spec fn latencies_from(s: Seq<u8>, i: int) -> Seq<u64>
    decreases s.len() + 1 - i,
{
    if i < 0 || i >= s.len() {
        Seq::empty()
    } else {
        let e = line_end(s, i);
        proof {
            lemma_line_end_bounds(s, i);
        }
        let rest = latencies_from(s, e + 1);
        match parse_u64(trimmed(s.subrange(i, e))) {
            Some(v) => seq![v] + rest,
            None => rest,
        }
    }
}

/// The latencies of a whole report.
pub open spec fn report_latencies(s: Seq<u8>) -> Seq<u64> {
    latencies_from(s, 0)
}

/// Line ends are found the same way in text that follows other text.
proof fn lemma_line_end_after_prefix(p: Seq<u8>, b: Seq<u8>, j: int)
    requires
        0 <= j <= b.len(),
    ensures
        line_end(p + b, p.len() + j) == p.len() + line_end(b, j),
    decreases b.len() - j,
{
    let s = p + b;
    if j < b.len() {
        assert(s[p.len() + j] == b[j]);
        if !is_newline(b[j]) {
            lemma_line_end_after_prefix(p, b, j + 1);
        }
    }
}

/// The lines of `b` read the same when `b` follows other text.
proof fn lemma_latencies_after_prefix(p: Seq<u8>, b: Seq<u8>, j: int)
    requires
        0 <= j,
    ensures
        latencies_from(p + b, p.len() + j) == latencies_from(b, j),
    decreases b.len() + 1 - j,
{
    let s = p + b;
    if j < b.len() {
        lemma_line_end_after_prefix(p, b, j);
        lemma_line_end_bounds(b, j);
        let e = line_end(b, j);
        assert(s.subrange(p.len() + j, p.len() + e) =~= b.subrange(j, e));
        lemma_latencies_after_prefix(p, b, e + 1);
    }
}

/// A line of `a` that ends at or before the end of `a` ends at the same
/// place when a line feed follows `a`.
proof fn lemma_line_end_before_newline(a: Seq<u8>, t: Seq<u8>, i: int)
    requires
        0 <= i <= a.len(),
        t.len() > 0,
        is_newline(t[0]),
    ensures
        line_end(a + t, i) == line_end(a, i),
    decreases a.len() - i,
{
    let s = a + t;
    if i < a.len() {
        assert(s[i] == a[i]);
        if !is_newline(a[i]) {
            lemma_line_end_before_newline(a, t, i + 1);
        }
    } else {
        assert(s[i] == t[0]);
    }
}

/// An empty line holds no latency.
proof fn lemma_empty_line_has_none(s: Seq<u8>)
    requires
        s.len() == 0,
    ensures
        parse_u64(trimmed(s)) is None,
{
    assert(trimmed(s).len() == 0);
    assert(unsigned_part(trimmed(s)).len() == 0);
}

proof fn lemma_latencies_split(a: Seq<u8>, b: Seq<u8>, i: int)
    requires
        0 <= i <= a.len(),
    ensures
        latencies_from(a + seq![0x0au8] + b, i) == latencies_from(a, i) + latencies_from(b, 0),
    decreases a.len() - i,
{
    let nl = seq![0x0au8];
    let t = nl + b;
    let s = a + nl + b;
    assert(s =~= a + t);
    assert(s =~= (a + nl) + b);
    lemma_line_end_before_newline(a, t, i);
    lemma_line_end_bounds(a, i);
    let e = line_end(a, i);
    assert(s.subrange(i, e) =~= a.subrange(i, e));
    if i == a.len() {
        lemma_empty_line_has_none(s.subrange(i, e));
        lemma_latencies_after_prefix(a + nl, b, 0);
        assert(latencies_from(a, i) =~= Seq::<u64>::empty());
        assert(latencies_from(a, i) + latencies_from(b, 0) =~= latencies_from(b, 0));
    } else if e < a.len() {
        lemma_latencies_split(a, b, e + 1);
        match parse_u64(trimmed(a.subrange(i, e))) {
            Some(v) => {
                assert(seq![v] + (latencies_from(a, e + 1) + latencies_from(b, 0)) =~= (seq![v]
                    + latencies_from(a, e + 1)) + latencies_from(b, 0));
            },
            None => {},
        }
    } else {
        lemma_latencies_after_prefix(a + nl, b, 0);
        assert(latencies_from(a, e + 1) =~= Seq::<u64>::empty());
        match parse_u64(trimmed(a.subrange(i, e))) {
            Some(v) => {
                assert(seq![v] + latencies_from(b, 0) =~= (seq![v] + latencies_from(a, e + 1))
                    + latencies_from(b, 0));
            },
            None => {
                assert(latencies_from(b, 0) =~= latencies_from(a, e + 1) + latencies_from(b, 0));
            },
        }
    }
}

/// Reports compose line by line: the report of two texts joined by a line
/// feed is the report of the first followed by the report of the second. So
/// every line contributes its own value, however many lines carry the same
/// value, and no line affects another.
pub proof fn lemma_report_of_joined_texts(a: Seq<u8>, b: Seq<u8>)
    ensures
        report_latencies(a + seq![0x0au8] + b) == report_latencies(a) + report_latencies(b),
{
    lemma_latencies_split(a, b, 0);
}

/// A single line (no line feed in it) reports exactly the value its trimmed
/// text parses to, or nothing.
pub proof fn lemma_report_of_one_line(line: Seq<u8>)
    requires
        forall|k: int| 0 <= k < line.len() ==> !is_newline(#[trigger] line[k]),
    ensures
        report_latencies(line) == (match parse_u64(trimmed(line)) {
            Some(v) => seq![v],
            None => Seq::<u64>::empty(),
        }),
{
    if line.len() > 0 {
        lemma_line_end_bounds(line, 0);
        if line_end(line, 0) < line.len() {
            assert(is_newline(line[line_end(line, 0)]));
        }
        assert(line.subrange(0, line.len() as int) =~= line);
        assert(latencies_from(line, line.len() as int + 1) =~= Seq::<u64>::empty());
        match parse_u64(trimmed(line)) {
            Some(v) => {
                assert(seq![v] + Seq::<u64>::empty() =~= seq![v]);
            },
            None => {},
        }
    } else {
        lemma_empty_line_has_none(line);
    }
}

/// A run of digits is worth at least any of its prefixes.
proof fn lemma_prefix_value_le(d: Seq<u8>, k: int)
    requires
        0 <= k <= d.len(),
        all_digits(d),
    ensures
        digits_value(d.subrange(0, k)) <= digits_value(d),
    decreases d.len(),
{
    if k < d.len() {
        lemma_prefix_value_le(d.drop_last(), k);
        assert(d.drop_last().subrange(0, k) =~= d.subrange(0, k));
    } else {
        assert(d.subrange(0, k) =~= d);
    }
}

fn space_len_at_exec(s: &[u8], i: usize) -> (n: usize)
    ensures
        n == space_len_at(s@, i as int),
{
    let len = s.len();
    if i < len && ((0x09 <= s[i] && s[i] <= 0x0d) || s[i] == 0x20) {
        1
    } else if i < len && len - i > 1 && s[i] == 0xc2 && (s[i + 1] == 0x85 || s[i + 1] == 0xa0) {
        2
    } else if i < len && len - i > 2 && is_space3_exec(s[i], s[i + 1], s[i + 2]) {
        3
    } else {
        0
    }
}

fn space_len_before_exec(s: &[u8], j: usize) -> (n: usize)
    requires
        j <= s@.len(),
    ensures
        n == space_len_before(s@, j as int),
{
    if j >= 1 && ((0x09 <= s[j - 1] && s[j - 1] <= 0x0d) || s[j - 1] == 0x20) {
        1
    } else if j >= 2 && s[j - 2] == 0xc2 && (s[j - 1] == 0x85 || s[j - 1] == 0xa0) {
        2
    } else if j >= 3 && is_space3_exec(s[j - 3], s[j - 2], s[j - 1]) {
        3
    } else {
        0
    }
}

fn is_space3_exec(a: u8, b: u8, c: u8) -> (r: bool)
    ensures
        r == is_space3(a, b, c),
{
    (a == 0xe1 && b == 0x9a && c == 0x80) || (a == 0xe2 && b == 0x80 && ((0x80 <= c && c <= 0x8a)
        || c == 0xa8 || c == 0xa9 || c == 0xaf)) || (a == 0xe2 && b == 0x81 && c == 0x9f) || (a
        == 0xe3 && b == 0x80 && c == 0x80)
}

/// Bounds of `s` once leading and trailing white space are dropped.
fn trim_bounds(s: &[u8]) -> (r: (usize, usize))
    ensures
        r.0 as int == skip_space(s@, 0),
        r.1 as int == drop_space(s@, r.0 as int, s@.len() as int),
        r.0 <= r.1 <= s@.len(),
{
    let len = s.len();
    let mut a: usize = 0;
    loop
        invariant
            len == s@.len(),
            a <= s@.len(),
            skip_space(s@, 0) == skip_space(s@, a as int),
        ensures
            a <= s@.len(),
            a as int == skip_space(s@, 0),
        decreases s@.len() - a,
    {
        let n = space_len_at_exec(s, a);
        if n == 0 {
            break;
        }
        assert(a + n <= s@.len());
        a = a + n;
    }
    let mut b: usize = s.len();
    loop
        invariant
            a <= b <= s@.len(),
            drop_space(s@, a as int, s@.len() as int) == drop_space(s@, a as int, b as int),
        ensures
            a <= b <= s@.len(),
            b as int == drop_space(s@, a as int, s@.len() as int),
        decreases b,
    {
        let n = space_len_before_exec(s, b);
        if b > a && n > 0 && b - n >= a {
            b = b - n;
        } else {
            break;
        }
    }
    (a, b)
}

/// `u64::from_str` on the bytes `s[lo..hi]`.
fn parse_u64_range(s: &[u8], lo: usize, hi: usize) -> (r: Option<u64>)
    requires
        lo <= hi <= s@.len(),
    ensures
        r == parse_u64(s@.subrange(lo as int, hi as int)),
{
    let ghost t = s@.subrange(lo as int, hi as int);
    let mut k = lo;
    if k < hi && s[k] == 0x2b {
        k = k + 1;
    }
    let ghost k0 = k as int;
    let ghost d = s@.subrange(k0, hi as int);
    assert(d =~= unsigned_part(t));
    if k == hi {
        return None;
    }
    let mut acc: u64 = 0;
    while k < hi
        invariant
            0 <= lo <= k0 <= k <= hi <= s@.len(),
            d == s@.subrange(k0, hi as int),
            t == s@.subrange(lo as int, hi as int),
            d == unsigned_part(t),
            forall|i: int| k0 <= i < k ==> is_digit(s@[i]),
            acc == digits_value(s@.subrange(k0, k as int)),
        decreases hi - k,
    {
        let c = s[k];
        if !(0x30 <= c && c <= 0x39) {
            assert(d[k - k0] == s@[k as int]);
            assert(!is_digit(d[k - k0]));
            assert(!all_digits(d));
            assert(parse_digits(d) is None);
            return None;
        }
        let digit = (c - 0x30) as u64;
        assert(s@.subrange(k0, k + 1).drop_last() =~= s@.subrange(k0, k as int));
        assert(digits_value(s@.subrange(k0, k + 1)) == acc * 10 + digit);
        let next = match acc.checked_mul(10) {
            Some(m) => m.checked_add(digit),
            None => None,
        };
        match next {
            Some(v) => {
                acc = v;
                k = k + 1;
            },
            None => {
                proof {
                    if all_digits(d) {
                        lemma_prefix_value_le(d, k + 1 - k0);
                        assert(d.subrange(0, k + 1 - k0) =~= s@.subrange(k0, k + 1));
                    }
                    assert(parse_digits(d) is None);
                }
                return None;
            },
        }
    }
    assert(s@.subrange(k0, k as int) =~= d);
    Some(acc)
}

/// The latency written on one line of the report, if the line holds one.
fn parse_line(line: &[u8]) -> (r: Option<u64>)
    ensures
        r == parse_u64(trimmed(line@)),
{
    let (a, b) = trim_bounds(line);
    parse_u64_range(line, a, b)
}

/// Reads the benchmark report: every line that holds a latency, trimmed of
/// white space and written as `u64::from_str` accepts it, gives one value, in
/// the order of the lines; other lines are skipped.
pub fn parse_latencies(text: &str) -> (v: Vec<u64>)
    ensures
        v@ == report_latencies(text.spec_bytes()),
{
    let s = text.as_bytes();
    let len = s.len();
    let mut out: Vec<u64> = Vec::new();
    let mut i: usize = 0;
    while i < len
        invariant
            s@ == text.spec_bytes(),
            len == s@.len(),
            i <= len,
            out@ + latencies_from(s@, i as int) == report_latencies(s@),
        decreases len - i,
    {
        let mut line: Vec<u8> = Vec::new();
        let mut e = i;
        while e < len && s[e] != 0x0a
            invariant
                s@ == text.spec_bytes(),
                len == s@.len(),
                i <= e <= len,
                i < len,
                line_end(s@, i as int) == line_end(s@, e as int),
                line@ == s@.subrange(i as int, e as int),
            decreases len - e,
        {
            line.push(s[e]);
            e = e + 1;
            assert(line@ =~= s@.subrange(i as int, e as int));
        }
        proof {
            lemma_line_end_bounds(s@, i as int);
        }
        let parsed = parse_line(line.as_slice());
        let ghost before = out@;
        match parsed {
            Some(value) => {
                out.push(value);
                assert(out@ + latencies_from(s@, e + 1) =~= before + latencies_from(s@, i as int));
            },
            None => {},
        }
        if e == len {
            assert(latencies_from(s@, e + 1) == Seq::<u64>::empty());
            assert(out@ =~= out@ + latencies_from(s@, len as int));
            i = len;
        } else {
            i = e + 1;
        }
    }
    assert(out@ + latencies_from(s@, i as int) =~= out@);
    out
}

/// The values of `v` in non-decreasing order.
pub open spec fn ascending(v: Seq<u64>) -> bool {
    forall|i: int, j: int| 0 <= i <= j < v.len() ==> v[i] <= v[j]
}

/// Sorts `v` with the standard library's `sort_unstable`, which its
/// documentation describes as sorting the slice in ascending order: the same
/// values, each as often as before, in non-decreasing order. The order that
/// equal values take is not stated (they are equal).
#[verifier::external_body]
fn sort_ascending(v: &mut Vec<u64>)
    ensures
        final(v)@.len() == old(v)@.len(),
        final(v)@.to_multiset() == old(v)@.to_multiset(),
        ascending(final(v)@),
{
    v.sort_unstable();
}

/// The latencies of a benchmark report, sorted, with their maximum.
pub struct LatencySummary {
    /// Every latency of the report, in ascending order.
    pub sorted: Vec<u64>,
    /// The largest latency of the report.
    pub max: u64,
}

/// Reads the benchmark report and sorts its latencies for the statistics.
/// Returns `None` when the report holds no latency at all.
pub fn summarize_latencies(text: &str) -> (r: Option<LatencySummary>)
    ensures
        match r {
            None => report_latencies(text.spec_bytes()).len() == 0,
            Some(sum) => {
                let lat = report_latencies(text.spec_bytes());
                &&& lat.len() > 0
                &&& sum.sorted@.to_multiset() == lat.to_multiset()
                &&& ascending(sum.sorted@)
                &&& sum.sorted@.len() == lat.len()
                &&& sum.max == sum.sorted@.last()
                &&& lat.contains(sum.max)
                &&& forall|i: int| 0 <= i < lat.len() ==> lat[i] <= sum.max
            },
        },
{
    let mut sorted = parse_latencies(text);
    if sorted.len() == 0 {
        return None;
    }
    let ghost lat = sorted@;
    sort_ascending(&mut sorted);
    let max = sorted[sorted.len() - 1];
    proof {
        broadcast use vstd::seq_lib::group_to_multiset_ensures;

        let v = sorted@;
        assert(v.contains(max));
        assert(v.to_multiset().count(max) > 0);
        assert(lat.to_multiset().count(max) > 0);
        assert forall|i: int| 0 <= i < lat.len() implies lat[i] <= max by {
            assert(lat.contains(lat[i]));
            assert(lat.to_multiset().count(lat[i]) > 0);
            assert(v.to_multiset().count(lat[i]) > 0);
            assert(v.contains(lat[i]));
            let j = choose|j: int| 0 <= j < v.len() && v[j] == lat[i];
            assert(v[j] <= v[v.len() - 1]);
        }
    }
    Some(LatencySummary { sorted, max })
}

} // verus!
