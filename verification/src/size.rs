use vstd::prelude::*;

verus! {

/// The two firmware images built from this project.
#[derive(Clone, Copy, Debug, Eq, PartialEq)]
pub enum FirmwareImage {
    /// The OptiBridge I2C slave, which keeps the last 8 KiB of its 32 KiB of
    /// flash for the BPF image.
    OptiBridge,
    /// The USB-to-I2C bridge test harness.
    Bridge,
}

/// The flash that an image's text and data may take, in bytes.
pub open spec fn flash_limit(image: FirmwareImage) -> int {
    match image {
        FirmwareImage::OptiBridge => 24576,
        FirmwareImage::Bridge => 32768,
    }
}

/// The bridge may fill the whole 32 KiB of flash; OptiBridge keeps the
/// reserved BPF image region at the top free.
pub proof fn law_image_limits()
    ensures
        flash_limit(FirmwareImage::Bridge) == 32768,
        flash_limit(FirmwareImage::OptiBridge) + crate::BPF_FLASH_SIZE == 32768,
        flash_limit(FirmwareImage::OptiBridge) == crate::BPF_FLASH_OFFSET,
{
}

/// The flash that an image's text and data may take, in bytes.
pub fn image_flash_limit(image: FirmwareImage) -> (r: u64)
    ensures
        r == flash_limit(image),
{
    match image {
        FirmwareImage::OptiBridge => 24576,
        FirmwareImage::Bridge => 32768,
    }
}

/// ASCII whitespace, which separates the fields of a size report row.
pub open spec fn is_space(b: u8) -> bool {
    b == 0x20 || (0x09 <= b && b <= 0x0d)
}

/// The first index at or after `i` whose byte is whitespace (when `space`)
/// or not (otherwise), or the length of `s`.
pub open spec fn next_with(s: Seq<u8>, i: int, space: bool) -> int
    decreases s.len() - i,
{
    if i >= s.len() || is_space(s[i]) == space {
        i
    } else {
        next_with(s, i + 1, space)
    }
}

/// The first index at or after `i` holding a line feed, or the length of `s`.
pub open spec fn next_line_feed(s: Seq<u8>, i: int) -> int
    decreases s.len() - i,
{
    if i >= s.len() || s[i] == 0x0a {
        i
    } else {
        next_line_feed(s, i + 1)
    }
}

/// The second line of a report: the bytes after its first line feed, up to
/// the next line feed; empty when there is none.
pub open spec fn size_row(report: Seq<u8>) -> Seq<u8> {
    let first = next_line_feed(report, 0);
    if first >= report.len() {
        Seq::empty()
    } else {
        report.subrange(first + 1, next_line_feed(report, first + 1))
    }
}

/// The first two whitespace-separated fields of `row`, if it has two.
pub open spec fn row_fields(row: Seq<u8>) -> Option<(Seq<u8>, Seq<u8>)> {
    let s0 = next_with(row, 0, false);
    let e0 = next_with(row, s0, true);
    let s1 = next_with(row, e0, false);
    let e1 = next_with(row, s1, true);
    if s1 >= row.len() {
        None
    } else {
        Some((row.subrange(s0, e0), row.subrange(s1, e1)))
    }
}

/// The number that the ASCII decimal digits `s` spell.
pub open spec fn digits_value(s: Seq<u8>) -> int
    decreases s.len(),
{
    if s.len() == 0 {
        0
    } else {
        digits_value(s.drop_last()) * 10 + (s.last() - 0x30)
    }
}

/// Every byte of `s` is an ASCII digit.
pub open spec fn all_digits(s: Seq<u8>) -> bool {
    forall|i: int| 0 <= i < s.len() ==> 0x30 <= #[trigger] s[i] <= 0x39
}

/// The unsigned 64-bit number that `field` spells in decimal, with an
/// optional leading `+`, or `None`.
pub open spec fn decimal(field: Seq<u8>) -> Option<u64> {
    let digits = if field.len() > 0 && field[0] == 0x2b {
        field.skip(1)
    } else {
        field
    };
    if digits.len() > 0 && all_digits(digits) && digits_value(digits) <= u64::MAX {
        Some(digits_value(digits) as u64)
    } else {
        None
    }
}

/// The text and data sizes that a size report gives: the first two decimal
/// fields of its second line.
pub open spec fn size_report(report: Seq<u8>) -> Option<(u64, u64)> {
    match row_fields(size_row(report)) {
        None => None,
        Some((text, data)) => match (decimal(text), decimal(data)) {
            (Some(t), Some(d)) => Some((t, d)),
            _ => None,
        },
    }
}

proof fn lemma_digits_prefix(s: Seq<u8>, k: int)
    requires
        all_digits(s),
        0 <= k <= s.len(),
    ensures
        digits_value(s.take(k)) <= digits_value(s),
        digits_value(s.take(k)) >= 0,
    decreases s.len() - k,
{
    if k < s.len() {
        lemma_digits_prefix(s, k + 1);
        assert(s.take(k + 1).drop_last() =~= s.take(k));
        lemma_digits_nonnegative(s.take(k));
    } else {
        assert(s.take(k) =~= s);
        lemma_digits_nonnegative(s);
    }
}

proof fn lemma_digits_nonnegative(s: Seq<u8>)
    requires
        all_digits(s),
    ensures
        digits_value(s) >= 0,
    decreases s.len(),
{
    if s.len() > 0 {
        assert(all_digits(s.drop_last()));
        lemma_digits_nonnegative(s.drop_last());
    }
}

/// The ASCII decimal digits of `n`, most significant first, without
/// leading zeros.
pub open spec fn to_decimal(n: nat) -> Seq<u8>
    decreases n,
{
    if n < 10 {
        seq![(0x30 + n) as u8]
    } else {
        to_decimal(n / 10).push((0x30 + n % 10) as u8)
    }
}

proof fn lemma_to_decimal(n: nat)
    ensures
        to_decimal(n).len() > 0,
        all_digits(to_decimal(n)),
        digits_value(to_decimal(n)) == n,
    decreases n,
{
    let s = to_decimal(n);
    if n < 10 {
        assert(s.drop_last() =~= Seq::<u8>::empty());
        assert(s.last() == (0x30 + n) as u8);
        assert(digits_value(s) == digits_value(s.drop_last()) * 10 + (s.last() - 0x30));
    } else {
        lemma_to_decimal(n / 10);
        assert(s.drop_last() =~= to_decimal(n / 10));
        assert(s.last() == (0x30 + n % 10) as u8);
        assert(n == (n / 10) * 10 + n % 10);
        assert(digits_value(s) == digits_value(s.drop_last()) * 10 + (s.last() - 0x30));
    }
}

/// Reading back a number written in decimal gives the number: every `u64`
/// written as its digits, with or without a leading `+`, parses to itself.
pub proof fn law_decimal_round_trip(n: u64)
    ensures
        decimal(to_decimal(n as nat)) == Some(n),
        decimal(seq![0x2bu8] + to_decimal(n as nat)) == Some(n),
{
    lemma_to_decimal(n as nat);
    let s = to_decimal(n as nat);
    assert(s[0] != 0x2b);
    assert((seq![0x2bu8] + s).skip(1) =~= s);
}

proof fn lemma_next_with_at(s: Seq<u8>, i: int, j: int, space: bool)
    requires
        0 <= i <= j <= s.len(),
        forall|k: int| i <= k < j ==> is_space(#[trigger] s[k]) != space,
        j == s.len() || is_space(s[j]) == space,
    ensures
        next_with(s, i, space) == j,
    decreases j - i,
{
    if i < j {
        lemma_next_with_at(s, i + 1, j, space);
    }
}

proof fn lemma_next_line_feed_at(s: Seq<u8>, i: int, j: int)
    requires
        0 <= i <= j <= s.len(),
        forall|k: int| i <= k < j ==> #[trigger] s[k] != 0x0a,
        j == s.len() || s[j] == 0x0a,
    ensures
        next_line_feed(s, i) == j,
    decreases j - i,
{
    if i < j {
        lemma_next_line_feed_at(s, i + 1, j);
    }
}

/// A size report whose second line holds the text and data sizes in decimal
/// as its first two fields, after a space and separated by one, gives those
/// sizes, whatever its first line and the rest of the report hold.
pub proof fn law_size_report_fields(head: Seq<u8>, text: u64, data: u64, rest: Seq<u8>)
    requires
        forall|k: int| 0 <= k < head.len() ==> #[trigger] head[k] != 0x0a,
        rest.len() == 0 || is_space(rest[0]),
    ensures
        size_report(
            head + seq![0x0au8, 0x20u8] + to_decimal(text as nat) + seq![0x20u8] + to_decimal(
                data as nat,
            ) + rest,
        ) == Some((text, data)),
{
    let t = to_decimal(text as nat);
    let d = to_decimal(data as nat);
    lemma_to_decimal(text as nat);
    lemma_to_decimal(data as nat);
    law_decimal_round_trip(text);
    law_decimal_round_trip(data);
    let line = seq![0x20u8] + t + seq![0x20u8] + d;
    let report = head + seq![0x0au8] + line + rest;
    assert(report =~= head + seq![0x0au8, 0x20u8] + t + seq![0x20u8] + d + rest);
    let h = head.len() as int;
    let tl = t.len() as int;
    let tail = line + rest;
    assert forall|k: int| 0 <= k < line.len() implies #[trigger] line[k] != 0x0a && (k != 0 && k
        != t.len() + 1 ==> !is_space(line[k])) by {
        if 1 <= k < t.len() + 1 {
            assert(line[k] == t[k - 1]);
        } else if k > t.len() + 1 {
            assert(line[k] == d[k - t.len() - 2]);
        }
    }
    lemma_next_line_feed_at(report, 0, h);
    let e = next_line_feed(rest, 0);
    assert(0 <= e <= rest.len()) by {
        lemma_next_line_feed_bounds(rest, 0);
    }
    {
        assert forall|k: int| h + 1 <= k < h + 1 + line.len() + e implies #[trigger] report[k]
            != 0x0a by {
            if k < h + 1 + line.len() {
                assert(report[k] == line[k - h - 1]);
            } else {
                assert(report[k] == rest[k - h - 1 - line.len()]);
                lemma_no_line_feed_before(rest, 0, k - h - 1 - line.len());
            }
        }
        if h + 1 + line.len() + e < report.len() {
            assert(report[h + 1 + line.len() + e] == rest[e]);
            lemma_next_line_feed_bounds(rest, 0);
        }
    }
    lemma_next_line_feed_at(report, h + 1, h + 1 + line.len() + e);
    let row = report.subrange(h + 1, h + 1 + line.len() + e);
    assert(size_row(report) == row);
    assert forall|k: int| 0 <= k < line.len() implies #[trigger] row[k] == line[k] by {
        assert(report[h + 1 + k] == line[k]);
    }
    lemma_next_with_at(row, 0, 1, false);
    lemma_next_with_at(row, 1, 1 + tl, true);
    lemma_next_with_at(row, 1 + tl, 2 + tl, false);
    if line.len() < row.len() {
        assert(row[line.len() as int] == rest[0]);
    }
    lemma_next_with_at(row, 2 + tl, line.len() as int, true);
    assert(row.subrange(1, 1 + tl) =~= t);
    assert(row.subrange(2 + tl, line.len() as int) =~= d);
}

proof fn lemma_next_line_feed_bounds(s: Seq<u8>, i: int)
    requires
        0 <= i <= s.len(),
    ensures
        i <= next_line_feed(s, i) <= s.len(),
        next_line_feed(s, i) < s.len() ==> s[next_line_feed(s, i)] == 0x0a,
    decreases s.len() - i,
{
    if i < s.len() && s[i] != 0x0a {
        lemma_next_line_feed_bounds(s, i + 1);
    }
}

proof fn lemma_no_line_feed_before(s: Seq<u8>, i: int, k: int)
    requires
        0 <= i <= k < next_line_feed(s, i),
        next_line_feed(s, i) <= s.len(),
    ensures
        s[k] != 0x0a,
    decreases k - i,
{
    if i < k {
        lemma_no_line_feed_before(s, i + 1, k);
    }
}

/// The index at or after `i` that `next_with` gives.
fn scan_with(s: &[u8], i: usize, space: bool) -> (r: usize)
    requires
        i <= s@.len(),
    ensures
        r == next_with(s@, i as int, space),
        i <= r <= s@.len(),
    decreases s@.len() - i,
{
    if i >= s.len() {
        return i;
    }
    let b = s[i];
    let is_ws = b == 0x20 || (0x09 <= b && b <= 0x0d);
    if is_ws == space {
        i
    } else {
        scan_with(s, i + 1, space)
    }
}

/// The index at or after `i` that `next_line_feed` gives.
fn scan_line_feed(s: &[u8], i: usize) -> (r: usize)
    requires
        i <= s@.len(),
    ensures
        r == next_line_feed(s@, i as int),
        i <= r <= s@.len(),
    decreases s@.len() - i,
{
    if i >= s.len() || s[i] == 0x0a {
        i
    } else {
        scan_line_feed(s, i + 1)
    }
}

/// Parses one decimal field as `decimal` does.
#[verifier::loop_isolation(false)]
pub fn parse_decimal(field: &[u8]) -> (r: Option<u64>)
    ensures
        r == decimal(field@),
{
    let start: usize = if field.len() > 0 && field[0] == 0x2b {
        1
    } else {
        0
    };
    let ghost digits = if field@.len() > 0 && field@[0] == 0x2b {
        field@.skip(1)
    } else {
        field@
    };
    assert(digits =~= field@.skip(start as int));
    if start >= field.len() {
        return None;
    }
    let mut value: u64 = 0;
    let mut i: usize = start;
    while i < field.len()
        invariant
            start <= i <= field@.len(),
            digits =~= field@.skip(start as int),
            all_digits(digits.take(i - start)),
            value == digits_value(digits.take(i - start)),
        decreases field@.len() - i,
    {
        let ghost k = i - start;
        assert(digits.take(k + 1).drop_last() =~= digits.take(k));
        assert(digits[k] == field@[i as int]);
        let b = field[i];
        if b < 0x30 || b > 0x39 {
            assert(!all_digits(digits));
            return None;
        }
        let next = match value.checked_mul(10) {
            Some(v) => match v.checked_add((b - 0x30) as u64) {
                Some(v) => v,
                None => {
                    proof {
                        assert(all_digits(digits.take(k + 1)));
                        if all_digits(digits) {
                            lemma_digits_prefix(digits, k + 1);
                        }
                    }
                    return None;
                },
            },
            None => {
                proof {
                    assert(all_digits(digits.take(k + 1)));
                    lemma_digits_nonnegative(digits.take(k));
                    if all_digits(digits) {
                        lemma_digits_prefix(digits, k + 1);
                    }
                }
                return None;
            },
        };
        value = next;
        i += 1;
        proof {
            assert(all_digits(digits.take(i - start)));
        }
    }
    assert(digits.take(i - start) =~= digits);
    Some(value)
}

/// The text and data sizes of a size report: the first two decimal fields
/// of its second line.
pub fn size_fields(report: &[u8]) -> (r: Option<(u64, u64)>)
    ensures
        r == size_report(report@),
{
    let first = scan_line_feed(report, 0);
    if first >= report.len() {
        assert(size_row(report@) =~= Seq::<u8>::empty());
        return None;
    }
    let end = scan_line_feed(report, first + 1);
    let row = vstd::slice::slice_subrange(report, first + 1, end);
    assert(row@ =~= size_row(report@));
    let s0 = scan_with(row, 0, false);
    let e0 = scan_with(row, s0, true);
    let s1 = scan_with(row, e0, false);
    let e1 = scan_with(row, s1, true);
    if s1 >= row.len() {
        return None;
    }
    let text = parse_decimal(vstd::slice::slice_subrange(row, s0, e0));
    let data = parse_decimal(vstd::slice::slice_subrange(row, s1, e1));
    match (text, data) {
        (Some(t), Some(d)) => Some((t, d)),
        _ => None,
    }
}

/// Checks an image's text and data against its flash limit: their sum when
/// it fits, otherwise the sum as the error.
pub fn check_image_size(image: FirmwareImage, text: u64, data: u64) -> (r: Result<u64, u64>)
    requires
        text + data <= u64::MAX,
    ensures
        r is Ok <==> text + data <= flash_limit(image),
        r == if text + data <= flash_limit(image) {
            Ok::<u64, u64>((text + data) as u64)
        } else {
            Err::<u64, u64>((text + data) as u64)
        },
{
    let flash = text + data;
    if flash > image_flash_limit(image) {
        Err(flash)
    } else {
        Ok(flash)
    }
}

} // verus!
