//! The table printed after a scan: a header and the largest entries, sizes in
//! megabytes rounded to hundredths.

use vstd::prelude::*;

verus! {

/// Width of each column of the table, in characters.
pub const COLUMN_WIDTH: i32 = 24;

/// The most rows the table shows.
pub const MAX_ROWS: usize = 10;

pub const BYTES_PER_MB: u64 = 1048576;

/// `n` spaces.
pub open spec fn spaces(n: nat) -> Seq<char> {
    Seq::new(n, |i: int| ' ')
}

/// `s` followed by as many spaces as it takes to reach `width` characters;
/// a longer `s` is left as it is.
pub open spec fn padded(s: Seq<char>, width: int) -> Seq<char> {
    if width > s.len() {
        s + spaces((width - s.len()) as nat)
    } else {
        s
    }
}

pub open spec fn digit(d: nat) -> char {
    seq!['0', '1', '2', '3', '4', '5', '6', '7', '8', '9'][d as int]
}

/// The decimal digits of `n`, without leading zeros.
pub open spec fn decimal(n: nat) -> Seq<char>
    decreases n,
{
    if n < 10 {
        seq![digit(n)]
    } else {
        decimal(n / 10).push(digit(n % 10))
    }
}

/// A size in hundredths of a megabyte, rounded half up.
pub open spec fn centi_mb(bytes: nat) -> nat {
    (bytes * 100 + 524288) / 1048576
}

/// A number of hundredths written as a decimal number, without trailing zeros
/// after the point and without a point for a whole number.
pub open spec fn hundredths_text(c: nat) -> Seq<char> {
    let whole = decimal(c / 100);
    let f = c % 100;
    if f == 0 {
        whole
    } else if f % 10 == 0 {
        whole + seq!['.', digit(f / 10)]
    } else {
        whole + seq!['.', digit(f / 10), digit(f % 10)]
    }
}

/// A size as shown in the table: megabytes to the hundredth, then `mb`.
pub open spec fn mb_label(bytes: nat) -> Seq<char> {
    hundredths_text(centi_mb(bytes)) + seq!['m', 'b']
}

pub open spec fn header_line() -> Seq<char> {
    padded("size"@, COLUMN_WIDTH as int) + padded("dir"@, COLUMN_WIDTH as int)
}

pub open spec fn row_line(r: (u64, String)) -> Seq<char> {
    padded(mb_label(r.0 as nat), COLUMN_WIDTH as int) + padded(r.1@, COLUMN_WIDTH as int)
}

/// The lines of the table for results ordered largest first: the line that
/// says there is nothing when there are no results, else a header and one row
/// for each of the first results, at most `MAX_ROWS`.
pub open spec fn report(rs: Seq<(u64, String)>) -> Seq<Seq<char>> {
    if rs.len() == 0 {
        seq!["nothing in the path."@]
    } else {
        let n = if rs.len() < MAX_ROWS { rs.len() } else { MAX_ROWS as nat };
        seq![header_line()] + Seq::new(n, |k: int| row_line(rs[k]))
    }
}

/// `s` padded with spaces on the right to `indent` characters.
pub fn str_padding(s: &str, indent: i32) -> (r: String)
    ensures
        r@ == padded(s@, indent as int),
{
    let mut r = String::from_str(s);
    let len = s.unicode_len();
    if indent > 0 && (len as u64) < (indent as u64) {
        let gap: usize = (indent as u64 - len as u64) as usize;
        let mut k: usize = 0;
        while k < gap
            invariant
                k <= gap,
                gap == indent - s@.len(),
                r@ == s@ + spaces(k as nat),
            decreases gap - k,
        {
            proof {
                reveal_strlit(" ");
            }
            r.append(" ");
            k = k + 1;
            assert(r@ =~= s@ + spaces(k as nat));
        }
    } else {
        assert(r@ =~= padded(s@, indent as int));
    }
    r
}

fn digit_str(d: u64) -> (r: &'static str)
    requires
        d < 10,
    ensures
        r@ == seq![digit(d as nat)],
{
    proof {
        reveal_strlit("0");
        reveal_strlit("1");
        reveal_strlit("2");
        reveal_strlit("3");
        reveal_strlit("4");
        reveal_strlit("5");
        reveal_strlit("6");
        reveal_strlit("7");
        reveal_strlit("8");
        reveal_strlit("9");
    }
    match d {
        0 => "0",
        1 => "1",
        2 => "2",
        3 => "3",
        4 => "4",
        5 => "5",
        6 => "6",
        7 => "7",
        8 => "8",
        _ => "9",
    }
}

fn append_decimal(out: &mut String, n: u64)
    ensures
        final(out)@ == old(out)@ + decimal(n as nat),
    decreases n,
{
    if n >= 10 {
        append_decimal(out, n / 10);
    }
    out.append(digit_str(n % 10));
    assert(final(out)@ =~= old(out)@ + decimal(n as nat));
}

/// The size `bytes` as the table shows it, e.g. `2.38mb` for 2,500,000 bytes.
pub fn megabytes_label(bytes: u64) -> (r: String)
    ensures
        r@ == mb_label(bytes as nat),
{
    let scaled: u128 = (bytes as u128) * 100 + 524288;
    let c128: u128 = scaled / (BYTES_PER_MB as u128);
    assert(c128 < 0x1_0000_0000_0000_0000) by (nonlinear_arith)
        requires
            c128 == ((bytes as int) * 100 + 524288) / 1048576,
            bytes <= u64::MAX,
    {}
    let c: u64 = c128 as u64;
    let whole = c / 100;
    let f = c % 100;
    let mut r = String::new();
    append_decimal(&mut r, whole);
    if f != 0 {
        proof {
            reveal_strlit(".");
        }
        r.append(".");
        r.append(digit_str(f / 10));
        if f % 10 != 0 {
            r.append(digit_str(f % 10));
        }
    }
    proof {
        reveal_strlit("mb");
    }
    r.append("mb");
    assert(r@ =~= mb_label(bytes as nat));
    r
}

/// The lines of the table for `results`, which a scan ordered largest first.
pub fn report_lines(results: &Vec<(u64, String)>) -> (lines: Vec<String>)
    ensures
        lines@.map_values(|l: String| l@) == report(results@),
{
    let mut lines: Vec<String> = Vec::new();
    if results.len() == 0 {
        lines.push(String::from_str("nothing in the path."));
        assert(lines@.map_values(|l: String| l@) =~= report(results@));
        return lines;
    }
    let mut head = str_padding("size", COLUMN_WIDTH);
    let dir = str_padding("dir", COLUMN_WIDTH);
    head.append(dir.as_str());
    lines.push(head);
    let n: usize = if results.len() < MAX_ROWS {
        results.len()
    } else {
        MAX_ROWS
    };
    let mut k: usize = 0;
    while k < n
        invariant
            k <= n,
            n <= results@.len(),
            n == (if results@.len() < MAX_ROWS { results@.len() } else { MAX_ROWS as nat }),
            lines@.len() == k + 1,
            lines@[0]@ == header_line(),
            forall|j: int| 0 <= j < k ==> lines@[j + 1]@ == row_line(#[trigger] results@[j]),
        decreases n - k,
    {
        let label = megabytes_label(results[k].0);
        let mut line = str_padding(label.as_str(), COLUMN_WIDTH);
        let name = str_padding(results[k].1.as_str(), COLUMN_WIDTH);
        line.append(name.as_str());
        lines.push(line);
        k = k + 1;
    }
    assert(lines@.map_values(|l: String| l@) =~= report(results@));
    lines
}

} // verus!
