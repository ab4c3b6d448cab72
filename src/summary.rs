use vstd::prelude::*;
use vstd::string::*;
use crate::sources::{format_instant, in_chrono_range, rfc3339_of};

verus! {

/// The number of records that the summary lists.
pub const TOP_COUNT: usize = 5;

/// The digit character of `d < 10`.
pub open spec fn digit_char(d: int) -> char {
    seq!['0', '1', '2', '3', '4', '5', '6', '7', '8', '9'][d]
}

/// The decimal digits of a natural number, most significant first.
pub open spec fn digits_of(n: nat) -> Seq<char>
    decreases n,
{
    if n < 10 {
        seq![digit_char(n as int)]
    } else {
        digits_of(n / 10).push(digit_char((n % 10) as int))
    }
}

/// The decimal text of an integer, with a leading '-' when negative.
pub open spec fn decimal_of(n: int) -> Seq<char> {
    if n < 0 {
        seq!['-'] + digits_of((-n) as nat)
    } else {
        digits_of(n as nat)
    }
}

/// Relies on `i64`'s `ToString` (its `Display`): the decimal text of the
/// number, a leading '-' when negative.
#[verifier::external_body]
fn decimal_text(n: i64) -> (r: String)
    ensures
        r@ == decimal_of(n as int),
{
    n.to_string()
}

/// One line of text of the summary image: its text, position and font size.
pub struct TextLine {
    pub text: String,
    pub x: i32,
    pub y: i32,
    pub size: u32,
}

pub open spec fn is_line(l: TextLine, text: Seq<char>, y: int, size: u32) -> bool {
    l.text@ == text && l.x == 50 && l.y == y && l.size == size
}

/// The number of entries that the summary lists out of `n`.
pub open spec fn listed(n: int) -> int {
    if n < TOP_COUNT { n } else { TOP_COUNT as int }
}

fn line(text: String, y: i32, size: u32) -> (r: TextLine)
    ensures
        is_line(r, text@, y as int, size),
{
    TextLine { text, x: 50, y, size }
}

/// The fixed layout of the summary image: the title, the total count, one
/// line `name: estimate` for each of the first five entries of `top` (the
/// estimates already written as text), and the refresh time of the run,
/// which is left blank only for an instant that chrono cannot represent.
pub fn summary_lines(total: i64, top: &Vec<(String, String)>, now: i64) -> (r: Vec<TextLine>)
    ensures
        r@.len() == 3 + listed(top@.len() as int),
        is_line(r@[0], "Country Summary"@, 50, 30),
        is_line(r@[1], "Total Countries: "@ + decimal_of(total as int), 100, 20),
        forall|k: int|
            0 <= k < listed(top@.len() as int) ==> is_line(
                #[trigger] r@[2 + k],
                top@[k].0@ + ": "@ + top@[k].1@,
                150 + 30 * k,
                16,
            ),
        ({
            let last = r@[r@.len() - 1];
            let m = listed(top@.len() as int);
            &&& last.x == 50 && last.y == 200 + 30 * m && last.size == 16
            &&& in_chrono_range(now as int) ==> last.text@ == "Last Refreshed: "@ + rfc3339_of(now as int)
            &&& !in_chrono_range(now as int) ==> (last.text@ == "Last Refreshed: "@ + rfc3339_of(now as int)
                || last.text@ == "Last Refreshed: "@)
        }),
{
    let mut out: Vec<TextLine> = Vec::new();
    out.push(line(String::from_str("Country Summary"), 50, 30));
    let mut total_text = String::from_str("Total Countries: ");
    total_text.append(decimal_text(total).as_str());
    out.push(line(total_text, 100, 20));
    let n: usize = if top.len() < TOP_COUNT { top.len() } else { TOP_COUNT };
    let mut k: usize = 0;
    let mut y: i32 = 150;
    while k < n
        invariant
            n == listed(top@.len() as int),
            n <= TOP_COUNT,
            k <= n,
            y == 150 + 30 * k,
            out@.len() == 2 + k,
            is_line(out@[0], "Country Summary"@, 50, 30),
            is_line(out@[1], "Total Countries: "@ + decimal_of(total as int), 100, 20),
            forall|j: int|
                0 <= j < k ==> is_line(#[trigger] out@[2 + j], top@[j].0@ + ": "@ + top@[j].1@, 150 + 30 * j, 16),
        decreases n - k,
    {
        let mut text = top[k].0.clone();
        text.append(": ");
        text.append(top[k].1.as_str());
        out.push(line(text, y, 16));
        k = k + 1;
        y = y + 30;
    }
    let mut last = String::from_str("Last Refreshed: ");
    match format_instant(now) {
        Some(t) => last.append(t.as_str()),
        None => {},
    }
    out.push(line(last, y + 50, 16));
    out
}

} // verus!
