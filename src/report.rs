use vstd::prelude::*;
use vstd::string::StringSliceAdditionalSpecFns;

use crate::account::ClientAccount;

verus! {

/// Amounts are counted in units of one ten-thousandth.
pub const AMOUNT_SCALE: u64 = 10000;

/// The first line of every report.
pub const REPORT_HEADER: &'static str = "client,available,held,total,locked\n";

/// The ASCII digit for `d < 10`.
pub open spec fn digit(d: nat) -> u8 {
    (48 + d) as u8
}

/// The decimal digits of `n`, without leading zeros.
pub open spec fn decimal_text(n: nat) -> Seq<u8>
    decreases n,
{
    if n < 10 {
        seq![digit(n)]
    } else {
        decimal_text(n / 10).push(digit(n % 10))
    }
}

/// An amount in ten-thousandths written with exactly four fractional digits.
pub open spec fn amount_text(v: nat) -> Seq<u8> {
    let f = v % 10000;
    decimal_text(v / 10000) + seq![46u8] + seq![
        digit(f / 1000),
        digit(f / 100 % 10),
        digit(f / 10 % 10),
        digit(f % 10),
    ]
}

/// `true` or `false`.
pub open spec fn flag_text(b: bool) -> Seq<u8> {
    if b {
        "true".spec_bytes()
    } else {
        "false".spec_bytes()
    }
}

/// One report row: `client,available,held,total,locked` and a line break.
pub open spec fn account_line(a: ClientAccount) -> Seq<u8> {
    decimal_text(a.client as nat) + seq![44u8] + amount_text(a.available as nat) + seq![44u8]
        + amount_text(a.held as nat) + seq![44u8] + amount_text(a.total as nat) + seq![44u8]
        + flag_text(a.locked) + seq![10u8]
}

/// The rows of `s`, in order.
pub open spec fn lines_text(s: Seq<ClientAccount>) -> Seq<u8>
    decreases s.len(),
{
    if s.len() == 0 {
        Seq::empty()
    } else {
        lines_text(s.drop_last()) + account_line(s.last())
    }
}

/// The whole report on `s`: the header, then one row per account.
pub open spec fn report_text(s: Seq<ClientAccount>) -> Seq<u8> {
    REPORT_HEADER.spec_bytes() + lines_text(s)
}

/// Appends the decimal digits of `n`.
fn push_decimal(out: &mut Vec<u8>, n: u64)
    ensures
        final(out)@ == old(out)@ + decimal_text(n as nat),
    decreases n,
{
    if n >= 10 {
        push_decimal(out, n / 10);
    }
    out.push((48 + n % 10) as u8);
    assert(final(out)@ =~= old(out)@ + decimal_text(n as nat));
}

/// Appends an amount with four fractional digits.
fn push_amount(out: &mut Vec<u8>, v: u64)
    ensures
        final(out)@ == old(out)@ + amount_text(v as nat),
{
    push_decimal(out, v / AMOUNT_SCALE);
    out.push(46u8);
    let f = v % AMOUNT_SCALE;
    out.push((48 + f / 1000) as u8);
    out.push((48 + f / 100 % 10) as u8);
    out.push((48 + f / 10 % 10) as u8);
    out.push((48 + f % 10) as u8);
    assert(final(out)@ =~= old(out)@ + amount_text(v as nat));
}

/// Renders an amount given in ten-thousandths with four fractional digits,
/// as the report writes it (`1234500` gives `123.4500`).
pub fn render_amount(v: u64) -> (r: Vec<u8>)
    ensures
        r@ == amount_text(v as nat),
{
    let mut out: Vec<u8> = Vec::new();
    push_amount(&mut out, v);
    assert(out@ =~= amount_text(v as nat));
    out
}

/// Appends one report row.
fn push_line(out: &mut Vec<u8>, a: &ClientAccount)
    ensures
        final(out)@ == old(out)@ + account_line(*a),
{
    push_decimal(out, a.client as u64);
    out.push(44u8);
    push_amount(out, a.available);
    out.push(44u8);
    push_amount(out, a.held);
    out.push(44u8);
    push_amount(out, a.total);
    out.push(44u8);
    if a.locked {
        out.extend_from_slice("true".as_bytes());
    } else {
        out.extend_from_slice("false".as_bytes());
    }
    out.push(10u8);
    assert(final(out)@ =~= old(out)@ + account_line(*a));
}

/// The report on `accounts`: the header, then one row per account in the
/// given order, each amount with four fractional digits.
pub fn render_report(accounts: &Vec<ClientAccount>) -> (r: Vec<u8>)
    ensures
        r@ == report_text(accounts@),
{
    let mut out: Vec<u8> = Vec::new();
    out.extend_from_slice(REPORT_HEADER.as_bytes());
    let mut i: usize = 0;
    while i < accounts.len()
        invariant
            i <= accounts@.len(),
            out@ == REPORT_HEADER.spec_bytes() + lines_text(accounts@.take(i as int)),
        decreases accounts@.len() - i,
    {
        push_line(&mut out, &accounts[i]);
        assert(accounts@.take(i as int + 1).drop_last() =~= accounts@.take(i as int));
        assert(out@ =~= REPORT_HEADER.spec_bytes() + lines_text(accounts@.take(i as int + 1)));
        i = i + 1;
    }
    assert(accounts@.take(i as int) =~= accounts@);
    out
}

} // verus!
