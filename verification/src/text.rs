//! Text built from literals and decimal numbers.
use vstd::prelude::*;
use vstd::string::*;

verus! {

/// The decimal digit of a number below ten.
pub open spec fn digit(n: nat) -> char {
    ('0' as u32 + n) as char
}

/// The decimal numeral of a natural number, without leading zeros.
pub open spec fn decimal(n: nat) -> Seq<char>
    decreases n,
{
    if n < 10 {
        seq![digit(n)]
    } else {
        decimal(n / 10).push(digit(n % 10))
    }
}

/// The decimal numeral of an integer, with a minus sign when negative.
pub open spec fn signed_decimal(n: int) -> Seq<char> {
    if n < 0 {
        "-"@ + decimal((-n) as nat)
    } else {
        decimal(n as nat)
    }
}

/// Comma-separated decimal numerals.
pub open spec fn joined_decimals(items: Seq<u8>) -> Seq<char>
    decreases items.len(),
{
    if items.len() == 0 {
        Seq::empty()
    } else if items.len() == 1 {
        decimal(items[0] as nat)
    } else {
        joined_decimals(items.drop_last()) + ", "@ + decimal(items.last() as nat)
    }
}

fn digit_text(n: u8) -> (r: &'static str)
    requires
        n < 10,
    ensures
        r@ == seq![digit(n as nat)],
{
    proof {
        reveal_strlit("0");
        reveal_strlit("1");
        reveal_strlit("2");
        reveal_strlit("3");
        reveal_strlit("4");
        reveal_strlit("5");
        reveal_strlit("6");
        reveal_strlit("7");
        reveal_strlit("8");
        reveal_strlit("9");
    }
    let r = match n {
        0 => "0",
        1 => "1",
        2 => "2",
        3 => "3",
        4 => "4",
        5 => "5",
        6 => "6",
        7 => "7",
        8 => "8",
        _ => "9",
    };
    assert(r@ =~= seq![digit(n as nat)]);
    r
}

/// Writes a number in decimal.
pub fn decimal_text(n: u64) -> (r: String)
    ensures
        r@ == decimal(n as nat),
{
    wide_decimal_text(n as u128)
}

/// Writes a large number in decimal.
pub fn wide_decimal_text(n: u128) -> (r: String)
    ensures
        r@ == decimal(n as nat),
    decreases n,
{
    if n < 10 {
        digit_text(n as u8).to_owned()
    } else {
        let mut text = wide_decimal_text(n / 10);
        text.append(digit_text((n % 10) as u8));
        proof {
            assert(text@ =~= decimal(n as nat));
        }
        text
    }
}

/// Writes a signed number in decimal.
pub fn signed_decimal_text(n: i32) -> (r: String)
    ensures
        r@ == signed_decimal(n as int),
{
    if n < 0 {
        let mut text = "-".to_owned();
        text.append(decimal_text((-(n as i64)) as u64).as_str());
        text
    } else {
        decimal_text(n as u64)
    }
}

/// Writes a list of bytes in decimal, between square brackets.
pub fn byte_list_text(items: &[u8]) -> (r: String)
    ensures
        r@ == "["@ + joined_decimals(items@) + "]"@,
{
    let mut text = "[".to_owned();
    let mut i: usize = 0;
    proof {
        assert(text@ =~= "["@ + joined_decimals(items@.take(0)));
    }
    while i < items.len()
        invariant
            i <= items@.len(),
            text@ == "["@ + joined_decimals(items@.take(i as int)),
        decreases items@.len() - i,
    {
        if i > 0 {
            text.append(", ");
        }
        text.append(decimal_text(items[i] as u64).as_str());
        i = i + 1;
        proof {
            assert(items@.take(i as int).drop_last() =~= items@.take(i - 1));
            assert(text@ =~= "["@ + joined_decimals(items@.take(i as int)));
        }
    }
    text.append("]");
    proof {
        assert(items@.take(i as int) =~= items@);
    }
    text
}

/// Whether two texts are equal.
pub fn same_text(a: &str, b: &str) -> (r: bool)
    ensures
        r == (a@ == b@),
{
    a.to_owned() == b.to_owned()
}

} // verus!
