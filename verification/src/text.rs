//! Writing lengths and lists of names as text.

use vstd::prelude::*;
use vstd::string::StringExecFns;

verus! {

/// The character that writes the digit `d`.
pub open spec fn digit_char(d: nat) -> char {
    if d == 0 {
        '0'
    } else if d == 1 {
        '1'
    } else if d == 2 {
        '2'
    } else if d == 3 {
        '3'
    } else if d == 4 {
        '4'
    } else if d == 5 {
        '5'
    } else if d == 6 {
        '6'
    } else if d == 7 {
        '7'
    } else if d == 8 {
        '8'
    } else {
        '9'
    }
}

/// `n` in decimal digits, without leading zeros.
pub open spec fn decimal(n: nat) -> Seq<char>
    decreases n,
{
    if n < 10 {
        seq![digit_char(n)]
    } else {
        decimal(n / 10).push(digit_char(n % 10))
    }
}

/// The digits after the decimal point of `thousandths` thousandths, for a
/// number between 1 and 999: up to three digits, without trailing zeros.
pub open spec fn fraction(thousandths: nat) -> Seq<char> {
    let tenths: nat = thousandths / 100;
    let hundredths: nat = (thousandths / 10) % 10;
    let last: nat = thousandths % 10;
    if last != 0 {
        seq![digit_char(tenths), digit_char(hundredths), digit_char(last)]
    } else if hundredths != 0 {
        seq![digit_char(tenths), digit_char(hundredths)]
    } else {
        seq![digit_char(tenths)]
    }
}

/// A length of `d` thousandths of a unit, written in units: the whole
/// units, and where there is a fraction, a point and its digits. So 30000
/// is written `30`, and 1500 is written `1.5`.
pub open spec fn distance_text(d: nat) -> Seq<char> {
    if d % 1000 == 0 {
        decimal(d / 1000)
    } else {
        decimal(d / 1000) + seq!['.'] + fraction(d % 1000)
    }
}

/// The parts one after the other, with `separator` between each two.
pub open spec fn joined(parts: Seq<Seq<char>>, separator: Seq<char>) -> Seq<char>
    decreases parts.len(),
{
    if parts.len() == 0 {
        Seq::empty()
    } else if parts.len() == 1 {
        parts[0]
    } else {
        joined(parts.drop_last(), separator) + separator + parts.last()
    }
}

/// The text of one digit.
fn digit_text(d: u8) -> (text: &'static str)
    requires
        d < 10,
    ensures
        text@ == seq![digit_char(d as nat)],
{
    let text: &'static str = match d {
        0 => "0",
        1 => "1",
        2 => "2",
        3 => "3",
        4 => "4",
        5 => "5",
        6 => "6",
        7 => "7",
        8 => "8",
        _ => "9",
    };
    proof {
        reveal_strlit("0");
        reveal_strlit("1");
        reveal_strlit("2");
        reveal_strlit("3");
        reveal_strlit("4");
        reveal_strlit("5");
        reveal_strlit("6");
        reveal_strlit("7");
        reveal_strlit("8");
        reveal_strlit("9");
        assert(text@ =~= seq![digit_char(d as nat)]);
    }
    text
}

/// Appends `n` in decimal digits to `out`.
pub fn push_decimal(out: &mut String, n: u128)
    ensures
        final(out)@ == old(out)@ + decimal(n as nat),
    decreases n,
{
    if n >= 10 {
        push_decimal(out, n / 10);
    }
    let ghost before: Seq<char> = out@;
    out.append(digit_text((n % 10) as u8));
    proof {
        if n >= 10 {
            assert(out@ =~= old(out)@ + decimal(n as nat));
        } else {
            assert(out@ =~= old(out)@ + decimal(n as nat));
        }
    }
}

/// Appends to `out` a length of `d` thousandths of a unit, written in
/// units.
pub fn push_distance(out: &mut String, d: u128)
    ensures
        final(out)@ == old(out)@ + distance_text(d as nat),
{
    push_decimal(out, d / 1000);
    let rest: u128 = d % 1000;
    if rest != 0 {
        let tenths: u8 = (rest / 100) as u8;
        let hundredths: u8 = ((rest / 10) % 10) as u8;
        let last: u8 = (rest % 10) as u8;
        out.append(".");
        out.append(digit_text(tenths));
        if hundredths != 0 || last != 0 {
            out.append(digit_text(hundredths));
        }
        if last != 0 {
            out.append(digit_text(last));
        }
        proof {
            reveal_strlit(".");
            assert("."@ =~= seq!['.']);
            assert(out@ =~= old(out)@ + distance_text(d as nat));
        }
    } else {
        assert(out@ =~= old(out)@ + distance_text(d as nat));
    }
}

/// Appends the parts to `out`, with `separator` between each two.
pub fn push_joined(out: &mut String, parts: &Vec<String>, separator: &str)
    ensures
        final(out)@ == old(out)@ + joined(parts@.map_values(|s: String| s@), separator@),
{
    let ghost texts: Seq<Seq<char>> = parts@.map_values(|s: String| s@);
    let mut k: usize = 0;
    assert(out@ =~= old(out)@ + joined(texts.take(0), separator@));
    while k < parts.len()
        invariant
            k <= parts.len(),
            texts == parts@.map_values(|s: String| s@),
            out@ == old(out)@ + joined(texts.take(k as int), separator@),
        decreases parts.len() - k,
    {
        if k > 0 {
            out.append(separator);
        }
        out.append(parts[k].as_str());
        proof {
            let shorter: Seq<Seq<char>> = texts.take(k as int);
            let longer: Seq<Seq<char>> = texts.take(k + 1);
            assert(longer.drop_last() =~= shorter);
            assert(longer.last() == parts[k as int]@);
            assert(out@ =~= old(out)@ + joined(longer, separator@));
        }
        k += 1;
    }
    assert(texts.take(k as int) =~= texts);
}

} // verus!
