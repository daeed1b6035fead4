//! Numbers as text: in hexadecimal digits, with zeros in front up to a width, and in decimal
//! digits.
use vstd::prelude::*;
use vstd::string::*;

verus! {

/// The digit of a number below sixteen: that of the number below ten, and a small letter
/// from `a` on for ten and above.
pub open spec fn digit_char(n: int) -> char {
    if n == 0 {
        '0'
    } else if n == 1 {
        '1'
    } else if n == 2 {
        '2'
    } else if n == 3 {
        '3'
    } else if n == 4 {
        '4'
    } else if n == 5 {
        '5'
    } else if n == 6 {
        '6'
    } else if n == 7 {
        '7'
    } else if n == 8 {
        '8'
    } else if n == 9 {
        '9'
    } else if n == 10 {
        'a'
    } else if n == 11 {
        'b'
    } else if n == 12 {
        'c'
    } else if n == 13 {
        'd'
    } else if n == 14 {
        'e'
    } else {
        'f'
    }
}

/// A number in hexadecimal digits, with zeros in front up to `width` digits.
pub open spec fn spec_hex(value: nat, width: nat) -> Seq<char>
    decreases value, width,
{
    if value < 16 && width <= 1 {
        seq![digit_char(value as int)]
    } else {
        spec_hex(value / 16, if width > 0 { (width - 1) as nat } else { 0 }).push(
            digit_char((value % 16) as int),
        )
    }
}

/// A number in decimal digits.
pub open spec fn spec_decimal(value: nat) -> Seq<char>
    decreases value,
{
    if value < 10 {
        seq![digit_char(value as int)]
    } else {
        spec_decimal(value / 10).push(digit_char((value % 10) as int))
    }
}

/// The digits of a run of numbers below sixteen, the last number first.
pub open spec fn spec_digits_reversed(digits: Seq<u8>) -> Seq<char>
    decreases digits.len(),
{
    if digits.len() == 0 {
        Seq::empty()
    } else {
        seq![digit_char(digits.last() as int)] + spec_digits_reversed(digits.drop_last())
    }
}

fn digit_str(n: u8) -> (s: &'static str)
    requires
        n < 16,
    ensures
        s@ == seq![digit_char(n as int)],
{
    proof {
        reveal_strlit("0");
        reveal_strlit("1");
        reveal_strlit("2");
        reveal_strlit("3");
        reveal_strlit("4");
        reveal_strlit("5");
        reveal_strlit("6");
        reveal_strlit("7");
        reveal_strlit("8");
        reveal_strlit("9");
        reveal_strlit("a");
        reveal_strlit("b");
        reveal_strlit("c");
        reveal_strlit("d");
        reveal_strlit("e");
        reveal_strlit("f");
    }
    let s: &'static str = if n == 0 {
        "0"
    } else if n == 1 {
        "1"
    } else if n == 2 {
        "2"
    } else if n == 3 {
        "3"
    } else if n == 4 {
        "4"
    } else if n == 5 {
        "5"
    } else if n == 6 {
        "6"
    } else if n == 7 {
        "7"
    } else if n == 8 {
        "8"
    } else if n == 9 {
        "9"
    } else if n == 10 {
        "a"
    } else if n == 11 {
        "b"
    } else if n == 12 {
        "c"
    } else if n == 13 {
        "d"
    } else if n == 14 {
        "e"
    } else {
        "f"
    };
    assert(s@ =~= seq![digit_char(n as int)]);
    s
}

/// A number in decimal digits.
pub fn format_decimal(value: u64) -> (s: String)
    ensures
        s@ == spec_decimal(value as nat),
{
    // the digits, the lowest first
    let mut digits: Vec<u8> = Vec::new();
    let mut v: u64 = value;
    loop
        invariant_except_break
            forall|i: int| 0 <= i < digits@.len() ==> digits@[i] < 10,
            spec_decimal(value as nat) == spec_decimal(v as nat) + spec_digits_reversed(digits@),
        ensures
            forall|i: int| 0 <= i < digits@.len() ==> digits@[i] < 16,
            spec_decimal(value as nat) == spec_digits_reversed(digits@),
        decreases v,
    {
        let ghost before = digits@;
        if v < 10 {
            digits.push(v as u8);
            proof {
                assert(digits@.drop_last() =~= before);
                assert(seq![digit_char(v as int)] + spec_digits_reversed(before) =~= spec_decimal(
                    v as nat,
                ) + spec_digits_reversed(before));
            }
            break ;
        }
        let d: u8 = (v % 10) as u8;
        digits.push(d);
        proof {
            assert(digits@.drop_last() =~= before);
            let shorter = spec_decimal((v / 10) as nat);
            assert(shorter.push(digit_char(d as int)) + spec_digits_reversed(before) =~= shorter
                + (seq![digit_char(d as int)] + spec_digits_reversed(before)));
        }
        v = v / 10;
    }
    digits_text(&digits)
}

/// A number in hexadecimal digits, with zeros in front up to `width` digits.
pub fn format_hex(value: u64, width: usize) -> (s: String)
    ensures
        s@ == spec_hex(value as nat, width as nat),
{
    // the digits, the lowest first
    let mut digits: Vec<u8> = Vec::new();
    let mut v: u64 = value;
    let mut w: usize = width;
    loop
        invariant_except_break
            forall|i: int| 0 <= i < digits@.len() ==> digits@[i] < 16,
            spec_hex(value as nat, width as nat) == spec_hex(v as nat, w as nat)
                + spec_digits_reversed(digits@),
        ensures
            forall|i: int| 0 <= i < digits@.len() ==> digits@[i] < 16,
            spec_hex(value as nat, width as nat) == spec_digits_reversed(digits@),
        decreases v, w,
    {
        let ghost before = digits@;
        if v < 16 && w <= 1 {
            digits.push(v as u8);
            proof {
                assert(digits@.drop_last() =~= before);
                assert(seq![digit_char(v as int)] + spec_digits_reversed(before) =~= spec_hex(
                    v as nat,
                    w as nat,
                ) + spec_digits_reversed(before));
            }
            break ;
        }
        let d: u8 = (v % 16) as u8;
        digits.push(d);
        proof {
            assert(digits@.drop_last() =~= before);
            let shorter = spec_hex((v / 16) as nat, if w > 0 { (w - 1) as nat } else { 0 });
            assert(shorter.push(digit_char(d as int)) + spec_digits_reversed(before) =~= shorter
                + (seq![digit_char(d as int)] + spec_digits_reversed(before)));
        }
        v = v / 16;
        w = if w > 0 {
            w - 1
        } else {
            0
        };
    }
    digits_text(&digits)
}

/// The digits of a run of numbers below sixteen as text, the last number first.
fn digits_text(digits: &Vec<u8>) -> (s: String)
    requires
        forall|i: int| 0 <= i < digits@.len() ==> digits@[i] < 16,
    ensures
        s@ == spec_digits_reversed(digits@),
{
    let mut s = String::new();
    let mut i: usize = digits.len();
    assert(digits@.take(i as int) =~= digits@);
    assert(s@ + spec_digits_reversed(digits@) =~= spec_digits_reversed(digits@));
    while i > 0
        invariant
            i <= digits@.len(),
            forall|k: int| 0 <= k < digits@.len() ==> digits@[k] < 16,
            s@ + spec_digits_reversed(digits@.take(i as int)) == spec_digits_reversed(digits@),
        decreases i,
    {
        let ghost before = s@;
        i = i - 1;
        s.append(digit_str(digits[i]));
        proof {
            let upto = digits@.take(i + 1);
            assert(upto.last() == digits@[i as int]);
            assert(upto.drop_last() =~= digits@.take(i as int));
            assert(before + (seq![digit_char(digits@[i as int] as int)] + spec_digits_reversed(
                digits@.take(i as int),
            )) =~= (before + seq![digit_char(digits@[i as int] as int)]) + spec_digits_reversed(
                digits@.take(i as int),
            ));
        }
    }
    assert(digits@.take(0) =~= Seq::<u8>::empty());
    assert(s@ + Seq::<char>::empty() =~= s@);
    s
}

/// Bytes as a list of decimal numbers in square brackets, with a comma and a space between
/// one number and the next.
pub open spec fn spec_byte_list(bytes: Seq<u8>) -> Seq<char> {
    "["@ + spec_byte_items(bytes) + "]"@
}

/// Bytes as decimal numbers, with a comma and a space between one number and the next.
pub open spec fn spec_byte_items(bytes: Seq<u8>) -> Seq<char>
    decreases bytes.len(),
{
    if bytes.len() == 0 {
        Seq::empty()
    } else if bytes.len() == 1 {
        spec_decimal(bytes.last() as nat)
    } else {
        spec_byte_items(bytes.drop_last()) + ", "@ + spec_decimal(bytes.last() as nat)
    }
}

/// Bytes as a list of decimal numbers in square brackets.
pub fn format_byte_list(bytes: &Vec<u8>) -> (s: String)
    ensures
        s@ == spec_byte_list(bytes@),
{
    let mut s = String::from_str("[");
    let mut i: usize = 0;
    assert(bytes@.take(0) =~= Seq::<u8>::empty());
    assert(s@ =~= "["@ + spec_byte_items(bytes@.take(0)));
    while i < bytes.len()
        invariant
            i <= bytes@.len(),
            s@ == "["@ + spec_byte_items(bytes@.take(i as int)),
        decreases bytes@.len() - i,
    {
        let ghost before = s@;
        let ghost items = spec_byte_items(bytes@.take(i as int));
        if i > 0 {
            s.append(", ");
        }
        let digits = format_decimal(bytes[i] as u64);
        s.append(digits.as_str());
        proof {
            assert(bytes@.take(i + 1).drop_last() =~= bytes@.take(i as int));
            assert(bytes@.take(i + 1).last() == bytes@[i as int]);
            if i == 0 {
                assert(items =~= Seq::<char>::empty());
                assert(s@ =~= "["@ + digits@);
            } else {
                assert(s@ =~= "["@ + (items + ", "@ + digits@));
            }
        }
        i = i + 1;
    }
    assert(bytes@.take(i as int) =~= bytes@);
    s.append("]");
    s
}

} // verus!
