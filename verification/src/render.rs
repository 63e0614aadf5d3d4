//! Verified text rendering: lower-case hex and decimal numerals.

use vstd::prelude::*;

verus! {

/// The lower-case hex digit for a nibble value; values above 15 have none.
pub open spec fn hex_char(n: u8) -> char {
    if n == 0 {
        '0'
    } else if n == 1 {
        '1'
    } else if n == 2 {
        '2'
    } else if n == 3 {
        '3'
    } else if n == 4 {
        '4'
    } else if n == 5 {
        '5'
    } else if n == 6 {
        '6'
    } else if n == 7 {
        '7'
    } else if n == 8 {
        '8'
    } else if n == 9 {
        '9'
    } else if n == 10 {
        'a'
    } else if n == 11 {
        'b'
    } else if n == 12 {
        'c'
    } else if n == 13 {
        'd'
    } else if n == 14 {
        'e'
    } else if n == 15 {
        'f'
    } else {
        '?'
    }
}

/// Two lower-case hex digits for one byte, high nibble first.
pub open spec fn hex_byte(b: u8) -> Seq<char> {
    seq![hex_char(b / 16), hex_char(b % 16)]
}

/// The hex digits of bytes `from..to` of `s`, in order.
pub open spec fn hex_range(s: Seq<u8>, from: int, to: int) -> Seq<char>
    decreases to - from,
{
    if from >= to {
        Seq::empty()
    } else {
        hex_byte(s[from]) + hex_range(s, from + 1, to)
    }
}

/// Extending a hex range by one byte appends that byte's digits.
pub proof fn lemma_hex_range_snoc(s: Seq<u8>, from: int, to: int)
    requires
        from <= to,
    ensures
        hex_range(s, from, to + 1) == hex_range(s, from, to) + hex_byte(s[to]),
    decreases to - from,
{
    if from == to {
        assert(hex_range(s, from, to) =~= Seq::empty());
        assert(hex_range(s, to + 1, to + 1) =~= Seq::empty());
        assert(hex_range(s, from, to + 1) =~= hex_byte(s[to]) + hex_range(s, to + 1, to + 1));
        assert(hex_range(s, from, to + 1) =~= hex_range(s, from, to) + hex_byte(s[to]));
    } else {
        lemma_hex_range_snoc(s, from + 1, to);
        assert(hex_range(s, from, to + 1) =~= hex_byte(s[from]) + hex_range(s, from + 1, to + 1));
        assert(hex_range(s, from, to + 1) =~= hex_range(s, from, to) + hex_byte(s[to]));
    }
}

fn nibble_str(n: u8) -> (r: &'static str)
    requires
        n < 16,
    ensures
        r@ == seq![hex_char(n)],
{
    proof {
        reveal_strlit("0");
        reveal_strlit("1");
        reveal_strlit("2");
        reveal_strlit("3");
        reveal_strlit("4");
        reveal_strlit("5");
        reveal_strlit("6");
        reveal_strlit("7");
        reveal_strlit("8");
        reveal_strlit("9");
        reveal_strlit("a");
        reveal_strlit("b");
        reveal_strlit("c");
        reveal_strlit("d");
        reveal_strlit("e");
        reveal_strlit("f");
    }
    let r: &'static str = if n == 0 {
        "0"
    } else if n == 1 {
        "1"
    } else if n == 2 {
        "2"
    } else if n == 3 {
        "3"
    } else if n == 4 {
        "4"
    } else if n == 5 {
        "5"
    } else if n == 6 {
        "6"
    } else if n == 7 {
        "7"
    } else if n == 8 {
        "8"
    } else if n == 9 {
        "9"
    } else if n == 10 {
        "a"
    } else if n == 11 {
        "b"
    } else if n == 12 {
        "c"
    } else if n == 13 {
        "d"
    } else if n == 14 {
        "e"
    } else {
        "f"
    };
    proof {
        assert(r@ =~= seq![hex_char(n)]);
    }
    r
}

/// Append the two hex digits of `b` to `s`.
pub fn append_hex_byte(s: &mut String, b: u8)
    ensures
        final(s)@ == old(s)@ + hex_byte(b),
{
    s.append(nibble_str(b / 16));
    s.append(nibble_str(b % 16));
    proof {
        assert(s@ =~= old(s)@ + hex_byte(b));
    }
}

/// Append the hex digits of bytes `from..to` of `bytes` to `s`.
pub fn append_hex_range(s: &mut String, bytes: &Vec<u8>, from: usize, to: usize)
    requires
        from <= to <= bytes@.len(),
    ensures
        final(s)@ == old(s)@ + hex_range(bytes@, from as int, to as int),
{
    let mut i: usize = from;
    proof {
        assert(s@ =~= old(s)@ + hex_range(bytes@, from as int, from as int));
    }
    while i < to
        invariant
            from <= i <= to <= bytes@.len(),
            s@ == old(s)@ + hex_range(bytes@, from as int, i as int),
        decreases to - i,
    {
        append_hex_byte(s, bytes[i]);
        proof {
            lemma_hex_range_snoc(bytes@, from as int, i as int);
        }
        i += 1;
    }
}

/// The decimal digit character for a value below ten.
pub open spec fn dec_char(n: nat) -> char {
    if n == 0 {
        '0'
    } else if n == 1 {
        '1'
    } else if n == 2 {
        '2'
    } else if n == 3 {
        '3'
    } else if n == 4 {
        '4'
    } else if n == 5 {
        '5'
    } else if n == 6 {
        '6'
    } else if n == 7 {
        '7'
    } else if n == 8 {
        '8'
    } else if n == 9 {
        '9'
    } else {
        '?'
    }
}

/// The decimal numeral of `n`, most significant digit first, no leading
/// zeros except for the numeral of zero itself.
pub open spec fn dec_render(n: nat) -> Seq<char>
    decreases n,
{
    if n < 10 {
        seq![dec_char(n)]
    } else {
        dec_render(n / 10).push(dec_char(n % 10))
    }
}

fn digit_str(n: u64) -> (r: &'static str)
    requires
        n < 10,
    ensures
        r@ == seq![dec_char(n as nat)],
{
    proof {
        reveal_strlit("0");
        reveal_strlit("1");
        reveal_strlit("2");
        reveal_strlit("3");
        reveal_strlit("4");
        reveal_strlit("5");
        reveal_strlit("6");
        reveal_strlit("7");
        reveal_strlit("8");
        reveal_strlit("9");
    }
    let r: &'static str = if n == 0 {
        "0"
    } else if n == 1 {
        "1"
    } else if n == 2 {
        "2"
    } else if n == 3 {
        "3"
    } else if n == 4 {
        "4"
    } else if n == 5 {
        "5"
    } else if n == 6 {
        "6"
    } else if n == 7 {
        "7"
    } else if n == 8 {
        "8"
    } else {
        "9"
    };
    proof {
        assert(r@ =~= seq![dec_char(n as nat)]);
    }
    r
}

/// The decimal numeral of `n` as a string.
pub fn u64_to_dec(n: u64) -> (r: String)
    ensures
        r@ == dec_render(n as nat),
    decreases n,
{
    if n < 10 {
        String::from_str(digit_str(n))
    } else {
        proof {
            assert(n / 10 < n);
        }
        let mut s = u64_to_dec(n / 10);
        s.append(digit_str(n % 10));
        proof {
            assert(s@ =~= dec_render(n as nat));
        }
        s
    }
}

/// Append the decimal numeral of `n` to `s`.
pub fn append_dec(s: &mut String, n: u64)
    ensures
        final(s)@ == old(s)@ + dec_render(n as nat),
{
    let d = u64_to_dec(n);
    s.append(d.as_str());
}

} // verus!
