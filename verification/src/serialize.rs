//! Rendering of the final word sequence as the indexed table body of the
//! output block: one line per word, `<index> => x"<8 hex digits>",`.

use vstd::prelude::*;
use vstd::string::*;

verus! {

/// The lowercase character of a digit value below 16.
pub open spec fn digit_char(d: nat) -> char {
    if d == 0 {
        '0'
    } else if d == 1 {
        '1'
    } else if d == 2 {
        '2'
    } else if d == 3 {
        '3'
    } else if d == 4 {
        '4'
    } else if d == 5 {
        '5'
    } else if d == 6 {
        '6'
    } else if d == 7 {
        '7'
    } else if d == 8 {
        '8'
    } else if d == 9 {
        '9'
    } else if d == 10 {
        'a'
    } else if d == 11 {
        'b'
    } else if d == 12 {
        'c'
    } else if d == 13 {
        'd'
    } else if d == 14 {
        'e'
    } else {
        'f'
    }
}

/// The eight lowercase hex digits of a 32-bit word, most significant first.
pub open spec fn hex8(w: u32) -> Seq<char> {
    Seq::new(8, |i: int| digit_char(((w >> ((28 - 4 * i) as u32)) & 0xf) as nat))
}

/// The decimal numeral of a number, most significant digit first, without
/// leading zeros.
pub open spec fn dec_str(n: nat) -> Seq<char>
    decreases n,
{
    if n < 10 {
        seq![digit_char(n)]
    } else {
        dec_str(n / 10) + seq![digit_char(n % 10)]
    }
}

fn digit_str(d: u32) -> (r: &'static str)
    requires
        d < 16,
    ensures
        r@ == seq![digit_char(d as nat)],
{
    let r: &'static str = if d == 0 {
        "0"
    } else if d == 1 {
        "1"
    } else if d == 2 {
        "2"
    } else if d == 3 {
        "3"
    } else if d == 4 {
        "4"
    } else if d == 5 {
        "5"
    } else if d == 6 {
        "6"
    } else if d == 7 {
        "7"
    } else if d == 8 {
        "8"
    } else if d == 9 {
        "9"
    } else if d == 10 {
        "a"
    } else if d == 11 {
        "b"
    } else if d == 12 {
        "c"
    } else if d == 13 {
        "d"
    } else if d == 14 {
        "e"
    } else {
        "f"
    };
    proof {
        reveal_strlit("0");
        reveal_strlit("1");
        reveal_strlit("2");
        reveal_strlit("3");
        reveal_strlit("4");
        reveal_strlit("5");
        reveal_strlit("6");
        reveal_strlit("7");
        reveal_strlit("8");
        reveal_strlit("9");
        reveal_strlit("a");
        reveal_strlit("b");
        reveal_strlit("c");
        reveal_strlit("d");
        reveal_strlit("e");
        reveal_strlit("f");
        assert(r@ =~= seq![digit_char(d as nat)]);
    }
    r
}

/// Renders a 32-bit word as its eight lowercase hex digits.
pub fn hex8_of(w: u32) -> (r: String)
    ensures
        r@ == hex8(w),
{
    let mut out = String::new();
    proof {
        assert(out@ =~= hex8(w).take(0));
    }
    let mut i: usize = 0;
    while i < 8
        invariant
            0 <= i <= 8,
            out@ == hex8(w).take(i as int),
        decreases 8 - i,
    {
        let sh: u32 = 28 - 4 * (i as u32);
        let d = (w >> sh) & 0xf;
        assert(d < 16) by (bit_vector)
            requires
                d == (w >> sh) & 0xf,
        ;
        out.append(digit_str(d));
        proof {
            assert(hex8(w)[i as int] == digit_char(d as nat));
            assert(out@ =~= hex8(w).take(i as int + 1));
        }
        i += 1;
    }
    proof {
        assert(hex8(w).take(8) =~= hex8(w));
    }
    out
}

/// Renders a number as its decimal numeral.
pub fn dec_of(n: usize) -> (r: String)
    ensures
        r@ == dec_str(n as nat),
    decreases n,
{
    if n < 10 {
        String::from_str(digit_str((n % 10) as u32))
    } else {
        let mut s = dec_of(n / 10);
        s.append(digit_str((n % 10) as u32));
        s
    }
}

/// One rendered table line: eight spaces of indent, the decimal index,
/// ` => x"`, the word's eight hex digits, and `",`.
pub open spec fn line_str(i: nat, w: u32) -> Seq<char> {
    "        "@ + dec_str(i) + " => x\""@ + hex8(w) + "\","@
}

/// The whole table body: one line per word in index order starting at 0,
/// the lines joined by single newlines.
pub open spec fn table_str(words: Seq<u32>) -> Seq<char>
    decreases words.len(),
{
    if words.len() == 0 {
        Seq::<char>::empty()
    } else if words.len() == 1 {
        line_str(0, words[0])
    } else {
        table_str(words.drop_last()) + "\n"@ + line_str((words.len() - 1) as nat, words.last())
    }
}

/// Renders the word sequence as the indexed table body of the output block.
pub fn render_table(words: &Vec<u32>) -> (r: String)
    ensures
        r@ == table_str(words@),
{
    let mut out = String::new();
    proof {
        assert(out@ =~= table_str(words@.take(0)));
    }
    let mut i: usize = 0;
    while i < words.len()
        invariant
            0 <= i <= words@.len(),
            out@ == table_str(words@.take(i as int)),
        decreases words@.len() - i,
    {
        if i > 0 {
            out.append("\n");
        }
        out.append("        ");
        let ds = dec_of(i);
        out.append(ds.as_str());
        out.append(" => x\"");
        let hs = hex8_of(words[i]);
        out.append(hs.as_str());
        out.append("\",");
        proof {
            assert(words@.take(i as int + 1).drop_last() =~= words@.take(i as int));
            assert(words@.take(i as int + 1).last() == words@[i as int]);
            assert(out@ =~= table_str(words@.take(i as int + 1)));
        }
        i += 1;
    }
    proof {
        assert(words@.take(words@.len() as int) =~= words@);
    }
    out
}

} // verus!
