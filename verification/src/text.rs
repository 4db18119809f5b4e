//! Text for the terminal: decimal numbers, column padding and the pieces that
//! the report lines are built from.

use vstd::prelude::*;

verus! {

/// The character of the decimal digit `d`.
pub open spec fn digit_char(d: nat) -> char {
    (48 + d) as char
}

/// `n` in decimal, without leading zeros.
pub open spec fn dec(n: nat) -> Seq<char>
    decreases n,
{
    if n < 10 {
        seq![digit_char(n)]
    } else {
        dec(n / 10).push(digit_char(n % 10))
    }
}

/// `n` copies of `c`.
pub open spec fn repeated(c: char, n: nat) -> Seq<char> {
    Seq::new(n, |i: int| c)
}

/// How many characters `s` falls short of `width`.
pub open spec fn shortfall(s: Seq<char>, width: nat) -> nat {
    if s.len() < width {
        (width - s.len()) as nat
    } else {
        0
    }
}

/// `s` in a column of `width` characters, flush left.
pub open spec fn flush_left(s: Seq<char>, width: nat) -> Seq<char> {
    s + repeated(' ', shortfall(s, width))
}

/// `s` in a column of `width` characters, flush right.
pub open spec fn flush_right(s: Seq<char>, width: nat) -> Seq<char> {
    repeated(' ', shortfall(s, width)) + s
}

/// `true` or `false`.
pub open spec fn truth(b: bool) -> Seq<char> {
    if b {
        "true"@
    } else {
        "false"@
    }
}

/// The views of a list of lines.
pub open spec fn lines_of(v: Seq<String>) -> Seq<Seq<char>> {
    v.map_values(|s: String| s@)
}

fn digit_text(d: u64) -> (s: &'static str)
    requires
        d < 10,
    ensures
        s@ == seq![digit_char(d as nat)],
{
    proof {
        reveal_strlit("0");
        reveal_strlit("1");
        reveal_strlit("2");
        reveal_strlit("3");
        reveal_strlit("4");
        reveal_strlit("5");
        reveal_strlit("6");
        reveal_strlit("7");
        reveal_strlit("8");
        reveal_strlit("9");
    }
    if d == 0 {
        "0"
    } else if d == 1 {
        "1"
    } else if d == 2 {
        "2"
    } else if d == 3 {
        "3"
    } else if d == 4 {
        "4"
    } else if d == 5 {
        "5"
    } else if d == 6 {
        "6"
    } else if d == 7 {
        "7"
    } else if d == 8 {
        "8"
    } else {
        "9"
    }
}

/// `n` in decimal.
pub fn decimal(n: u64) -> (s: String)
    ensures
        s@ == dec(n as nat),
    decreases n,
{
    if n < 10 {
        String::from_str(digit_text(n))
    } else {
        let mut s = decimal(n / 10);
        s.append(digit_text(n % 10));
        s
    }
}

fn blanks(n: usize) -> (s: String)
    ensures
        s@ == repeated(' ', n as nat),
{
    let mut s = String::new();
    let mut i: usize = 0;
    while i < n
        invariant
            i <= n,
            s@ == repeated(' ', i as nat),
        decreases n - i,
    {
        s.append(" ");
        proof {
            reveal_strlit(" ");
        }
        i = i + 1;
    }
    s
}

/// `s` padded with blanks on the right to `width` characters.
pub fn pad_right(s: &str, width: usize) -> (r: String)
    ensures
        r@ == flush_left(s@, width as nat),
{
    let n: usize = s.unicode_len();
    let mut r = String::from_str(s);
    if n < width {
        r.append(blanks(width - n).as_str());
    } else {
        assert(r@ =~= flush_left(s@, width as nat));
    }
    r
}

/// `s` padded with blanks on the left to `width` characters.
pub fn pad_left(s: &str, width: usize) -> (r: String)
    ensures
        r@ == flush_right(s@, width as nat),
{
    let n: usize = s.unicode_len();
    if n < width {
        let mut r = blanks(width - n);
        r.append(s);
        r
    } else {
        let r = String::from_str(s);
        assert(r@ =~= flush_right(s@, width as nat));
        r
    }
}

/// The words for a flag.
pub fn truth_text(b: bool) -> (s: &'static str)
    ensures
        s@ == truth(b),
{
    if b {
        "true"
    } else {
        "false"
    }
}

/// The two texts one after the other.
pub fn join2(a: &str, b: &str) -> (r: String)
    ensures
        r@ == a@ + b@,
{
    let mut r = String::from_str(a);
    r.append(b);
    r
}

/// The three texts one after the other.
pub fn join3(a: &str, b: &str, c: &str) -> (r: String)
    ensures
        r@ == a@ + b@ + c@,
{
    let mut r = String::from_str(a);
    r.append(b);
    r.append(c);
    r
}

/// The number that decimal digits stand for, each worth ten times the one behind
/// it.
pub open spec fn decimal_value(s: Seq<char>) -> int
    decreases s.len(),
{
    if s.len() == 0 {
        0
    } else {
        10 * decimal_value(s.drop_last()) + (s.last() as int - '0' as int)
    }
}

/// A number in decimal is made of digits, starts with no zero unless it is zero
/// itself, and stands for the number.
pub proof fn decimals_are_read_back(n: nat)
    ensures
        dec(n).len() > 0,
        forall|i: int| 0 <= i < dec(n).len() ==> '0' <= #[trigger] dec(n)[i] <= '9',
        dec(n)[0] == '0' ==> dec(n).len() == 1,
        decimal_value(dec(n)) == n,
    decreases n,
{
    if n >= 10 {
        decimals_are_read_back(n / 10);
        assert(dec(n).drop_last() =~= dec(n / 10));
        assert(dec(n / 10)[0] == dec(n)[0]);
        if dec(n)[0] == '0' {
            assert(dec(n / 10).len() == 1);
            assert(dec(n / 10) =~= seq!['0']);
            reveal_with_fuel(decimal_value, 2);
            assert(seq!['0'].drop_last() =~= Seq::<char>::empty());
            assert(decimal_value(dec(n / 10)) == 0);
        }
    } else {
        reveal_with_fuel(decimal_value, 2);
        assert(dec(n).drop_last() =~= Seq::<char>::empty());
    }
}

/// Two numbers that look the same in decimal are the same.
pub proof fn decimals_tell_numbers_apart(a: nat, b: nat)
    requires
        dec(a) == dec(b),
    ensures
        a == b,
{
    decimals_are_read_back(a);
    decimals_are_read_back(b);
}

/// A column holds its text whole, with blanks beside it up to the width: flush
/// left the text comes first, flush right it comes last.
pub proof fn columns_hold_their_text(s: Seq<char>, width: nat)
    ensures
        flush_left(s, width).len() == if s.len() < width { width } else { s.len() },
        flush_right(s, width).len() == flush_left(s, width).len(),
        flush_left(s, width).take(s.len() as int) == s,
        flush_right(s, width).skip(flush_right(s, width).len() - s.len()) == s,
        forall|i: int|
            s.len() <= i < flush_left(s, width).len() ==> (#[trigger] flush_left(s, width)[i])
                == ' ',
        forall|i: int|
            0 <= i < flush_right(s, width).len() - s.len() ==> (#[trigger] flush_right(s, width)[i])
                == ' ',
{
    assert(flush_left(s, width).take(s.len() as int) =~= s);
    assert(flush_right(s, width).skip(flush_right(s, width).len() - s.len()) =~= s);
}

/// A number's text is read back as the number, texts are joined in order, and a column
/// keeps its text.
pub proof fn texts_are_built_as_asked(
    n: u64,
    a: &str,
    b: &str,
    c: &str,
    width: usize,
    number: String,
    left: String,
    right: String,
    two: String,
    three: String,
)
    requires
        call_ensures(decimal, (n,), number),
        call_ensures(pad_right, (a, width), left),
        call_ensures(pad_left, (a, width), right),
        call_ensures(join2, (a, b), two),
        call_ensures(join3, (a, b, c), three),
    ensures
        decimal_value(number@) == n,
        left@.take(a@.len() as int) == a@,
        left@.len() == right@.len(),
        left@.len() >= width,
        right@.skip(right@.len() - a@.len()) == a@,
        two@ == a@ + b@,
        three@ == two@ + c@,
{
    decimals_are_read_back(n as nat);
    columns_hold_their_text(a@, width as nat);
}

/// Lines are seen as they are, in order, and a flag is `true` or `false`.
pub proof fn lines_are_seen_as_they_are(lines: Seq<String>, b: bool, shown: &'static str)
    requires
        call_ensures(truth_text, (b,), shown),
    ensures
        lines_of(lines).len() == lines.len(),
        forall|i: int| 0 <= i < lines.len() ==> #[trigger] lines_of(lines)[i] == lines[i]@,
        b ==> shown@ == "true"@,
        !b ==> shown@ == "false"@,
{
}

} // verus!
