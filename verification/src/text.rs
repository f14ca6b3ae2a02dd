//! Small verified text utilities the parsers are built on: whitespace
//! tokenization, line splitting, substring search, decimal parsing and
//! formatting, and ASCII case folding.

use vstd::prelude::*;

verus! {

/// The whitespace characters the tokenizer splits on.
pub open spec fn is_ws(c: char) -> bool {
    c == ' ' || c == '\t' || c == '\r'
}

/// Executable test matching [`is_ws`].
pub fn is_ws_char(c: char) -> (b: bool)
    ensures
        b == is_ws(c),
{
    c == ' ' || c == '\t' || c == '\r'
}

/// The views of a sequence of owned strings.
pub open spec fn seq_views(v: Seq<String>) -> Seq<Seq<char>> {
    v.map_values(|x: String| x@)
}

/// Whitespace splitting with an explicit in-progress token `cur`:
/// whitespace ends the current token (dropped if empty), any other
/// character extends it.
pub open spec fn split_ws_acc(s: Seq<char>, cur: Seq<char>) -> Seq<Seq<char>>
    decreases s.len(),
{
    if s.len() == 0 {
        if cur.len() == 0 {
            Seq::empty()
        } else {
            seq![cur]
        }
    } else if is_ws(s.first()) {
        if cur.len() == 0 {
            split_ws_acc(s.drop_first(), Seq::empty())
        } else {
            seq![cur] + split_ws_acc(s.drop_first(), Seq::empty())
        }
    } else {
        split_ws_acc(s.drop_first(), cur.push(s.first()))
    }
}

/// The maximal whitespace-free tokens of `s`, in order.
pub open spec fn ws_tokens(s: Seq<char>) -> Seq<Seq<char>> {
    split_ws_acc(s, Seq::empty())
}

/// Splits `s` into its whitespace-separated tokens.
pub fn split_whitespace_tokens(s: &str) -> (r: Vec<String>)
    ensures
        seq_views(r@) == ws_tokens(s@),
{
    let n = s.unicode_len();
    let mut toks: Vec<String> = Vec::new();
    let mut cur: String = String::new();
    let mut i: usize = 0;
    proof {
        assert(s@.subrange(0, n as int) =~= s@);
        assert(seq_views(toks@) + split_ws_acc(s@, Seq::empty()) =~= ws_tokens(s@));
    }
    while i < n
        invariant
            i <= n,
            n == s@.len(),
            seq_views(toks@) + split_ws_acc(s@.subrange(i as int, n as int), cur@)
                == ws_tokens(s@),
        decreases n - i,
    {
        let ghost pre = s@.subrange(i as int, n as int);
        proof {
            assert(pre.first() == s@[i as int]);
            assert(pre.drop_first() =~= s@.subrange(i as int + 1, n as int));
        }
        let c = s.get_char(i);
        if is_ws_char(c) {
            if cur.as_str().unicode_len() > 0 {
                let ghost old_toks = toks@;
                let ghost old_cur = cur@;
                toks.push(cur);
                cur = String::new();
                proof {
                    assert(split_ws_acc(pre, old_cur)
                        == seq![old_cur] + split_ws_acc(pre.drop_first(), Seq::empty()));
                    assert(seq_views(toks@) =~= seq_views(old_toks) + seq![old_cur]);
                    assert(seq_views(toks@)
                        + split_ws_acc(s@.subrange(i as int + 1, n as int), cur@)
                        =~= seq_views(old_toks) + split_ws_acc(pre, old_cur));
                }
            } else {
                proof {
                    assert(cur@ =~= Seq::<char>::empty());
                }
            }
        } else {
            let ghost old_cur = cur@;
            let piece = s.substring_char(i, i + 1);
            proof {
                assert(piece@ =~= seq![s@[i as int]]);
            }
            cur.append(piece);
            proof {
                assert(cur@ =~= old_cur.push(s@[i as int]));
            }
        }
        proof {
            assert(seq_views(toks@)
                + split_ws_acc(s@.subrange(i as int + 1, n as int), cur@) == ws_tokens(s@));
        }
        i += 1;
    }
    proof {
        assert(s@.subrange(i as int, n as int) =~= Seq::<char>::empty());
    }
    if cur.as_str().unicode_len() > 0 {
        let ghost old_toks = toks@;
        let ghost old_cur = cur@;
        toks.push(cur);
        proof {
            assert(seq_views(toks@) =~= seq_views(old_toks) + seq![old_cur]);
        }
    }
    proof {
        assert(seq_views(toks@) =~= ws_tokens(s@));
    }
    toks
}

/// A line's trailing carriage return, if any, removed.
pub open spec fn strip_cr(l: Seq<char>) -> Seq<char> {
    if l.len() > 0 && l.last() == '\r' {
        l.drop_last()
    } else {
        l
    }
}

/// Line splitting with the in-progress line `cur`: a newline ends the
/// current line (with a trailing carriage return removed), and a final
/// line without a newline is kept unless empty.
pub open spec fn split_lines_acc(s: Seq<char>, cur: Seq<char>) -> Seq<Seq<char>>
    decreases s.len(),
{
    if s.len() == 0 {
        if cur.len() == 0 {
            Seq::empty()
        } else {
            seq![cur]
        }
    } else if s.first() == '\n' {
        seq![strip_cr(cur)] + split_lines_acc(s.drop_first(), Seq::empty())
    } else {
        split_lines_acc(s.drop_first(), cur.push(s.first()))
    }
}

/// The lines of `s`, split on newlines, each with a trailing carriage
/// return removed when the newline followed one.
pub open spec fn lines_of(s: Seq<char>) -> Seq<Seq<char>> {
    split_lines_acc(s, Seq::empty())
}

/// Splits `s` into lines.
pub fn split_lines(s: &str) -> (r: Vec<String>)
    ensures
        seq_views(r@) == lines_of(s@),
{
    let n = s.unicode_len();
    let mut out: Vec<String> = Vec::new();
    let mut ls: usize = 0;
    let mut i: usize = 0;
    proof {
        assert(s@.subrange(0, n as int) =~= s@);
        assert(s@.subrange(0, 0) =~= Seq::<char>::empty());
        assert(seq_views(out@) + split_lines_acc(s@, Seq::empty()) =~= lines_of(s@));
    }
    while i < n
        invariant
            ls <= i <= n,
            n == s@.len(),
            seq_views(out@)
                + split_lines_acc(
                    s@.subrange(i as int, n as int),
                    s@.subrange(ls as int, i as int),
                ) == lines_of(s@),
        decreases n - i,
    {
        let ghost pre = s@.subrange(i as int, n as int);
        let ghost cur = s@.subrange(ls as int, i as int);
        proof {
            assert(pre.first() == s@[i as int]);
            assert(pre.drop_first() =~= s@.subrange(i as int + 1, n as int));
        }
        let c = s.get_char(i);
        if c == '\n' {
            let end = if i > ls && s.get_char(i - 1) == '\r' {
                i - 1
            } else {
                i
            };
            proof {
                if i > ls && s@[i as int - 1] == '\r' {
                    assert(cur.last() == '\r');
                    assert(strip_cr(cur) =~= s@.subrange(ls as int, i as int - 1));
                } else {
                    assert(strip_cr(cur) == cur);
                }
            }
            let line = String::from_str(s.substring_char(ls, end));
            let ghost old_out = out@;
            out.push(line);
            ls = i + 1;
            proof {
                assert(seq_views(out@) =~= seq_views(old_out) + seq![strip_cr(cur)]);
                assert(s@.subrange(ls as int, i as int + 1) =~= Seq::<char>::empty());
                assert((seq_views(old_out) + seq![strip_cr(cur)])
                    + split_lines_acc(s@.subrange(i as int + 1, n as int), Seq::empty())
                    =~= seq_views(old_out)
                        + (seq![strip_cr(cur)]
                            + split_lines_acc(
                                s@.subrange(i as int + 1, n as int),
                                Seq::empty(),
                            )));
            }
        } else {
            proof {
                assert(s@.subrange(ls as int, i as int + 1) =~= cur.push(s@[i as int]));
            }
        }
        i += 1;
    }
    proof {
        assert(s@.subrange(i as int, n as int) =~= Seq::<char>::empty());
    }
    if ls < n {
        let ghost old_out = out@;
        let line = String::from_str(s.substring_char(ls, n));
        out.push(line);
        proof {
            assert(seq_views(out@)
                =~= seq_views(old_out) + seq![s@.subrange(ls as int, n as int)]);
        }
    }
    proof {
        assert(seq_views(out@) =~= lines_of(s@));
    }
    out
}

/// Character-wise string equality.
pub fn str_eq(a: &str, b: &str) -> (r: bool)
    ensures
        r == (a@ == b@),
{
    let n = a.unicode_len();
    let m = b.unicode_len();
    if n != m {
        return false;
    }
    let mut i: usize = 0;
    while i < n
        invariant
            i <= n,
            n == a@.len(),
            n == b@.len(),
            forall|j: int| 0 <= j < i ==> a@[j] == b@[j],
        decreases n - i,
    {
        if a.get_char(i) != b.get_char(i) {
            return false;
        }
        i += 1;
    }
    proof {
        assert(a@ =~= b@);
    }
    true
}


/// ASCII lowercase of a single character; other characters unchanged.
pub open spec fn lower_char(c: char) -> char {
    if c == 'A' {
        'a'
    } else if c == 'B' {
        'b'
    } else if c == 'C' {
        'c'
    } else if c == 'D' {
        'd'
    } else if c == 'E' {
        'e'
    } else if c == 'F' {
        'f'
    } else if c == 'G' {
        'g'
    } else if c == 'H' {
        'h'
    } else if c == 'I' {
        'i'
    } else if c == 'J' {
        'j'
    } else if c == 'K' {
        'k'
    } else if c == 'L' {
        'l'
    } else if c == 'M' {
        'm'
    } else if c == 'N' {
        'n'
    } else if c == 'O' {
        'o'
    } else if c == 'P' {
        'p'
    } else if c == 'Q' {
        'q'
    } else if c == 'R' {
        'r'
    } else if c == 'S' {
        's'
    } else if c == 'T' {
        't'
    } else if c == 'U' {
        'u'
    } else if c == 'V' {
        'v'
    } else if c == 'W' {
        'w'
    } else if c == 'X' {
        'x'
    } else if c == 'Y' {
        'y'
    } else if c == 'Z' {
        'z'
    } else {
        c
    }
}

/// ASCII lowercase applied to each character.
pub open spec fn lower_seq(s: Seq<char>) -> Seq<char> {
    s.map_values(|c: char| lower_char(c))
}

/// A one-character string for the lowercase of `c`, when `c` is an
/// ASCII uppercase letter.
fn lower_str_of(c: char) -> (r: Option<&'static str>)
    ensures
        match r {
            Some(t) => t@ == seq![lower_char(c)],
            None => lower_char(c) == c,
        },
{
    match c {
        'A' => {
            proof {
                reveal_strlit("a");
            }
            Some("a")
        },
        'B' => {
            proof {
                reveal_strlit("b");
            }
            Some("b")
        },
        'C' => {
            proof {
                reveal_strlit("c");
            }
            Some("c")
        },
        'D' => {
            proof {
                reveal_strlit("d");
            }
            Some("d")
        },
        'E' => {
            proof {
                reveal_strlit("e");
            }
            Some("e")
        },
        'F' => {
            proof {
                reveal_strlit("f");
            }
            Some("f")
        },
        'G' => {
            proof {
                reveal_strlit("g");
            }
            Some("g")
        },
        'H' => {
            proof {
                reveal_strlit("h");
            }
            Some("h")
        },
        'I' => {
            proof {
                reveal_strlit("i");
            }
            Some("i")
        },
        'J' => {
            proof {
                reveal_strlit("j");
            }
            Some("j")
        },
        'K' => {
            proof {
                reveal_strlit("k");
            }
            Some("k")
        },
        'L' => {
            proof {
                reveal_strlit("l");
            }
            Some("l")
        },
        'M' => {
            proof {
                reveal_strlit("m");
            }
            Some("m")
        },
        'N' => {
            proof {
                reveal_strlit("n");
            }
            Some("n")
        },
        'O' => {
            proof {
                reveal_strlit("o");
            }
            Some("o")
        },
        'P' => {
            proof {
                reveal_strlit("p");
            }
            Some("p")
        },
        'Q' => {
            proof {
                reveal_strlit("q");
            }
            Some("q")
        },
        'R' => {
            proof {
                reveal_strlit("r");
            }
            Some("r")
        },
        'S' => {
            proof {
                reveal_strlit("s");
            }
            Some("s")
        },
        'T' => {
            proof {
                reveal_strlit("t");
            }
            Some("t")
        },
        'U' => {
            proof {
                reveal_strlit("u");
            }
            Some("u")
        },
        'V' => {
            proof {
                reveal_strlit("v");
            }
            Some("v")
        },
        'W' => {
            proof {
                reveal_strlit("w");
            }
            Some("w")
        },
        'X' => {
            proof {
                reveal_strlit("x");
            }
            Some("x")
        },
        'Y' => {
            proof {
                reveal_strlit("y");
            }
            Some("y")
        },
        'Z' => {
            proof {
                reveal_strlit("z");
            }
            Some("z")
        },
        _ => None,
    }
}

/// ASCII-lowercases `s` character by character.
pub fn ascii_lowercase(s: &str) -> (r: String)
    ensures
        r@ == lower_seq(s@),
{
    let n = s.unicode_len();
    let mut out = String::new();
    let mut i: usize = 0;
    while i < n
        invariant
            i <= n,
            n == s@.len(),
            out@ == lower_seq(s@.subrange(0, i as int)),
        decreases n - i,
    {
        let c = s.get_char(i);
        match lower_str_of(c) {
            Some(t) => out.append(t),
            None => {
                let piece = s.substring_char(i, i + 1);
                proof {
                    assert(piece@ =~= seq![s@[i as int]]);
                }
                out.append(piece);
            },
        }
        proof {
            assert(out@ =~= lower_seq(s@.subrange(0, i as int + 1)));
        }
        i += 1;
    }
    proof {
        assert(s@.subrange(0, n as int) =~= s@);
    }
    out
}

/// The character for a decimal digit value.
pub open spec fn digit_char(d: nat) -> char {
    if d == 0 {
        '0'
    } else if d == 1 {
        '1'
    } else if d == 2 {
        '2'
    } else if d == 3 {
        '3'
    } else if d == 4 {
        '4'
    } else if d == 5 {
        '5'
    } else if d == 6 {
        '6'
    } else if d == 7 {
        '7'
    } else if d == 8 {
        '8'
    } else {
        '9'
    }
}

/// A one-character string for a decimal digit value.
fn digit_str(d: u64) -> (r: &'static str)
    requires
        d < 10,
    ensures
        r@ == seq![digit_char(d as nat)],
{
    match d {
        0 => {
            proof {
                reveal_strlit("0");
            }
            "0"
        },
        1 => {
            proof {
                reveal_strlit("1");
            }
            "1"
        },
        2 => {
            proof {
                reveal_strlit("2");
            }
            "2"
        },
        3 => {
            proof {
                reveal_strlit("3");
            }
            "3"
        },
        4 => {
            proof {
                reveal_strlit("4");
            }
            "4"
        },
        5 => {
            proof {
                reveal_strlit("5");
            }
            "5"
        },
        6 => {
            proof {
                reveal_strlit("6");
            }
            "6"
        },
        7 => {
            proof {
                reveal_strlit("7");
            }
            "7"
        },
        8 => {
            proof {
                reveal_strlit("8");
            }
            "8"
        },
        _ => {
            proof {
                reveal_strlit("9");
            }
            "9"
        },
    }
}

/// `p` occurs in `s` starting at index `i`.
pub open spec fn contains_at(s: Seq<char>, p: Seq<char>, i: int) -> bool {
    0 <= i && i + p.len() <= s.len() && s.subrange(i, i + p.len()) == p
}

/// `p` occurs somewhere in `s` (an empty `p` always does).
pub open spec fn contains_seq(s: Seq<char>, p: Seq<char>) -> bool {
    exists|i: int| contains_at(s, p, i)
}

/// `p` is a prefix of `s`.
pub open spec fn starts_with_seq(s: Seq<char>, p: Seq<char>) -> bool {
    p.len() <= s.len() && s.subrange(0, p.len() as int) == p
}

/// Whether the characters of `s` starting at `i` match `p`.
pub(crate) fn match_at(s: &str, p: &str, i: usize, n: usize, m: usize) -> (r: bool)
    requires
        n == s@.len(),
        m == p@.len(),
        i + m <= n,
    ensures
        r == contains_at(s@, p@, i as int),
{
    let mut k: usize = 0;
    while k < m
        invariant
            k <= m,
            n == s@.len(),
            m == p@.len(),
            i + m <= n,
            forall|t: int| 0 <= t < k ==> s@[i + t] == p@[t],
        decreases m - k,
    {
        if s.get_char(i + k) != p.get_char(k) {
            proof {
                assert(s@.subrange(i as int, i as int + m as int)[k as int] != p@[k as int]);
            }
            return false;
        }
        k += 1;
    }
    proof {
        assert(s@.subrange(i as int, i as int + m as int) =~= p@);
    }
    true
}

/// Substring search: whether `p` occurs in `s`.
pub fn contains_str(s: &str, p: &str) -> (r: bool)
    ensures
        r == contains_seq(s@, p@),
{
    let n = s.unicode_len();
    let m = p.unicode_len();
    if m > n {
        proof {
            assert(forall|i: int| !contains_at(s@, p@, i));
        }
        return false;
    }
    let mut i: usize = 0;
    loop
        invariant
            i <= n - m,
            m <= n,
            n == s@.len(),
            m == p@.len(),
            forall|j: int| 0 <= j < i ==> !contains_at(s@, p@, j),
        decreases n - m - i,
    {
        if match_at(s, p, i, n, m) {
            return true;
        }
        if i == n - m {
            proof {
                assert(forall|j: int| !contains_at(s@, p@, j));
            }
            return false;
        }
        i += 1;
    }
}

/// Prefix test: whether `s` starts with `p`.
pub fn starts_with_str(s: &str, p: &str) -> (r: bool)
    ensures
        r == starts_with_seq(s@, p@),
{
    let n = s.unicode_len();
    let m = p.unicode_len();
    if m > n {
        return false;
    }
    match_at(s, p, 0, n, m)
}

/// Whether `c` is a decimal digit.
pub open spec fn is_digit(c: char) -> bool {
    '0' <= c && c <= '9'
}

/// The numeric value of a decimal digit character.
pub open spec fn digit_val(c: char) -> nat {
    (c as u32 - '0' as u32) as nat
}

/// Every character of `s` is a decimal digit.
pub open spec fn all_digits(s: Seq<char>) -> bool {
    forall|i: int| 0 <= i < s.len() ==> is_digit(#[trigger] s[i])
}

/// The value of a digit string read in base ten.
pub open spec fn dec_val(s: Seq<char>) -> nat
    decreases s.len(),
{
    if s.len() == 0 {
        0
    } else {
        dec_val(s.drop_last()) * 10 + digit_val(s.last())
    }
}

/// What parsing a port number accepts: a nonempty string of decimal
/// digits whose value fits in sixteen bits.
pub open spec fn parse_u16_spec(s: Seq<char>) -> Option<u16> {
    if s.len() > 0 && all_digits(s) && dec_val(s) <= 65535 {
        Some(dec_val(s) as u16)
    } else {
        None
    }
}

/// Parses `s` as an unsigned 16-bit decimal number.
pub fn parse_u16(s: &str) -> (r: Option<u16>)
    ensures
        r == parse_u16_spec(s@),
{
    let n = s.unicode_len();
    if n == 0 {
        return None;
    }
    let mut val: u32 = 0;
    let mut i: usize = 0;
    proof {
        assert(s@.subrange(0, 0) =~= Seq::<char>::empty());
    }
    while i < n
        invariant
            i <= n,
            n == s@.len(),
            all_digits(s@.subrange(0, i as int)),
            dec_val(s@.subrange(0, i as int)) <= 65535 ==> val == dec_val(
                s@.subrange(0, i as int),
            ),
            dec_val(s@.subrange(0, i as int)) > 65535 ==> val > 65535,
            val <= 655359,
        decreases n - i,
    {
        let ghost pre = s@.subrange(0, i as int);
        let c = s.get_char(i);
        if c < '0' || c > '9' {
            proof {
                assert(!is_digit(s@[i as int]));
            }
            return None;
        }
        proof {
            assert(s@.subrange(0, i as int + 1).drop_last() =~= pre);
            assert(s@.subrange(0, i as int + 1).last() == s@[i as int]);
            assert(dec_val(s@.subrange(0, i as int + 1)) == dec_val(pre) * 10 + digit_val(
                s@[i as int],
            ));
        }
        let d: u32 = c as u32 - 48;
        proof {
            assert(d == digit_val(s@[i as int]));
            assert(d <= 9);
        }
        if val <= 65535 {
            val = val * 10 + d;
        } else {
            proof {
                assert(dec_val(pre) > 65535);
                assert(dec_val(s@.subrange(0, i as int + 1)) >= dec_val(pre) * 10);
            }
        }
        i += 1;
    }
    proof {
        assert(s@.subrange(0, n as int) =~= s@);
    }
    if val <= 65535 {
        Some(val as u16)
    } else {
        None
    }
}

/// The decimal representation of `n`, most significant digit first.
pub open spec fn dec_str(n: nat) -> Seq<char>
    decreases n,
{
    if n < 10 {
        seq![digit_char(n)]
    } else {
        dec_str(n / 10).push(digit_char(n % 10))
    }
}

/// Formats `n` in decimal.
pub fn u64_to_string(n: u64) -> (r: String)
    ensures
        r@ == dec_str(n as nat),
    decreases n,
{
    if n < 10 {
        String::from_str(digit_str(n))
    } else {
        proof {
            assert(n / 10 < n) by (nonlinear_arith)
                requires
                    n >= 10,
            ;
        }
        let mut r = u64_to_string(n / 10);
        r.append(digit_str(n % 10));
        proof {
            assert(r@ =~= dec_str(n as nat));
        }
        r
    }
}


/// Separator splitting with the in-progress piece `cur`: every separator
/// ends the current piece, and the final piece is always kept, so the
/// result never has fewer than one piece and empty pieces are preserved.
pub open spec fn split_sep_acc(s: Seq<char>, sep: char, cur: Seq<char>) -> Seq<Seq<char>>
    decreases s.len(),
{
    if s.len() == 0 {
        seq![cur]
    } else if s.first() == sep {
        seq![cur] + split_sep_acc(s.drop_first(), sep, Seq::empty())
    } else {
        split_sep_acc(s.drop_first(), sep, cur.push(s.first()))
    }
}

/// The pieces of `s` between occurrences of `sep`, empty pieces kept.
pub open spec fn sep_pieces(s: Seq<char>, sep: char) -> Seq<Seq<char>> {
    split_sep_acc(s, sep, Seq::empty())
}

/// Splits `s` on the separator character, keeping empty pieces.
pub fn split_on(s: &str, sep: char) -> (r: Vec<String>)
    ensures
        seq_views(r@) == sep_pieces(s@, sep),
        r@.len() >= 1,
{
    let n = s.unicode_len();
    let mut out: Vec<String> = Vec::new();
    let mut ls: usize = 0;
    let mut i: usize = 0;
    proof {
        assert(s@.subrange(0, n as int) =~= s@);
        assert(s@.subrange(0, 0) =~= Seq::<char>::empty());
        assert(seq_views(out@) + split_sep_acc(s@, sep, Seq::empty()) =~= sep_pieces(s@, sep));
    }
    while i < n
        invariant
            ls <= i <= n,
            n == s@.len(),
            seq_views(out@)
                + split_sep_acc(
                    s@.subrange(i as int, n as int),
                    sep,
                    s@.subrange(ls as int, i as int),
                ) == sep_pieces(s@, sep),
        decreases n - i,
    {
        let ghost pre = s@.subrange(i as int, n as int);
        let ghost cur = s@.subrange(ls as int, i as int);
        proof {
            assert(pre.first() == s@[i as int]);
            assert(pre.drop_first() =~= s@.subrange(i as int + 1, n as int));
        }
        let c = s.get_char(i);
        if c == sep {
            let piece = String::from_str(s.substring_char(ls, i));
            let ghost old_out = out@;
            out.push(piece);
            ls = i + 1;
            proof {
                assert(seq_views(out@) =~= seq_views(old_out) + seq![cur]);
                assert(s@.subrange(ls as int, i as int + 1) =~= Seq::<char>::empty());
                assert((seq_views(old_out) + seq![cur])
                    + split_sep_acc(s@.subrange(i as int + 1, n as int), sep, Seq::empty())
                    =~= seq_views(old_out)
                        + (seq![cur]
                            + split_sep_acc(
                                s@.subrange(i as int + 1, n as int),
                                sep,
                                Seq::empty(),
                            )));
            }
        } else {
            proof {
                assert(s@.subrange(ls as int, i as int + 1) =~= cur.push(s@[i as int]));
            }
        }
        i += 1;
    }
    proof {
        assert(s@.subrange(i as int, n as int) =~= Seq::<char>::empty());
    }
    let ghost old_out = out@;
    let last = String::from_str(s.substring_char(ls, n));
    out.push(last);
    proof {
        assert(seq_views(out@) =~= seq_views(old_out) + seq![s@.subrange(ls as int, n as int)]);
        assert(seq_views(out@) =~= sep_pieces(s@, sep));
    }
    out
}

/// Clones a vector of strings element by element.
pub fn clone_strings(v: &Vec<String>) -> (r: Vec<String>)
    ensures
        r@ == v@,
{
    let mut r: Vec<String> = Vec::new();
    let mut i: usize = 0;
    while i < v.len()
        invariant
            i <= v@.len(),
            r@ == v@.take(i as int),
        decreases v@.len() - i,
    {
        r.push(v[i].clone());
        proof {
            assert(r@ =~= v@.take(i as int + 1));
        }
        i += 1;
    }
    proof {
        assert(v@.take(v@.len() as int) =~= v@);
    }
    r
}


/// Whether some piece of a piece list contains the character `c`.
pub open spec fn in_pieces(ps: Seq<Seq<char>>, c: char) -> bool {
    exists|a: int, b: int| 0 <= a < ps.len() && 0 <= b < ps[a].len() && ps[a][b] == c
}

proof fn lemma_pieces_cover_acc(s: Seq<char>, sep: char, cur: Seq<char>)
    ensures
        forall|i: int|
            0 <= i < s.len() && s[i] != sep ==> in_pieces(
                split_sep_acc(s, sep, cur),
                #[trigger] s[i],
            ),
        forall|b: int| 0 <= b < cur.len() ==> in_pieces(split_sep_acc(s, sep, cur), #[trigger] cur[b]),
    decreases s.len(),
{
    if s.len() == 0 {
        assert forall|b: int| 0 <= b < cur.len() implies in_pieces(
            split_sep_acc(s, sep, cur),
            cur[b],
        ) by {
            assert(split_sep_acc(s, sep, cur)[0][b] == cur[b]);
        }
    } else if s.first() == sep {
        lemma_pieces_cover_acc(s.drop_first(), sep, Seq::empty());
        let rest = split_sep_acc(s.drop_first(), sep, Seq::empty());
        let whole = split_sep_acc(s, sep, cur);
        assert(whole == seq![cur] + rest);
        assert forall|c: char| in_pieces(rest, c) implies in_pieces(whole, c) by {
            let (a, b) = choose|a: int, b: int|
                0 <= a < rest.len() && 0 <= b < rest[a].len() && rest[a][b] == c;
            assert(whole[a + 1][b] == c);
        }
        assert forall|b: int| 0 <= b < cur.len() implies in_pieces(whole, cur[b]) by {
            assert(whole[0][b] == cur[b]);
        }
        assert forall|i: int| 0 <= i < s.len() && s[i] != sep implies in_pieces(whole, s[i]) by {
            assert(i != 0);
            assert(s.drop_first()[i - 1] == s[i]);
        }
    } else {
        lemma_pieces_cover_acc(s.drop_first(), sep, cur.push(s.first()));
        let whole = split_sep_acc(s, sep, cur);
        assert forall|b: int| 0 <= b < cur.len() implies in_pieces(whole, cur[b]) by {
            assert(cur.push(s.first())[b] == cur[b]);
        }
        assert forall|i: int| 0 <= i < s.len() && s[i] != sep implies in_pieces(whole, s[i]) by {
            if i == 0 {
                let pushed = cur.push(s.first());
                assert(pushed[pushed.len() - 1] == s[0]);
            } else {
                assert(s.drop_first()[i - 1] == s[i]);
            }
        }
    }
}

/// Every character of `s` other than the separator occurs in some piece
/// of the split.
pub proof fn lemma_pieces_cover(s: Seq<char>, sep: char)
    ensures
        forall|i: int|
            0 <= i < s.len() && s[i] != sep ==> in_pieces(sep_pieces(s, sep), #[trigger] s[i]),
{
    lemma_pieces_cover_acc(s, sep, Seq::empty());
}

proof fn lemma_no_sep_acc(s: Seq<char>, sep: char, cur: Seq<char>)
    requires
        forall|i: int| 0 <= i < s.len() ==> s[i] != sep,
    ensures
        split_sep_acc(s, sep, cur) == seq![cur + s],
    decreases s.len(),
{
    if s.len() == 0 {
        assert(cur + s =~= cur);
        assert(seq![cur + s] =~= seq![cur]);
    } else {
        assert(s.first() != sep);
        assert(forall|i: int| 0 <= i < s.drop_first().len() ==> #[trigger] s.drop_first()[i]
            != sep);
        lemma_no_sep_acc(s.drop_first(), sep, cur.push(s.first()));
        assert(cur.push(s.first()) + s.drop_first() =~= cur + s);
        assert(seq![cur.push(s.first()) + s.drop_first()] =~= seq![cur + s]);
    }
}

/// Splitting a string that lacks the separator yields the string as its
/// single piece.
pub proof fn lemma_no_sep_single_piece(s: Seq<char>, sep: char)
    requires
        forall|i: int| 0 <= i < s.len() ==> s[i] != sep,
    ensures
        sep_pieces(s, sep) == seq![s],
{
    lemma_no_sep_acc(s, sep, Seq::empty());
    assert(Seq::<char>::empty() + s =~= s);
    assert(seq![Seq::<char>::empty() + s] =~= seq![s]);
}

} // verus!
