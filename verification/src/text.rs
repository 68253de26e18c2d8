//! Small verified helpers on text shared by the other modules.
use vstd::prelude::*;

verus! {

/// Character position of the first `c` in `s`, if `s` holds one.
pub fn find_char(s: &str, c: char) -> (r: Option<usize>)
    ensures
        match r {
            Some(i) => {
                &&& i < s@.len()
                &&& s@[i as int] == c
                &&& !s@.take(i as int).contains(c)
            },
            None => !s@.contains(c),
        },
{
    let n = s.unicode_len();
    let mut i: usize = 0;
    while i < n
        invariant
            n == s@.len(),
            i <= n,
            forall|k: int| 0 <= k < i ==> s@[k] != c,
        decreases n - i,
    {
        if s.get_char(i) == c {
            proof {
                assert forall|k: int| 0 <= k < i implies s@.take(i as int)[k] != c by {}
            }
            return Some(i);
        }
        i = i + 1;
    }
    None
}

/// The text of `s` before its first `c` (all of `s` when it holds none).
pub open spec fn before_first(s: Seq<char>, c: char) -> Seq<char>
    decreases s.len(),
{
    if s.len() == 0 {
        s
    } else if s[0] == c {
        Seq::empty()
    } else {
        seq![s[0]] + before_first(s.drop_first(), c)
    }
}

/// The text of `s` after its first `c` (empty when it holds none).
pub open spec fn after_first(s: Seq<char>, c: char) -> Seq<char>
    decreases s.len(),
{
    if s.len() == 0 {
        s
    } else if s[0] == c {
        s.drop_first()
    } else {
        after_first(s.drop_first(), c)
    }
}

pub proof fn lemma_split_parts(before: Seq<char>, c: char, after: Seq<char>)
    requires
        !before.contains(c),
    ensures
        before_first(before + seq![c] + after, c) == before,
        after_first(before + seq![c] + after, c) == after,
    decreases before.len(),
{
    let s = before + seq![c] + after;
    if before.len() == 0 {
        assert(s.drop_first() =~= after);
    } else {
        assert(!before.drop_first().contains(c)) by {
            if before.drop_first().contains(c) {
                let k = choose|k: int| 0 <= k < before.drop_first().len() && before.drop_first()[k] == c;
                assert(before[k + 1] == c);
            }
        }
        lemma_split_parts(before.drop_first(), c, after);
        assert(s.drop_first() =~= before.drop_first() + seq![c] + after);
        assert(seq![s[0]] + before.drop_first() =~= before);
    }
}

pub proof fn lemma_no_separator(s: Seq<char>, c: char)
    requires
        !s.contains(c),
    ensures
        before_first(s, c) == s,
        after_first(s, c) == Seq::<char>::empty(),
    decreases s.len(),
{
    if s.len() > 0 {
        assert(s[0] != c);
        assert(!s.drop_first().contains(c)) by {
            if s.drop_first().contains(c) {
                let k = choose|k: int| 0 <= k < s.drop_first().len() && s.drop_first()[k] == c;
                assert(s[k + 1] == c);
            }
        }
        lemma_no_separator(s.drop_first(), c);
        assert(seq![s[0]] + s.drop_first() =~= s);
    }
}

/// `s` split around its first `c`: the text before it and the text after it.
pub fn split_once(s: &str, c: char) -> (r: Option<(String, String)>)
    ensures
        match r {
            Some((before, after)) => {
                &&& !before@.contains(c)
                &&& before@ + seq![c] + after@ == s@
                &&& before@ == before_first(s@, c)
                &&& after@ == after_first(s@, c)
            },
            None => !s@.contains(c),
        },
{
    match find_char(s, c) {
        Some(i) => {
            let n = s.unicode_len();
            let before = String::from_str(s.substring_char(0, i));
            let after = String::from_str(s.substring_char(i + 1, n));
            proof {
                assert(before@ + seq![c] + after@ =~= s@);
                lemma_split_parts(before@, c, after@);
            }
            Some((before, after))
        },
        None => None,
    }
}

/// The digits of base sixteen, upper case.
pub open spec fn hex_digits() -> Seq<char> {
    seq!['0', '1', '2', '3', '4', '5', '6', '7', '8', '9', 'A', 'B', 'C', 'D', 'E', 'F']
}

/// Each byte as two upper-case hexadecimal digits, high half first.
pub open spec fn upper_hex(bytes: Seq<u8>) -> Seq<char>
    decreases bytes.len(),
{
    if bytes.len() == 0 {
        Seq::empty()
    } else {
        let b = bytes.last();
        upper_hex(bytes.drop_last()) + seq![hex_digits()[(b / 16) as int], hex_digits()[(b % 16) as int]]
    }
}

pub proof fn lemma_upper_hex_len(bytes: Seq<u8>)
    ensures
        upper_hex(bytes).len() == 2 * bytes.len(),
    decreases bytes.len(),
{
    if bytes.len() > 0 {
        lemma_upper_hex_len(bytes.drop_last());
    }
}

/// The one-character text holding hexadecimal digit `d`.
fn hex_digit_text(d: u8) -> (t: &'static str)
    requires
        d < 16,
    ensures
        t@ == seq![hex_digits()[d as int]],
{
    let digits = "0123456789ABCDEF";
    proof {
        reveal_strlit("0123456789ABCDEF");
        assert(digits@ =~= hex_digits());
    }
    digits.substring_char(d as usize, d as usize + 1)
}

/// Appends the upper-case hexadecimal form of `bytes` to `out`.
pub fn push_upper_hex(out: &mut String, bytes: &[u8])
    ensures
        final(out)@ == old(out)@ + upper_hex(bytes@),
{
    let mut i: usize = 0;
    while i < bytes.len()
        invariant
            i <= bytes@.len(),
            out@ == old(out)@ + upper_hex(bytes@.take(i as int)),
        decreases bytes@.len() - i,
    {
        let b = bytes[i];
        out.append(hex_digit_text(b / 16));
        out.append(hex_digit_text(b % 16));
        proof {
            assert(bytes@.take(i + 1).drop_last() =~= bytes@.take(i as int));
        }
        i = i + 1;
    }
    proof {
        assert(bytes@.take(bytes@.len() as int) =~= bytes@);
    }
}

/// The decimal form of `n`, without leading zeros.
pub open spec fn decimal(n: nat) -> Seq<char>
    decreases n,
{
    if n < 10 {
        seq![hex_digits()[n as int]]
    } else {
        decimal(n / 10) + seq![hex_digits()[(n % 10) as int]]
    }
}

/// Appends the decimal form of `n` to `out`.
pub fn push_decimal(out: &mut String, n: u64)
    ensures
        final(out)@ == old(out)@ + decimal(n as nat),
    decreases n,
{
    if n >= 10 {
        push_decimal(out, n / 10);
    }
    out.append(hex_digit_text((n % 10) as u8));
}

/// The pieces of `s` between the separators `c`, in order (one piece when `s` holds
/// no `c`; empty pieces are kept).
pub open spec fn split_pieces(s: Seq<char>, c: char) -> Seq<Seq<char>>
    decreases s.len(),
{
    if !s.contains(c) {
        seq![s]
    } else {
        proof {
            lemma_after_first_shorter(s, c);
        }
        seq![before_first(s, c)] + split_pieces(after_first(s, c), c)
    }
}

pub proof fn lemma_after_first_shorter(s: Seq<char>, c: char)
    requires
        s.contains(c),
    ensures
        after_first(s, c).len() < s.len(),
    decreases s.len(),
{
    if s[0] != c {
        assert(s.drop_first().contains(c)) by {
            let k = choose|k: int| 0 <= k < s.len() && s[k] == c;
            assert(s.drop_first()[k - 1] == c);
        }
        lemma_after_first_shorter(s.drop_first(), c);
    }
}

/// The pieces of `s` between the separators `c`.
pub fn split_list(s: &str, c: char) -> (pieces: Vec<String>)
    ensures
        pieces@.map_values(|p: String| p@) == split_pieces(s@, c),
{
    let mut pieces: Vec<String> = Vec::new();
    let mut rest = String::from_str(s);
    loop
        invariant
            split_pieces(s@, c) == pieces@.map_values(|p: String| p@) + split_pieces(rest@, c),
        decreases rest@.len(),
    {
        let ghost old_pieces = pieces@;
        match split_once(rest.as_str(), c) {
            Some((piece, tail)) => {
                proof {
                    assert(rest@[piece@.len() as int] == c);
                    assert(rest@.contains(c));
                    lemma_after_first_shorter(rest@, c);
                }
                let ghost piece_view = piece@;
                pieces.push(piece);
                assert(pieces@.map_values(|p: String| p@) =~= old_pieces.map_values(|p: String| p@).push(
                    piece_view,
                ));
                assert(split_pieces(rest@, c) == seq![piece_view] + split_pieces(tail@, c));
                assert(pieces@.map_values(|p: String| p@) + split_pieces(tail@, c)
                    =~= old_pieces.map_values(|p: String| p@) + split_pieces(rest@, c));
                rest = tail;
            },
            None => {
                let ghost rest_view = rest@;
                pieces.push(rest);
                assert(pieces@.map_values(|p: String| p@) =~= old_pieces.map_values(|p: String| p@) + seq![
                    rest_view,
                ]);
                return pieces;
            },
        }
    }
}

/// The dotted-quad form of an IPv4 address given as a number, most significant byte first.
pub open spec fn ipv4_text(addr: u32) -> Seq<char> {
    decimal((addr / 0x100_0000) as nat) + seq!['.'] + decimal(((addr / 0x1_0000) % 0x100) as nat) + seq![
        '.',
    ] + decimal(((addr / 0x100) % 0x100) as nat) + seq!['.'] + decimal((addr % 0x100) as nat)
}

/// Appends the dotted-quad form of `addr` to `out`.
pub fn push_ipv4(out: &mut String, addr: u32)
    ensures
        final(out)@ == old(out)@ + ipv4_text(addr),
{
    let dot = ".";
    proof {
        reveal_strlit(".");
        assert(dot@ =~= seq!['.']);
    }
    let ghost start = out@;
    push_decimal(out, (addr / 0x100_0000) as u64);
    out.append(dot);
    push_decimal(out, ((addr / 0x1_0000) % 0x100) as u64);
    out.append(dot);
    push_decimal(out, ((addr / 0x100) % 0x100) as u64);
    out.append(dot);
    push_decimal(out, (addr % 0x100) as u64);
    assert(out@ =~= start + ipv4_text(addr));
}

pub open spec fn is_decimal_digit(c: char) -> bool {
    '0' <= c && c <= '9'
}

/// The number that a run of decimal digits denotes.
pub open spec fn digits_value(s: Seq<char>) -> nat
    decreases s.len(),
{
    if s.len() == 0 {
        0
    } else {
        digits_value(s.drop_last()) * 10 + (s.last() as nat - '0' as nat) as nat
    }
}

/// The digits of an unsigned number's text: a leading `+` is allowed.
pub open spec fn unsigned_digits(s: Seq<char>) -> Seq<char> {
    if s.len() > 0 && s[0] == '+' {
        s.drop_first()
    } else {
        s
    }
}

/// The value of `s` read as a `u64` the way the standard library reads one: an
/// optional `+`, then at least one decimal digit and nothing else, with a value that
/// fits.
pub open spec fn parsed_u64(s: Seq<char>) -> Option<u64> {
    let d = unsigned_digits(s);
    if d.len() > 0 && (forall|i: int| 0 <= i < d.len() ==> is_decimal_digit(#[trigger] d[i]))
        && digits_value(d) <= u64::MAX {
        Some(digits_value(d) as u64)
    } else {
        None
    }
}

proof fn lemma_digits_value_grows(d: Seq<char>, k: int)
    requires
        0 <= k <= d.len(),
        forall|i: int| 0 <= i < d.len() ==> is_decimal_digit(#[trigger] d[i]),
    ensures
        digits_value(d.take(k)) <= digits_value(d),
    decreases d.len() - k,
{
    if k < d.len() {
        lemma_digits_value_grows(d, k + 1);
        assert(d.take(k + 1).drop_last() =~= d.take(k));
    } else {
        assert(d.take(k) =~= d);
    }
}

proof fn lemma_decimal_digit_char(d: int)
    requires
        0 <= d < 10,
    ensures
        is_decimal_digit(hex_digits()[d]),
        hex_digits()[d] as nat - '0' as nat == d,
{
    if d == 0 {
    } else if d == 1 {
    } else if d == 2 {
    } else if d == 3 {
    } else if d == 4 {
    } else if d == 5 {
    } else if d == 6 {
    } else if d == 7 {
    } else if d == 8 {
    } else {
        assert(d == 9);
    }
}

/// The decimal form of `n` is a non-empty run of decimal digits that denotes `n`.
pub proof fn lemma_decimal_digits(n: nat)
    ensures
        decimal(n).len() > 0,
        forall|i: int| 0 <= i < decimal(n).len() ==> is_decimal_digit(#[trigger] decimal(n)[i]),
        digits_value(decimal(n)) == n,
    decreases n,
{
    lemma_decimal_digit_char((n % 10) as int);
    if n < 10 {
        lemma_decimal_digit_char(n as int);
        assert(decimal(n).drop_last() =~= Seq::<char>::empty());
        assert(digits_value(Seq::<char>::empty()) == 0);
        assert(decimal(n).last() == hex_digits()[n as int]);
    } else {
        lemma_decimal_digits(n / 10);
        let d = decimal(n);
        assert(d.drop_last() =~= decimal(n / 10));
        assert(d.last() == hex_digits()[(n % 10) as int]);
        assert(digits_value(d) == digits_value(decimal(n / 10)) * 10 + (n % 10));
        assert forall|i: int| 0 <= i < d.len() implies is_decimal_digit(#[trigger] d[i]) by {
            if i < d.len() - 1 {
                assert(d[i] == decimal(n / 10)[i]);
            }
        }
    }
}

proof fn lemma_decimal_has_no_separator(n: nat, c: char)
    requires
        !is_decimal_digit(c),
    ensures
        !decimal(n).contains(c),
{
    lemma_decimal_digits(n);
    if decimal(n).contains(c) {
        let i = choose|i: int| 0 <= i < decimal(n).len() && decimal(n)[i] == c;
        assert(is_decimal_digit(decimal(n)[i]));
    }
}

proof fn lemma_split_pieces_front(first: Seq<char>, c: char, rest: Seq<char>)
    requires
        !first.contains(c),
    ensures
        split_pieces(first + seq![c] + rest, c) == seq![first] + split_pieces(rest, c),
{
    let s = first + seq![c] + rest;
    assert(s[first.len() as int] == c);
    assert(s.contains(c));
    lemma_split_parts(first, c, rest);
}

/// The text written for an address is its dotted-decimal form: it has four
/// dot-separated fields, and field `k` read as a decimal number is the address's byte
/// `k`, most significant first.
pub proof fn lemma_ipv4_text_fields(addr: u32)
    ensures
        split_pieces(ipv4_text(addr), '.').len() == 4,
        parsed_u64(split_pieces(ipv4_text(addr), '.')[0]) == Some(((addr >> 24u32) & 0xff) as u64),
        parsed_u64(split_pieces(ipv4_text(addr), '.')[1]) == Some(((addr >> 16u32) & 0xff) as u64),
        parsed_u64(split_pieces(ipv4_text(addr), '.')[2]) == Some(((addr >> 8u32) & 0xff) as u64),
        parsed_u64(split_pieces(ipv4_text(addr), '.')[3]) == Some((addr & 0xff) as u64),
{
    let b0 = (addr / 0x100_0000) as u64;
    let b1 = ((addr / 0x1_0000) % 0x100) as u64;
    let b2 = ((addr / 0x100) % 0x100) as u64;
    let b3 = (addr % 0x100) as u64;
    assert(((addr >> 24u32) & 0xff) == addr / 0x100_0000) by (bit_vector);
    assert(((addr >> 16u32) & 0xff) == (addr / 0x1_0000) % 0x100) by (bit_vector);
    assert(((addr >> 8u32) & 0xff) == (addr / 0x100) % 0x100) by (bit_vector);
    assert((addr & 0xff) == addr % 0x100) by (bit_vector);
    let d0 = decimal(b0 as nat);
    let d1 = decimal(b1 as nat);
    let d2 = decimal(b2 as nat);
    let d3 = decimal(b3 as nat);
    assert(!is_decimal_digit('.'));
    lemma_decimal_has_no_separator(b0 as nat, '.');
    lemma_decimal_has_no_separator(b1 as nat, '.');
    lemma_decimal_has_no_separator(b2 as nat, '.');
    lemma_decimal_has_no_separator(b3 as nat, '.');
    let t = ipv4_text(addr);
    let r2 = d2 + seq!['.'] + d3;
    let r1 = d1 + seq!['.'] + r2;
    assert(t =~= d0 + seq!['.'] + r1);
    lemma_split_pieces_front(d0, '.', r1);
    lemma_split_pieces_front(d1, '.', r2);
    lemma_split_pieces_front(d2, '.', d3);
    assert(split_pieces(d3, '.') == seq![d3]);
    assert(split_pieces(t, '.') =~= seq![d0, d1, d2, d3]);
    lemma_parse_reads_decimal(b0);
    lemma_parse_reads_decimal(b1);
    lemma_parse_reads_decimal(b2);
    lemma_parse_reads_decimal(b3);
}

/// Reading back what `push_decimal` writes gives the number again: the decimal form of
/// any `u64` parses to that same `u64`.
pub proof fn lemma_parse_reads_decimal(n: u64)
    ensures
        parsed_u64(decimal(n as nat)) == Some(n),
{
    lemma_decimal_digits(n as nat);
    let d = decimal(n as nat);
    assert(is_decimal_digit(d[0]));
    assert(unsigned_digits(d) == d);
}

/// The value of `s` read as a `u16` the way the standard library reads one.
pub open spec fn parsed_u16(s: Seq<char>) -> Option<u16> {
    match parsed_u64(s) {
        Some(v) => if v <= u16::MAX {
            Some(v as u16)
        } else {
            None
        },
        None => None,
    }
}

/// Reads `s` as a `u16`; `None` where the standard library's parser reports an error.
pub fn parse_u16(s: &str) -> (r: Option<u16>)
    ensures
        r == parsed_u16(s@),
{
    match parse_u64(s) {
        Some(v) => if v <= 65535 {
            Some(v as u16)
        } else {
            None
        },
        None => None,
    }
}

/// Reads `s` as a `u64`; `None` where the standard library's parser reports an error.
pub fn parse_u64(s: &str) -> (r: Option<u64>)
    ensures
        r == parsed_u64(s@),
{
    let n = s.unicode_len();
    let ghost d = unsigned_digits(s@);
    let mut start: usize = 0;
    if n > 0 && s.get_char(0) == '+' {
        start = 1;
    }
    assert(d =~= s@.skip(start as int));
    if start == n {
        return None;
    }
    let mut value: u64 = 0;
    let mut i: usize = start;
    while i < n
        invariant
            n == s@.len(),
            start <= i <= n,
            start < n,
            d == s@.skip(start as int),
            d == unsigned_digits(s@),
            forall|k: int| 0 <= k < i - start ==> is_decimal_digit(#[trigger] d[k]),
            value == digits_value(d.take(i - start)),
        decreases n - i,
    {
        let c = s.get_char(i);
        assert(c == d[i - start]);
        if !('0' <= c && c <= '9') {
            assert(!is_decimal_digit(d[i - start]));
            return None;
        }
        let digit = (c as u32 - '0' as u32) as u64;
        assert(digit == (c as nat - '0' as nat) as nat);
        assert(d.take(i + 1 - start).last() == c);
        assert(d.take(i + 1 - start).drop_last() =~= d.take(i - start));
        match value.checked_mul(10) {
            Some(tens) => match tens.checked_add(digit) {
                Some(next) => {
                    value = next;
                },
                None => {
                    proof {
                        if forall|k: int| 0 <= k < d.len() ==> is_decimal_digit(#[trigger] d[k]) {
                            lemma_digits_value_grows(d, i + 1 - start);
                        }
                    }
                    return None;
                },
            },
            None => {
                proof {
                    if forall|k: int| 0 <= k < d.len() ==> is_decimal_digit(#[trigger] d[k]) {
                        lemma_digits_value_grows(d, i + 1 - start);
                    }
                }
                return None;
            },
        }
        i = i + 1;
    }
    assert(d.take(d.len() as int) =~= d);
    Some(value)
}

} // verus!
