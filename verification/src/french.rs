//! Numbers written out in French, followed by their digits.
use vstd::prelude::*;
use french_numbers::french_number;
use crate::text::{
    decimal, is_decimal_digit, lemma_decimal_digits, lemma_parse_reads_decimal, parsed_u64,
    push_decimal,
};

verus! {

/// The French words for `n` as the `french_numbers` crate writes them.
pub uninterp spec fn french_words(n: u32) -> Seq<char>;

/// Calls `french_numbers::french_number`. Claimed: the words depend on the number alone.
#[verifier::external_body]
fn french_number_text(n: u32) -> (words: String)
    ensures
        words@ == french_words(n),
{
    french_number(&n)
}

/// `words (digits)`, e.g. `soixante-et-onze (71)`.
pub open spec fn french_label(n: u32) -> Seq<char> {
    french_words(n) + seq![' ', '('] + decimal(n as nat) + seq![')']
}

/// The last `k` characters before the label's closing bracket.
pub open spec fn bracket_field(t: Seq<char>, k: int) -> Seq<char> {
    t.subrange(t.len() - k - 1, t.len() - 1)
}

/// The field in brackets: it follows an opening bracket and holds none.
pub open spec fn is_bracket_field(t: Seq<char>, k: int) -> bool {
    &&& 0 < k
    &&& k + 2 <= t.len()
    &&& t[t.len() - k - 2] == '('
    &&& !bracket_field(t, k).contains('(')
}

/// The label ends with its number in brackets: it closes with `)`, the text after its
/// last `(` exists, and reading that text as a decimal gives back the whole number.
pub proof fn lemma_french_label_number(n: u32)
    ensures
        french_label(n).last() == ')',
        exists|k: int| is_bracket_field(french_label(n), k),
        forall|k: int|
            is_bracket_field(french_label(n), k) ==> parsed_u64(bracket_field(french_label(n), k))
                == Some(n as u64),
{
    let t = french_label(n);
    let w = french_words(n);
    let d = decimal(n as nat);
    lemma_decimal_digits(n as nat);
    lemma_parse_reads_decimal(n as u64);
    let m = d.len() as int;
    assert(t.len() == w.len() + 2 + m + 1);
    assert(forall|i: int| 0 <= i < m ==> #[trigger] t[w.len() + 2 + i] == d[i]);
    assert(bracket_field(t, m) =~= d);
    assert(t[t.len() - m - 2] == '(');
    assert(!d.contains('(')) by {
        if d.contains('(') {
            let i = choose|i: int| 0 <= i < m && d[i] == '(';
            assert(is_decimal_digit(d[i]));
        }
    }
    assert(is_bracket_field(t, m));
    assert forall|k: int| is_bracket_field(t, k) implies parsed_u64(bracket_field(t, k)) == Some(
        n as u64,
    ) by {
        if k < m {
            assert(t[t.len() - k - 2] == d[m - k - 1]);
            assert(is_decimal_digit(d[m - k - 1]));
        } else if k > m {
            assert(bracket_field(t, k)[k - m - 1] == t[t.len() - m - 2]);
        }
    }
}

/// The French words for `value` followed by its decimal digits in brackets.
pub fn french(value: u32) -> (label: String)
    ensures
        label@ == french_label(value),
{
    let open = " (";
    let close = ")";
    proof {
        reveal_strlit(" (");
        reveal_strlit(")");
        assert(open@ =~= seq![' ', '(']);
        assert(close@ =~= seq![')']);
    }
    let mut label = french_number_text(value);
    label.append(open);
    push_decimal(&mut label, value as u64);
    label.append(close);
    label
}

} // verus!
