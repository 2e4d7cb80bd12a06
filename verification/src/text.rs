//! Character-level helpers shared by the layers: searching, case folding
//! and decimal rendering over sequences of characters.

use vstd::prelude::*;
use vstd::string::StringExecFns;

verus! {

/// `pat` stands in `text` at position `at`.
pub open spec fn occurs_at(text: Seq<char>, pat: Seq<char>, at: int) -> bool {
    0 <= at && at + pat.len() <= text.len() && text.subrange(at, at + pat.len()) == pat
}

/// `pat` stands somewhere in `text`.
pub open spec fn contains(text: Seq<char>, pat: Seq<char>) -> bool {
    exists|at: int| occurs_at(text, pat, at)
}

/// How many of the positions below `upto` start an occurrence of `pat`.
pub open spec fn occurrences_below(text: Seq<char>, pat: Seq<char>, upto: nat) -> nat
    decreases upto,
{
    if upto == 0 {
        0
    } else {
        occurrences_below(text, pat, (upto - 1) as nat) + if occurs_at(text, pat, upto - 1) {
            1nat
        } else {
            0nat
        }
    }
}

/// How many positions of `text` start an occurrence of `pat`; overlapping
/// occurrences each count.
pub open spec fn occurrences(text: Seq<char>, pat: Seq<char>) -> nat {
    occurrences_below(text, pat, text.len())
}

/// `text` begins with `pat`.
pub open spec fn starts_with(text: Seq<char>, pat: Seq<char>) -> bool {
    occurs_at(text, pat, 0)
}

/// `text` ends with `pat`.
pub open spec fn ends_with(text: Seq<char>, pat: Seq<char>) -> bool {
    pat.len() <= text.len() && occurs_at(text, pat, text.len() - pat.len())
}

/// The decimal digit for `d`, for `d` below ten.
pub open spec fn digit_char(d: nat) -> char {
    ((48 + d) as u8) as char
}

/// The decimal numeral of `n`, without sign or leading zeros.
pub open spec fn decimal(n: nat) -> Seq<char>
    decreases n,
{
    if n < 10 {
        seq![digit_char(n)]
    } else {
        decimal(n / 10).push(digit_char(n % 10))
    }
}

/// What `str::to_lowercase` makes of the characters.
pub uninterp spec fn lowercase(s: Seq<char>) -> Seq<char>;

/// What `str::to_uppercase` makes of the characters.
pub uninterp spec fn uppercase(s: Seq<char>) -> Seq<char>;

/// An occurrence below `upto` is counted, and where something is counted
/// there is an occurrence.
proof fn lemma_occurrences_below(text: Seq<char>, pat: Seq<char>, upto: nat)
    ensures
        occurrences_below(text, pat, upto) > 0 <==> exists|at: int|
            0 <= at < upto && occurs_at(text, pat, at),
    decreases upto,
{
    if upto > 0 {
        lemma_occurrences_below(text, pat, (upto - 1) as nat);
        if occurs_at(text, pat, upto - 1) {
        } else if exists|at: int| 0 <= at < upto && occurs_at(text, pat, at) {
            let at = choose|at: int| 0 <= at < upto && occurs_at(text, pat, at);
            assert(0 <= at < upto - 1 && occurs_at(text, pat, at));
        }
    }
}

/// A pattern that holds a character is counted in a text exactly when it
/// stands somewhere in it.
pub proof fn lemma_occurrences(text: Seq<char>, pat: Seq<char>)
    requires
        pat.len() > 0,
    ensures
        occurrences(text, pat) > 0 <==> contains(text, pat),
{
    lemma_occurrences_below(text, pat, text.len());
    if contains(text, pat) {
        let at = choose|at: int| occurs_at(text, pat, at);
        assert(0 <= at < text.len() && occurs_at(text, pat, at));
    }
}

/// Calls `str::to_lowercase`, the full Unicode lower-casing of std, which
/// depends on the characters alone. The contract only gives that result its
/// name; nothing is claimed about what it holds.
#[verifier::external_body]
pub(crate) fn to_lowercase(s: &str) -> (out: String)
    ensures
        out@ == lowercase(s@),
{
    s.to_lowercase()
}

/// Calls `str::to_uppercase`, the full Unicode upper-casing of std, which
/// depends on the characters alone. The contract only gives that result its
/// name; nothing is claimed about what it holds.
#[verifier::external_body]
pub(crate) fn to_uppercase(s: &str) -> (out: String)
    ensures
        out@ == uppercase(s@),
{
    s.to_uppercase()
}

/// The characters of `s`, in order.
pub fn chars_of(s: &str) -> (out: Vec<char>)
    ensures
        out@ == s@,
{
    let mut out: Vec<char> = Vec::new();
    for c in it: s.chars()
        invariant
            it.seq() == s@,
            out@ == s@.take(it.index()),
    {
        proof {
            assert(s@.take(it.index() + 1) =~= s@.take(it.index()).push(c));
        }
        out.push(c);
    }
    proof {
        assert(s@.take(s@.len() as int) =~= s@);
    }
    out
}

/// Whether `pat` stands in `text` at position `at`.
pub fn matches_at(text: &[char], pat: &[char], at: usize) -> (found: bool)
    ensures
        found == occurs_at(text@, pat@, at as int),
{
    if pat.len() > text.len() || at > text.len() - pat.len() {
        return false;
    }
    let mut j: usize = 0;
    while j < pat.len()
        invariant
            j <= pat.len(),
            at + pat.len() <= text.len(),
            forall|k: int| 0 <= k < j ==> text@[at + k] == pat@[k],
        decreases pat.len() - j,
    {
        if text[at + j] != pat[j] {
            proof {
                assert(text@.subrange(at as int, at + pat@.len())[j as int] == text@[at + j]);
            }
            return false;
        }
        j += 1;
    }
    proof {
        assert(text@.subrange(at as int, at + pat@.len()) =~= pat@);
    }
    true
}

/// Whether the two character sequences are the same.
pub fn same_chars(a: &[char], b: &[char]) -> (same: bool)
    ensures
        same == (a@ == b@),
{
    if a.len() != b.len() {
        return false;
    }
    let found = matches_at(a, b, 0);
    proof {
        assert(a@.subrange(0, a@.len() as int) =~= a@);
    }
    found
}

/// Whether the two strings hold the same characters.
pub fn same_text(a: &str, b: &str) -> (same: bool)
    ensures
        same == (a@ == b@),
{
    let ca = chars_of(a);
    let cb = chars_of(b);
    same_chars(ca.as_slice(), cb.as_slice())
}

/// Whether `text` begins with `pat`.
pub fn begins_with(text: &[char], pat: &[char]) -> (found: bool)
    ensures
        found == starts_with(text@, pat@),
{
    matches_at(text, pat, 0)
}

/// Whether `text` ends with `pat`.
pub fn finishes_with(text: &[char], pat: &[char]) -> (found: bool)
    ensures
        found == ends_with(text@, pat@),
{
    if pat.len() > text.len() {
        return false;
    }
    matches_at(text, pat, text.len() - pat.len())
}

/// How many positions of `text` start an occurrence of `pat`.
pub fn count_occurrences(text: &[char], pat: &[char]) -> (count: usize)
    ensures
        count == occurrences(text@, pat@),
{
    let mut count: usize = 0;
    let mut at: usize = 0;
    while at < text.len()
        invariant
            at <= text.len(),
            count <= at,
            count == occurrences_below(text@, pat@, at as nat),
        decreases text.len() - at,
    {
        if matches_at(text, pat, at) {
            count += 1;
        }
        at += 1;
    }
    count
}

/// Whether `pat` stands somewhere in `text`.
pub fn has_occurrence(text: &[char], pat: &[char]) -> (found: bool)
    ensures
        found == contains(text@, pat@),
{
    let mut at: usize = 0;
    while at <= text.len()
        invariant
            at <= text.len() + 1,
            forall|k: int| 0 <= k < at ==> !occurs_at(text@, pat@, k),
        decreases text.len() + 1 - at,
    {
        if matches_at(text, pat, at) {
            return true;
        }
        if at == text.len() {
            return false;
        }
        at += 1;
    }
    false
}

/// The one-character text of the decimal digit `d`.
fn digit_text(d: u8) -> (out: &'static str)
    requires
        d < 10,
    ensures
        out@ == seq![digit_char(d as nat)],
{
    proof {
        reveal_strlit("0");
        reveal_strlit("1");
        reveal_strlit("2");
        reveal_strlit("3");
        reveal_strlit("4");
        reveal_strlit("5");
        reveal_strlit("6");
        reveal_strlit("7");
        reveal_strlit("8");
        reveal_strlit("9");
    }
    let out = if d == 0 {
        "0"
    } else if d == 1 {
        "1"
    } else if d == 2 {
        "2"
    } else if d == 3 {
        "3"
    } else if d == 4 {
        "4"
    } else if d == 5 {
        "5"
    } else if d == 6 {
        "6"
    } else if d == 7 {
        "7"
    } else if d == 8 {
        "8"
    } else {
        "9"
    };
    proof {
        assert(out@ =~= seq![digit_char(d as nat)]);
    }
    out
}

/// Appends the decimal numeral of `n` to `out`.
pub(crate) fn push_decimal(out: &mut String, n: u64)
    ensures
        final(out)@ == old(out)@ + decimal(n as nat),
    decreases n,
{
    if n >= 10 {
        push_decimal(out, n / 10);
    }
    let d: u8 = (n % 10) as u8;
    out.append(digit_text(d));
    proof {
        assert(out@ =~= old(out)@ + decimal(n as nat));
    }
}

/// The decimal numeral of `n`.
pub fn decimal_text(n: u64) -> (out: String)
    ensures
        out@ == decimal(n as nat),
{
    let mut out = String::new();
    push_decimal(&mut out, n);
    proof {
        assert(Seq::<char>::empty() + decimal(n as nat) =~= decimal(n as nat));
    }
    out
}

} // verus!
